use skystore::config::cfgcli::Flag;
use skystore::config::cfgfile::{NonNull, Optional};
use skystore::config::{
    BGSave, ConfigError, ConfigWarning, Configset, ErrorStack, OptString, PortConfig,
    SnapshotConfig, SnapshotPref, SslOpts, TryFromConfigSource, WarningStack, DEFAULT_IPV4,
};
use std::fmt::Debug;

// server tests
// TCP
#[test]
fn server_tcp() {
    let mut cfgset = Configset::new_env();
    cfgset.server_tcp(
        Some("127.0.0.1"),
        "SKY_SERVER_HOST",
        Some("2004"),
        "SKY_SERVER_PORT",
    );
    assert_eq!(
        cfgset.cfg.ports,
        PortConfig::new_insecure_only(DEFAULT_IPV4, 2004)
    );
    assert!(cfgset.is_mutated());
    assert!(cfgset.is_okay());
}

#[test]
fn server_tcp_fail_host() {
    let mut cfgset = Configset::new_env();
    cfgset.server_tcp(
        Some("?127.0.0.1"),
        "SKY_SERVER_HOST",
        Some("2004"),
        "SKY_SERVER_PORT",
    );
    assert_eq!(
        cfgset.cfg.ports,
        PortConfig::new_insecure_only(DEFAULT_IPV4, 2004)
    );
    assert!(cfgset.is_mutated());
    assert!(!cfgset.is_okay());
}

#[test]
fn server_tcp_fail_port() {
    let mut cfgset = Configset::new_env();
    cfgset.server_tcp(
        Some("127.0.0.1"),
        "SKY_SERVER_HOST",
        Some("65537"),
        "SKY_SERVER_PORT",
    );
    assert_eq!(
        cfgset.cfg.ports,
        PortConfig::new_insecure_only(DEFAULT_IPV4, 2003)
    );
    assert!(cfgset.is_mutated());
    assert!(!cfgset.is_okay());
}

#[test]
fn server_tcp_fail_both() {
    let mut cfgset = Configset::new_env();
    cfgset.server_tcp(
        Some("?127.0.0.1"),
        "SKY_SERVER_HOST",
        Some("65537"),
        "SKY_SERVER_PORT",
    );
    assert_eq!(
        cfgset.cfg.ports,
        PortConfig::new_insecure_only(DEFAULT_IPV4, 2003)
    );
    assert!(cfgset.is_mutated());
    assert!(!cfgset.is_okay());
}

// noart
#[test]
fn server_noart_okay() {
    let mut cfgset = Configset::new_env();
    cfgset.server_noart(Some("true"), "SKY_SYSTEM_NOART");
    assert!(!cfgset.cfg.is_artful());
    assert!(cfgset.is_okay());
    assert!(cfgset.is_mutated());
}

#[test]
fn server_noart_fail() {
    let mut cfgset = Configset::new_env();
    cfgset.server_noart(Some("truee"), "SKY_SYSTEM_NOART");
    assert!(cfgset.cfg.is_artful());
    assert!(!cfgset.is_okay());
    assert!(cfgset.is_mutated());
}

#[test]
fn server_maxcon_okay() {
    let mut cfgset = Configset::new_env();
    cfgset.server_maxcon(Some("12345"), "SKY_SYSTEM_MAXCON");
    assert!(cfgset.is_mutated());
    assert!(cfgset.is_okay());
    assert_eq!(cfgset.cfg.maxcon, 12345);
}

#[test]
fn server_maxcon_fail() {
    let mut cfgset = Configset::new_env();
    cfgset.server_maxcon(Some("12345A"), "SKY_SYSTEM_MAXCON");
    assert!(cfgset.is_mutated());
    assert!(!cfgset.is_okay());
    assert_eq!(cfgset.cfg.maxcon, 50000);
}

// bgsave settings
#[test]
fn bgsave_okay() {
    let mut cfgset = Configset::new_env();
    cfgset.bgsave_settings(
        Some("true"),
        "SKY_BGSAVE_ENABLED",
        Some("128"),
        "SKY_BGSAVE_DURATION",
    );
    assert!(cfgset.is_mutated());
    assert!(cfgset.is_okay());
    assert_eq!(cfgset.cfg.bgsave, BGSave::Enabled(128));
}

#[test]
fn bgsave_fail() {
    let mut cfgset = Configset::new_env();
    cfgset.bgsave_settings(
        Some("truee"),
        "SKY_BGSAVE_ENABLED",
        Some("128"),
        "SKY_BGSAVE_DURATION",
    );
    assert!(cfgset.is_mutated());
    assert!(!cfgset.is_okay());
    assert_eq!(cfgset.cfg.bgsave, BGSave::Enabled(128));
}

// snapshot settings
#[test]
fn snapshot_okay() {
    let mut cfgset = Configset::new_env();
    cfgset.snapshot_settings(
        Some("3600"),
        "SKY_SNAPSHOT_EVERY",
        Some("0"),
        "SKY_SNAPSHOT_ATMOST",
        Some("false"),
        "SKY_SNAPSHOT_FAILSAFE",
    );
    assert!(cfgset.is_mutated());
    assert!(cfgset.is_okay());
    assert_eq!(
        cfgset.cfg.snapshot,
        SnapshotConfig::Enabled(SnapshotPref::new(3600, 0, false))
    );
}

#[test]
fn snapshot_fail() {
    let mut cfgset = Configset::new_env();
    cfgset.snapshot_settings(
        Some("3600"),
        "SKY_SNAPSHOT_EVERY",
        Some("0"),
        "SKY_SNAPSHOT_ATMOST",
        Some("falsee"),
        "SKY_SNAPSHOT_FAILSAFE",
    );
    assert!(cfgset.is_mutated());
    assert!(!cfgset.is_okay());
    assert_eq!(
        cfgset.cfg.snapshot,
        SnapshotConfig::Enabled(SnapshotPref::new(3600, 0, true))
    );
}

#[test]
fn snapshot_fail_with_missing_required_values() {
    let mut cfgset = Configset::new_env();
    cfgset.snapshot_settings(
        Some("3600"),
        "SKY_SNAPSHOT_EVERY",
        None,
        "SKY_SNAPSHOT_ATMOST",
        None,
        "SKY_SNAPSHOT_FAILSAFE",
    );
    assert!(cfgset.is_mutated());
    assert!(!cfgset.is_okay());
    assert_eq!(cfgset.cfg.snapshot, SnapshotConfig::Disabled);
}

// TLS settings
#[test]
fn tls_settings_okay() {
    let mut cfg = Configset::new_env();
    cfg.tls_settings(
        Some("key.pem"),
        "SKY_TLS_KEY",
        Some("cert.pem"),
        "SKY_TLS_CERT",
        Some("2005"),
        "SKY_TLS_PORT",
        Some("false"),
        "SKY_TLS_ONLY",
        OptString::new_null(),
        "SKY_TLS_PASSIN",
    );
    assert!(cfg.is_mutated());
    assert!(cfg.is_okay());
    assert_eq!(cfg.cfg.ports, {
        let mut pf = PortConfig::default();
        pf.upgrade_to_tls(SslOpts::new(
            "key.pem".to_owned(),
            "cert.pem".to_owned(),
            2005,
            None,
        ));
        pf
    });
}

#[test]
fn tls_settings_fail() {
    let mut cfg = Configset::new_env();
    cfg.tls_settings(
        Some("key.pem"),
        "SKY_TLS_KEY",
        Some("cert.pem"),
        "SKY_TLS_CERT",
        Some("A2005"),
        "SKY_TLS_PORT",
        Some("false"),
        "SKY_TLS_ONLY",
        OptString::new_null(),
        "SKY_TLS_PASSIN",
    );
    assert!(cfg.is_mutated());
    assert!(!cfg.is_okay());
    assert_eq!(cfg.cfg.ports, {
        let mut pf = PortConfig::default();
        pf.upgrade_to_tls(SslOpts::new(
            "key.pem".to_owned(),
            "cert.pem".to_owned(),
            2004,
            None,
        ));
        pf
    });
}

#[test]
fn tls_settings_fail_with_missing_required_values() {
    let mut cfg = Configset::new_env();
    cfg.tls_settings(
        Some("key.pem"),
        "SKY_TLS_KEY",
        None::<&str>,
        "SKY_TLS_CERT",
        Some("2005"),
        "SKY_TLS_PORT",
        Some("false"),
        "SKY_TLS_ONLY",
        OptString::new_null(),
        "SKY_TLS_PASSIN",
    );
    assert!(cfg.is_mutated());
    assert!(!cfg.is_okay());
    assert_eq!(cfg.cfg.ports, PortConfig::default());
}

const EXPECT_TRUE: bool = true;
const EXPECT_FALSE: bool = false;
const MUTATED: bool = true;
const NOT_MUTATED: bool = false;
const IS_PRESENT: bool = true;
const IS_ABSENT: bool = false;
const MUTATION_FAILURE: bool = true;
const NO_MUTATION_FAILURE: bool = false;

fn _mut_base_test_expected<T: Default + PartialEq + Debug>(
    new: impl TryFromConfigSource<T>,
    expected: T,
    is_present: bool,
    mutate_failed: bool,
    has_mutated: bool,
) {
    let mut default = Default::default();
    let mut mutated = false;
    assert_eq!(new.is_present(), is_present);
    assert_eq!(new.mutate_failed(&mut default, &mut mutated), mutate_failed);
    assert_eq!(mutated, has_mutated);
    assert_eq!(default, expected);
}

fn _mut_base_test<T>(
    new: impl TryFromConfigSource<T>,
    mut default: T,
    is_present: bool,
    mutate_failed: bool,
    has_mutated: bool,
) {
    let mut mutated = false;
    assert_eq!(new.is_present(), is_present);
    assert_eq!(new.mutate_failed(&mut default, &mut mutated), mutate_failed);
    assert_eq!(mutated, has_mutated);
}

fn mut_test_pass<T>(new: impl TryFromConfigSource<T>, default: T) {
    _mut_base_test(new, default, IS_PRESENT, NO_MUTATION_FAILURE, MUTATED)
}

fn mut_test_fail<T>(new: impl TryFromConfigSource<T>, default: T) {
    _mut_base_test(new, default, IS_PRESENT, MUTATION_FAILURE, MUTATED)
}

// test for Option<&str> (as in CLI)
#[test]
fn option_str_okay_ipv4() {
    let ip = Some("127.0.0.1");
    mut_test_pass(ip, DEFAULT_IPV4);
}

#[test]
fn option_str_fail_ipv4() {
    let ip = Some("127.0.0.1A");
    mut_test_fail(ip, DEFAULT_IPV4);
}

#[test]
fn option_str_nomut() {
    let ip: Option<&str> = None;
    _mut_base_test(
        ip,
        DEFAULT_IPV4,
        IS_ABSENT,
        NO_MUTATION_FAILURE,
        NOT_MUTATED,
    );
}

#[test]
fn flag_true_if_set_okay_set() {
    // this is true if flag is present
    let flag = Flag::<true>::new(true);
    // we expect true
    _mut_base_test_expected(flag, EXPECT_TRUE, IS_PRESENT, NO_MUTATION_FAILURE, MUTATED);
}

#[test]
fn flag_true_if_set_okay_unset() {
    // this is true if flag is present, but the flag here is not present
    let flag = Flag::<true>::new(false);
    // we expect no mutation because the flag was not set
    _mut_base_test(
        flag,
        EXPECT_FALSE,
        IS_ABSENT,
        NO_MUTATION_FAILURE,
        NOT_MUTATED,
    );
}

#[test]
fn flag_false_if_set_okay_set() {
    // this is false if flag is present
    let flag = Flag::<false>::new(true);
    // expect mutation to have happened
    _mut_base_test_expected(flag, EXPECT_FALSE, IS_PRESENT, NO_MUTATION_FAILURE, MUTATED);
}

#[test]
fn flag_false_if_set_okay_unset() {
    // this is false if flag is present, but the flag is absent
    let flag = Flag::<true>::new(false);
    // expect no mutation
    _mut_base_test(
        flag,
        EXPECT_FALSE,
        IS_ABSENT,
        NO_MUTATION_FAILURE,
        NOT_MUTATED,
    );
}

// test for cfg file scenario
#[test]
fn optional_okay_ipv4() {
    let ip = Optional::some(DEFAULT_IPV4);
    mut_test_pass(ip, DEFAULT_IPV4);
}

#[test]
fn optional_okay_ipv4_none() {
    let ip = Optional::from(None);
    _mut_base_test(
        ip,
        DEFAULT_IPV4,
        IS_ABSENT,
        NO_MUTATION_FAILURE,
        NOT_MUTATED,
    );
}

#[test]
fn nonnull_okay() {
    let port = NonNull::from(2100);
    _mut_base_test_expected(port, 2100, IS_PRESENT, NO_MUTATION_FAILURE, MUTATED);
}

#[test]
fn optstring_okay() {
    let pass = OptString::from(Some("tlspass.txt".to_owned()));
    _mut_base_test_expected(
        pass,
        OptString::from(Some("tlspass.txt".to_owned())),
        IS_PRESENT,
        NO_MUTATION_FAILURE,
        MUTATED,
    );
}

#[test]
fn optstring_null_okay() {
    let pass = OptString::from(None);
    _mut_base_test_expected(
        pass,
        OptString::new_null(),
        IS_PRESENT,
        NO_MUTATION_FAILURE,
        NOT_MUTATED,
    );
}

#[test]
fn complaints_name_the_key_and_what_was_expected() {
    let mut cfgset = Configset::new_cli();
    cfgset.server_tcp(Some("300.0.0.1"), "--host", Some("+80"), "--port");
    assert_eq!(
        cfgset.error_list(),
        &[ConfigError::BadValue { key: "--host", expected: "an IPv4 address" }]
    );
    assert_eq!(cfgset.cfg.ports, PortConfig::new_insecure_only(DEFAULT_IPV4, 80));
    cfgset.snapshot_settings(None::<&str>, "every", Some("3"), "atmost", None::<&str>, "failsafe");
    assert_eq!(
        cfgset.error_list()[1],
        ConfigError::Incomplete { first: "every", second: "atmost" }
    );
    assert!(cfgset.warning_list().is_empty());
}

#[test]
fn settings_that_were_not_given_change_nothing() {
    let mut cfgset = Configset::new_file();
    cfgset.server_noart(None::<&str>, "noart");
    cfgset.server_maxcon(None::<&str>, "maxcon");
    cfgset.snapshot_settings(None::<&str>, "every", None::<&str>, "atmost", None::<&str>, "failsafe");
    assert!(!cfgset.is_mutated());
    assert!(cfgset.is_okay());
    assert_eq!(cfgset.cfg, Default::default());
    assert_eq!(cfgset.cfg.maxcon, 50000);
    assert_eq!(cfgset.cfg.bgsave, BGSave::Enabled(120));
}

#[test]
fn maxcon_of_zero_is_refused() {
    let mut cfgset = Configset::new_env();
    cfgset.server_maxcon(Some("0"), "SKY_SYSTEM_MAXCON");
    assert!(cfgset.is_mutated());
    assert!(!cfgset.is_okay());
    assert_eq!(cfgset.cfg.maxcon, 50000);
}

#[test]
fn bgsave_switched_off_leaves_remarks() {
    let mut cfgset = Configset::new_env();
    cfgset.bgsave_settings(Some("false"), "enabled", Some("30"), "every");
    assert!(cfgset.is_okay());
    assert_eq!(cfgset.cfg.bgsave, BGSave::Enabled(120));
    assert_eq!(
        cfgset.warning_list(),
        &[ConfigWarning::Useless { key: "every" }, ConfigWarning::BgsaveDisabled]
    );
}

#[test]
fn tls_only_replaces_the_plain_port() {
    let mut cfg = Configset::new_env();
    cfg.tls_settings(
        Some("key.pem"),
        "key",
        Some("cert.pem"),
        "cert",
        None::<&str>,
        "port",
        Some("true"),
        "only",
        OptString::from(Some("pass.txt".to_owned())),
        "passin",
    );
    assert!(cfg.is_okay());
    assert_eq!(
        cfg.cfg.ports,
        PortConfig::new_secure_only(
            DEFAULT_IPV4,
            SslOpts::new(
                "key.pem".to_owned(),
                "cert.pem".to_owned(),
                2004,
                Some("pass.txt".to_owned())
            )
        )
    );
    assert!(cfg.cfg.ports.secure_only());
    assert_eq!(cfg.cfg.ports.get_host(), [127, 0, 0, 1]);
}

#[test]
fn tls_settings_without_key_and_cert_are_useless() {
    let mut cfg = Configset::new_env();
    cfg.tls_settings(
        None::<&str>,
        "key",
        None::<&str>,
        "cert",
        Some("2005"),
        "port",
        None::<&str>,
        "only",
        OptString::new_null(),
        "passin",
    );
    assert!(cfg.is_okay());
    assert!(cfg.is_mutated());
    assert_eq!(cfg.warning_list(), &[ConfigWarning::Useless { key: "port" }]);
    assert!(cfg.cfg.ports.insecure_only());
}

#[test]
fn stacks_remember_their_source() {
    let mut warnings = WarningStack::new("CLI");
    assert_eq!(warnings.source(), "CLI");
    assert!(warnings.is_empty());
    warnings.push(ConfigWarning::BgsaveDisabled);
    assert_eq!(warnings.source(), "CLI");
    assert_eq!(warnings.as_slice(), &[ConfigWarning::BgsaveDisabled]);
    let errors = ErrorStack::new("Environment");
    assert_eq!(errors.source(), "Environment");
    assert!(errors.is_empty());
}
