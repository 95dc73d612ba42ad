//! The settings of a server, and how they are put together.
//!
//! Settings come from several sources: the command line, the environment, a
//! file. Whatever the source, a setting is either absent, or present and
//! good, or present and bad. [`TryFromConfigSource`] is what a source hands
//! over for one setting, and a [`Configset`] collects the settings of one
//! source, with a record of whether anything was set and of what was wrong.

use vstd::prelude::*;
use vstd::string::StringSliceAdditionalSpecFns;

pub mod cfgcli;
pub mod cfgfile;
pub mod definitions;
pub mod feedback;
pub mod parse;

pub use self::definitions::{
    BGSave, ConfigurationSet, IpAddr, PortConfig, SnapshotConfig, SnapshotPref, SslOpts,
    DEFAULT_BGSAVE_DURATION, DEFAULT_IPV4, DEFAULT_PORT, DEFAULT_SNAPSHOT_FAILSAFE,
    DEFAULT_SSL_PORT, MAXIMUM_CONNECTION_LIMIT,
};
pub use self::feedback::{ConfigError, ConfigWarning, ErrorStack, WarningStack};
use self::parse::{parse_bool, parse_decimal, parse_ipv4, spec_bool, spec_decimal, spec_ipv4};

verus! {

/// A type of setting that can be read from text.
pub trait ConfigValue: Sized {
    /// Does the text stand for the value?
    spec fn parses_to(s: &str, v: Self) -> bool;

    /// Reads a value from the text, if the text stands for one.
    fn parse(s: &str) -> (r: Option<Self>)
        ensures
            match r {
                Some(v) => Self::parses_to(s, v),
                None => forall|v: Self| !Self::parses_to(s, v),
            },
    ;
}

impl ConfigValue for u16 {
    open spec fn parses_to(s: &str, v: u16) -> bool {
        spec_decimal(s.spec_bytes(), 0xffff) == Some(v as nat)
    }

    fn parse(s: &str) -> (r: Option<u16>) {
        match parse_decimal(s.as_bytes(), 0xffff) {
            Some(n) => Some(n as u16),
            None => None,
        }
    }
}

impl ConfigValue for u64 {
    open spec fn parses_to(s: &str, v: u64) -> bool {
        spec_decimal(s.spec_bytes(), 0xffff_ffff_ffff_ffff) == Some(v as nat)
    }

    fn parse(s: &str) -> (r: Option<u64>) {
        parse_decimal(s.as_bytes(), 0xffff_ffff_ffff_ffff)
    }
}

impl ConfigValue for usize {
    open spec fn parses_to(s: &str, v: usize) -> bool {
        spec_decimal(s.spec_bytes(), usize::MAX as nat) == Some(v as nat)
    }

    fn parse(s: &str) -> (r: Option<usize>) {
        match parse_decimal(s.as_bytes(), usize::MAX as u64) {
            Some(n) => Some(n as usize),
            None => None,
        }
    }
}

impl ConfigValue for bool {
    open spec fn parses_to(s: &str, v: bool) -> bool {
        spec_bool(s.spec_bytes()) == Some(v)
    }

    fn parse(s: &str) -> (r: Option<bool>) {
        parse_bool(s.as_bytes())
    }
}

impl ConfigValue for IpAddr {
    open spec fn parses_to(s: &str, v: IpAddr) -> bool {
        spec_ipv4(s.spec_bytes()) == Some(v)
    }

    fn parse(s: &str) -> (r: Option<IpAddr>) {
        parse_ipv4(s.as_bytes())
    }
}

impl ConfigValue for String {
    open spec fn parses_to(s: &str, v: String) -> bool {
        v@ == s@
    }

    fn parse(s: &str) -> (r: Option<String>) {
        Some(s.to_owned())
    }
}

/// What a source hands over for one setting of type `T`.
pub trait TryFromConfigSource<T>: Sized {
    /// Is there a value?
    spec fn spec_present(&self) -> bool;

    /// Does an attempt to set the target count as a change of the settings?
    spec fn spec_trips(&self) -> bool;

    /// Is there a value that is no good?
    spec fn spec_fails(&self) -> bool;

    /// Is `after` what the target holds after an attempt to set it, when it
    /// held `before`?
    spec fn spec_sets(&self, before: T, after: T) -> bool;

    /// Tells whether there is a value.
    fn is_present(&self) -> (r: bool)
        ensures
            r == self.spec_present(),
    ;

    /// Sets the target to the value, if there is a good one, and tells
    /// whether there is a bad one. `trip` is set if the attempt counts as a
    /// change, whether it went well or not.
    fn mutate_failed(self, target_value: &mut T, trip: &mut bool) -> (r: bool)
        ensures
            r == self.spec_fails(),
            *final(trip) == (*old(trip) || self.spec_trips()),
            self.spec_sets(*old(target_value), *final(target_value)),
    ;
}

impl<'a, T: ConfigValue> TryFromConfigSource<T> for Option<&'a str> {
    open spec fn spec_present(&self) -> bool {
        self is Some
    }

    open spec fn spec_trips(&self) -> bool {
        self is Some
    }

    open spec fn spec_fails(&self) -> bool {
        match self {
            Some(s) => forall|v: T| !T::parses_to(s, v),
            None => false,
        }
    }

    open spec fn spec_sets(&self, before: T, after: T) -> bool {
        match self {
            Some(s) => T::parses_to(s, after) || (after == before && forall|v: T|
                !T::parses_to(s, v)),
            None => after == before,
        }
    }

    fn is_present(&self) -> (r: bool) {
        self.is_some()
    }

    fn mutate_failed(self, target_value: &mut T, trip: &mut bool) -> (r: bool) {
        match self {
            Some(s) => {
                *trip = true;
                match T::parse(s) {
                    Some(v) => {
                        *target_value = v;
                        false
                    },
                    None => true,
                }
            },
            None => false,
        }
    }
}

/// A string that may be missing, as a setting of its own: a missing string
/// is a value too.
#[derive(Debug, PartialEq, Default)]
pub struct OptString {
    base: Option<String>,
}

impl OptString {
    /// The string, if there is one.
    pub closed spec fn spec_base(self) -> Option<String> {
        self.base
    }

    /// The missing string.
    pub closed spec fn spec_null() -> OptString {
        OptString { base: None }
    }

    /// Makes the missing string.
    pub fn new_null() -> (r: Self)
        ensures
            r == Self::spec_null(),
            r.spec_base() is None,
    {
        OptString { base: None }
    }

    /// Makes a setting of a string that may be missing.
    pub fn new(base: Option<String>) -> (r: Self)
        ensures
            r.spec_base() == base,
    {
        OptString { base }
    }

    /// The string, if there is one.
    pub fn finish(self) -> (r: Option<String>)
        ensures
            r == self.spec_base(),
    {
        self.base
    }
}

impl From<Option<String>> for OptString {
    fn from(base: Option<String>) -> (r: Self)
        ensures
            r.spec_base() == base,
    {
        OptString { base }
    }
}

impl vstd::std_specs::convert::FromSpecImpl<Option<String>> for OptString {
    open spec fn obeys_from_spec() -> bool {
        false
    }

    open spec fn from_spec(base: Option<String>) -> Self {
        arbitrary()
    }
}

impl ConfigValue for OptString {
    open spec fn parses_to(s: &str, v: OptString) -> bool {
        v.spec_base() matches Some(text) && text@ == s@
    }

    fn parse(s: &str) -> (r: Option<OptString>) {
        Some(OptString { base: Some(s.to_owned()) })
    }
}

impl TryFromConfigSource<OptString> for OptString {
    open spec fn spec_present(&self) -> bool {
        true
    }

    open spec fn spec_trips(&self) -> bool {
        self.spec_base() is Some
    }

    open spec fn spec_fails(&self) -> bool {
        false
    }

    open spec fn spec_sets(&self, before: OptString, after: OptString) -> bool {
        if self.spec_base() is Some {
            after == *self
        } else {
            after == before
        }
    }

    fn is_present(&self) -> (r: bool) {
        true
    }

    fn mutate_failed(self, target_value: &mut OptString, trip: &mut bool) -> (r: bool) {
        if self.base.is_some() {
            *trip = true;
            *target_value = self;
        }
        false
    }
}

/// The complaints `errors`, and `error` after them if `failed`.
pub open spec fn and_if(errors: Seq<ConfigError>, failed: bool, error: ConfigError) -> Seq<
    ConfigError,
> {
    if failed {
        errors.push(error)
    } else {
        errors
    }
}

/// The complaint about a bad value.
pub open spec fn bad_value(key: &'static str, expected: &'static str) -> ConfigError {
    ConfigError::BadValue { key, expected }
}

/// What a number of connections is expected to be.
pub const EXPECT_MAXCON: &'static str = "a positive integer greater than zero";

/// What a truth value is expected to be.
pub const EXPECT_BOOL: &'static str = "true/false";

/// What a host is expected to be.
pub const EXPECT_HOST: &'static str = "an IPv4 address";

/// What a port is expected to be.
pub const EXPECT_PORT: &'static str = "a 16-bit positive integer";

/// What a number of seconds is expected to be.
pub const EXPECT_SECONDS: &'static str = "a positive integer";

/// What a number of snapshots is expected to be.
pub const EXPECT_COUNT: &'static str = "a positive integer";

/// What the path of a key is expected to be.
pub const EXPECT_KEY: &'static str = "path to private key file";

/// What the path of a certificate is expected to be.
pub const EXPECT_CERT: &'static str = "path to TLS certificate file";

/// What the path of a passphrase is expected to be.
pub const EXPECT_PASS: &'static str = "path to TLS cert passphrase";

/// The settings from one source, with a record of whether anything was set
/// and of what was wrong.
#[derive(Debug)]
pub struct Configset {
    did_mutate: bool,
    /// The settings.
    pub cfg: ConfigurationSet,
    estack: ErrorStack,
    wstack: WarningStack,
}

impl Configset {
    /// The settings.
    pub closed spec fn spec_cfg(&self) -> ConfigurationSet {
        self.cfg
    }

    /// Was anything set?
    pub closed spec fn spec_mutated(&self) -> bool {
        self.did_mutate
    }

    /// The complaints so far.
    pub closed spec fn errors(&self) -> Seq<ConfigError> {
        self.estack@
    }

    /// The remarks so far.
    pub closed spec fn warnings(&self) -> Seq<ConfigWarning> {
        self.wstack@
    }

    fn with_source(source: &'static str) -> (r: Self)
        ensures
            !r.spec_mutated(),
            r.spec_cfg() == ConfigurationSet::spec_default(),
            r.errors() == Seq::<ConfigError>::empty(),
            r.warnings() == Seq::<ConfigWarning>::empty(),
    {
        Configset {
            did_mutate: false,
            cfg: ConfigurationSet::default(),
            estack: ErrorStack::new(source),
            wstack: WarningStack::new(source),
        }
    }

    /// Makes the settings from the environment: the defaults, so far.
    pub fn new_env() -> (r: Self)
        ensures
            !r.spec_mutated(),
            r.spec_cfg() == ConfigurationSet::spec_default(),
            r.errors() == Seq::<ConfigError>::empty(),
            r.warnings() == Seq::<ConfigWarning>::empty(),
    {
        Self::with_source("Environment")
    }

    /// Makes the settings from the command line: the defaults, so far.
    pub fn new_cli() -> (r: Self)
        ensures
            !r.spec_mutated(),
            r.spec_cfg() == ConfigurationSet::spec_default(),
            r.errors() == Seq::<ConfigError>::empty(),
            r.warnings() == Seq::<ConfigWarning>::empty(),
    {
        Self::with_source("CLI")
    }

    /// Makes the settings from a file: the defaults, so far.
    pub fn new_file() -> (r: Self)
        ensures
            !r.spec_mutated(),
            r.spec_cfg() == ConfigurationSet::spec_default(),
            r.errors() == Seq::<ConfigError>::empty(),
            r.warnings() == Seq::<ConfigWarning>::empty(),
    {
        Self::with_source("Configuration file")
    }

    /// Is there no complaint?
    pub fn is_okay(&self) -> (r: bool)
        ensures
            r == (self.errors().len() == 0),
    {
        self.estack.is_empty()
    }

    /// Was anything set, or tried to be set?
    pub fn is_mutated(&self) -> (r: bool)
        ensures
            r == self.spec_mutated(),
    {
        self.did_mutate
    }

    /// The complaints so far.
    pub fn error_list(&self) -> (r: &[ConfigError])
        ensures
            r@ == self.errors(),
    {
        self.estack.as_slice()
    }

    /// The remarks so far.
    pub fn warning_list(&self) -> (r: &[ConfigWarning])
        ensures
            r@ == self.warnings(),
    {
        self.wstack.as_slice()
    }

    /// Sets `target` from `new`, and records a complaint if the value is
    /// bad.
    fn try_mutate<T, S: TryFromConfigSource<T>>(
        &mut self,
        new: S,
        target: &mut T,
        field_key: &'static str,
        expected: &'static str,
    )
        ensures
            final(self).spec_cfg() == old(self).spec_cfg(),
            final(self).warnings() == old(self).warnings(),
            final(self).spec_mutated() == (old(self).spec_mutated() || new.spec_trips()),
            final(self).errors() == and_if(
                old(self).errors(),
                new.spec_fails(),
                bad_value(field_key, expected),
            ),
            new.spec_sets(*old(target), *final(target)),
    {
        let mut trip = self.did_mutate;
        if new.mutate_failed(target, &mut trip) {
            self.estack.push(ConfigError::BadValue { key: field_key, expected });
        }
        self.did_mutate = trip;
    }

    /// Sets the host and the port that the server listens on without TLS.
    /// What is absent or bad stays at its default.
    pub fn server_tcp<H: TryFromConfigSource<IpAddr>, P: TryFromConfigSource<u16>>(
        &mut self,
        nhost: H,
        nhost_key: &'static str,
        nport: P,
        nport_key: &'static str,
    )
        ensures
            final(self).spec_mutated() == (old(self).spec_mutated() || nhost.spec_trips()
                || nport.spec_trips()),
            final(self).errors() == and_if(
                and_if(old(self).errors(), nhost.spec_fails(), bad_value(nhost_key, EXPECT_HOST)),
                nport.spec_fails(),
                bad_value(nport_key, EXPECT_PORT),
            ),
            final(self).warnings() == old(self).warnings(),
            final(self).spec_cfg().ports matches PortConfig::InsecureOnly { host, port }
                && nhost.spec_sets(DEFAULT_IPV4, host) && nport.spec_sets(DEFAULT_PORT, port),
            final(self).spec_cfg().noart == old(self).spec_cfg().noart,
            final(self).spec_cfg().bgsave == old(self).spec_cfg().bgsave,
            final(self).spec_cfg().snapshot == old(self).spec_cfg().snapshot,
            final(self).spec_cfg().maxcon == old(self).spec_cfg().maxcon,
    {
        let mut host = DEFAULT_IPV4;
        let mut port = DEFAULT_PORT;
        self.try_mutate(nhost, &mut host, nhost_key, EXPECT_HOST);
        self.try_mutate(nport, &mut port, nport_key, EXPECT_PORT);
        self.cfg.ports = PortConfig::new_insecure_only(host, port);
    }

    /// Switches the banner off if the setting says so.
    pub fn server_noart<N: TryFromConfigSource<bool>>(&mut self, nart: N, nart_key: &'static str)
        ensures
            final(self).spec_mutated() == (old(self).spec_mutated() || nart.spec_trips()),
            final(self).errors() == and_if(
                old(self).errors(),
                nart.spec_fails(),
                bad_value(nart_key, EXPECT_BOOL),
            ),
            final(self).warnings() == old(self).warnings(),
            exists|noart: bool| #[trigger]
                nart.spec_sets(false, noart) && final(self).spec_cfg().noart == (old(self).spec_cfg().noart || noart),
            final(self).spec_cfg().bgsave == old(self).spec_cfg().bgsave,
            final(self).spec_cfg().snapshot == old(self).spec_cfg().snapshot,
            final(self).spec_cfg().ports == old(self).spec_cfg().ports,
            final(self).spec_cfg().maxcon == old(self).spec_cfg().maxcon,
    {
        let mut noart = false;
        self.try_mutate(nart, &mut noart, nart_key, EXPECT_BOOL);
        if noart {
            self.cfg.noart = true;
        }
    }

    /// Sets the number of connections that the server takes. A number that
    /// is absent, bad or zero leaves the default.
    pub fn server_maxcon<M: TryFromConfigSource<usize>>(
        &mut self,
        nmaxcon: M,
        nmaxcon_key: &'static str,
    )
        ensures
            final(self).spec_mutated() == (old(self).spec_mutated() || nmaxcon.spec_trips()),
            final(self).warnings() == old(self).warnings(),
            exists|maxcon: usize| #[trigger]
                nmaxcon.spec_sets(MAXIMUM_CONNECTION_LIMIT, maxcon) && final(self).spec_cfg().maxcon == (if maxcon == 0 {
                    MAXIMUM_CONNECTION_LIMIT
                } else {
                    maxcon
                }) && final(self).errors() == and_if(
                    old(self).errors(),
                    nmaxcon.spec_fails() || maxcon == 0,
                    bad_value(nmaxcon_key, EXPECT_MAXCON),
                ),
            final(self).spec_cfg().noart == old(self).spec_cfg().noart,
            final(self).spec_cfg().bgsave == old(self).spec_cfg().bgsave,
            final(self).spec_cfg().snapshot == old(self).spec_cfg().snapshot,
            final(self).spec_cfg().ports == old(self).spec_cfg().ports,
    {
        let mut maxcon = MAXIMUM_CONNECTION_LIMIT;
        let mut trip = self.did_mutate;
        let failed = nmaxcon.mutate_failed(&mut maxcon, &mut trip);
        self.did_mutate = trip;
        if failed || maxcon == 0 {
            self.estack.push(ConfigError::BadValue { key: nmaxcon_key, expected: EXPECT_MAXCON });
        }
        self.cfg.maxcon = if maxcon == 0 {
            MAXIMUM_CONNECTION_LIMIT
        } else {
            maxcon
        };
    }

    /// Sets whether the data is saved in the background, and how often. The
    /// save is on, every [`DEFAULT_BGSAVE_DURATION`] seconds, unless the
    /// settings say otherwise; switching it off leaves a remark, and another
    /// one if a number of seconds was given for nothing.
    pub fn bgsave_settings<E: TryFromConfigSource<bool>, D: TryFromConfigSource<u64>>(
        &mut self,
        nenabled: E,
        nenabled_key: &'static str,
        nduration: D,
        nduration_key: &'static str,
    )
        ensures
            final(self).spec_mutated() == (old(self).spec_mutated() || nenabled.spec_trips()
                || nduration.spec_trips()),
            final(self).errors() == and_if(
                and_if(
                    old(self).errors(),
                    nenabled.spec_fails(),
                    bad_value(nenabled_key, EXPECT_BOOL),
                ),
                nduration.spec_fails(),
                bad_value(nduration_key, EXPECT_SECONDS),
            ),
            exists|enabled: bool, duration: u64|
                {
                    &&& #[trigger] nenabled.spec_sets(true, enabled)
                    &&& #[trigger] nduration.spec_sets(DEFAULT_BGSAVE_DURATION, duration)
                    &&& final(self).spec_cfg().bgsave == (if enabled {
                        BGSave::Enabled(duration)
                    } else {
                        old(self).spec_cfg().bgsave
                    })
                    &&& final(self).warnings() == (if enabled {
                        old(self).warnings()
                    } else if nduration.spec_present() {
                        old(self).warnings().push(ConfigWarning::Useless { key: nduration_key }).push(
                            ConfigWarning::BgsaveDisabled,
                        )
                    } else {
                        old(self).warnings().push(ConfigWarning::BgsaveDisabled)
                    })
                },
            final(self).spec_cfg().noart == old(self).spec_cfg().noart,
            final(self).spec_cfg().snapshot == old(self).spec_cfg().snapshot,
            final(self).spec_cfg().ports == old(self).spec_cfg().ports,
            final(self).spec_cfg().maxcon == old(self).spec_cfg().maxcon,
    {
        let mut enabled = true;
        let mut duration = DEFAULT_BGSAVE_DURATION;
        let has_custom_duration = nduration.is_present();
        self.try_mutate(nenabled, &mut enabled, nenabled_key, EXPECT_BOOL);
        self.try_mutate(nduration, &mut duration, nduration_key, EXPECT_SECONDS);
        if enabled {
            self.cfg.bgsave = BGSave::Enabled(duration);
        } else {
            if has_custom_duration {
                self.wstack.push(ConfigWarning::Useless { key: nduration_key });
            }
            self.wstack.push(ConfigWarning::BgsaveDisabled);
        }
    }

    /// Sets how snapshots are taken. Snapshots need both an interval and a
    /// count: with neither they stay off, with one of the two there is a
    /// complaint and they stay as they were.
    pub fn snapshot_settings<
        E: TryFromConfigSource<u64>,
        A: TryFromConfigSource<usize>,
        F: TryFromConfigSource<bool>,
    >(
        &mut self,
        nevery: E,
        nevery_key: &'static str,
        natmost: A,
        natmost_key: &'static str,
        nfailsafe: F,
        nfailsafe_key: &'static str,
    )
        ensures
            nevery.spec_present() && natmost.spec_present() ==> {
                &&& final(self).spec_mutated() == (old(self).spec_mutated() || nevery.spec_trips()
                    || natmost.spec_trips() || nfailsafe.spec_trips())
                &&& final(self).errors() == and_if(
                    and_if(
                        and_if(
                            old(self).errors(),
                            nevery.spec_fails(),
                            bad_value(nevery_key, EXPECT_SECONDS),
                        ),
                        natmost.spec_fails(),
                        bad_value(natmost_key, EXPECT_COUNT),
                    ),
                    nfailsafe.spec_fails(),
                    bad_value(nfailsafe_key, EXPECT_BOOL),
                )
                &&& final(self).warnings() == old(self).warnings()
                &&& final(self).spec_cfg().snapshot matches SnapshotConfig::Enabled(pref)
                    && nevery.spec_sets(0, pref.every) && natmost.spec_sets(0, pref.atmost)
                    && nfailsafe.spec_sets(DEFAULT_SNAPSHOT_FAILSAFE, pref.poison)
            },
            nevery.spec_present() != natmost.spec_present() ==> {
                &&& final(self).spec_mutated()
                &&& final(self).errors() == old(self).errors().push(
                    ConfigError::Incomplete { first: nevery_key, second: natmost_key },
                )
                &&& final(self).warnings() == old(self).warnings()
                &&& final(self).spec_cfg().snapshot == old(self).spec_cfg().snapshot
            },
            !nevery.spec_present() && !natmost.spec_present() ==> {
                &&& final(self).spec_cfg().snapshot == old(self).spec_cfg().snapshot
                &&& final(self).spec_mutated() == (old(self).spec_mutated()
                    || nfailsafe.spec_present() && nfailsafe.spec_trips())
                &&& final(self).errors() == and_if(
                    old(self).errors(),
                    nfailsafe.spec_present() && nfailsafe.spec_fails(),
                    bad_value(nfailsafe_key, EXPECT_BOOL),
                )
                &&& final(self).warnings() == (if nfailsafe.spec_present() {
                    old(self).warnings().push(ConfigWarning::Useless { key: nfailsafe_key })
                } else {
                    old(self).warnings()
                })
            },
            final(self).spec_cfg().noart == old(self).spec_cfg().noart,
            final(self).spec_cfg().bgsave == old(self).spec_cfg().bgsave,
            final(self).spec_cfg().ports == old(self).spec_cfg().ports,
            final(self).spec_cfg().maxcon == old(self).spec_cfg().maxcon,
    {
        let has_every = nevery.is_present();
        let has_atmost = natmost.is_present();
        if has_every && has_atmost {
            let mut every: u64 = 0;
            let mut atmost: usize = 0;
            let mut failsafe = DEFAULT_SNAPSHOT_FAILSAFE;
            self.try_mutate(nevery, &mut every, nevery_key, EXPECT_SECONDS);
            self.try_mutate(natmost, &mut atmost, natmost_key, EXPECT_COUNT);
            self.try_mutate(nfailsafe, &mut failsafe, nfailsafe_key, EXPECT_BOOL);
            self.cfg.snapshot = SnapshotConfig::Enabled(SnapshotPref::new(every, atmost, failsafe));
        } else if has_every || has_atmost {
            self.did_mutate = true;
            self.estack.push(ConfigError::Incomplete { first: nevery_key, second: natmost_key });
        } else if nfailsafe.is_present() {
            let mut failsafe = DEFAULT_SNAPSHOT_FAILSAFE;
            self.try_mutate(nfailsafe, &mut failsafe, nfailsafe_key, EXPECT_BOOL);
            self.wstack.push(ConfigWarning::Useless { key: nfailsafe_key });
        }
    }

    /// Sets how the server listens with TLS, on a server that listens
    /// without so far. TLS needs both a key and a certificate: with one of
    /// the two there is a complaint, and with neither the other settings are
    /// remarked on as useless.
    pub fn tls_settings<
        K: TryFromConfigSource<String>,
        C: TryFromConfigSource<String>,
        P: TryFromConfigSource<u16>,
        O: TryFromConfigSource<bool>,
        S: TryFromConfigSource<OptString>,
    >(
        &mut self,
        nkey: K,
        nkey_key: &'static str,
        ncert: C,
        ncert_key: &'static str,
        nport: P,
        nport_key: &'static str,
        nonly: O,
        nonly_key: &'static str,
        npass: S,
        npass_key: &'static str,
    )
        requires
            old(self).spec_cfg().ports is InsecureOnly,
        ensures
            nkey.spec_present() && ncert.spec_present() ==> {
                &&& final(self).spec_mutated() == (old(self).spec_mutated() || nkey.spec_trips()
                    || ncert.spec_trips() || nport.spec_trips() || nonly.spec_trips()
                    || npass.spec_trips())
                &&& final(self).errors() == and_if(
                    and_if(
                        and_if(
                            and_if(
                                and_if(
                                    old(self).errors(),
                                    nkey.spec_fails(),
                                    bad_value(nkey_key, EXPECT_KEY),
                                ),
                                ncert.spec_fails(),
                                bad_value(ncert_key, EXPECT_CERT),
                            ),
                            nport.spec_fails(),
                            bad_value(nport_key, EXPECT_PORT),
                        ),
                        nonly.spec_fails(),
                        bad_value(nonly_key, EXPECT_BOOL),
                    ),
                    npass.spec_fails(),
                    bad_value(npass_key, EXPECT_PASS),
                )
                &&& final(self).warnings() == old(self).warnings()
                &&& exists|only: bool, ssl: SslOpts, pass: OptString, blank: String, empty: String|
                    {
                        &&& #[trigger] nonly.spec_sets(false, only)
                        &&& #[trigger] npass.spec_sets(OptString::spec_null(), pass)
                        &&& blank@.len() == 0
                        &&& empty@.len() == 0
                        &&& #[trigger] nkey.spec_sets(blank, ssl.key)
                        &&& #[trigger] ncert.spec_sets(empty, ssl.chain)
                        &&& nport.spec_sets(DEFAULT_SSL_PORT, ssl.port)
                        &&& ssl.passfile == pass.spec_base()
                        &&& final(self).spec_cfg().ports == (if only {
                            PortConfig::SecureOnly {
                                host: old(self).spec_cfg().ports.spec_host(),
                                ssl,
                            }
                        } else {
                            PortConfig::Multi {
                                host: old(self).spec_cfg().ports.spec_host(),
                                port: old(self).spec_cfg().ports->InsecureOnly_port,
                                ssl,
                            }
                        })
                    }
            },
            nkey.spec_present() != ncert.spec_present() ==> {
                &&& final(self).spec_mutated()
                &&& final(self).errors() == old(self).errors().push(
                    ConfigError::Incomplete { first: nkey_key, second: ncert_key },
                )
                &&& final(self).warnings() == old(self).warnings()
                &&& final(self).spec_cfg().ports == old(self).spec_cfg().ports
            },
            !nkey.spec_present() && !ncert.spec_present() ==> {
                &&& final(self).spec_cfg().ports == old(self).spec_cfg().ports
                &&& final(self).errors() == old(self).errors()
                &&& final(self).spec_mutated() == (old(self).spec_mutated() || nport.spec_present()
                    || nonly.spec_present())
                &&& final(self).warnings() == useless_if(
                    useless_if(old(self).warnings(), nport.spec_present(), nport_key),
                    nonly.spec_present(),
                    nonly_key,
                )
            },
            final(self).spec_cfg().noart == old(self).spec_cfg().noart,
            final(self).spec_cfg().bgsave == old(self).spec_cfg().bgsave,
            final(self).spec_cfg().snapshot == old(self).spec_cfg().snapshot,
            final(self).spec_cfg().maxcon == old(self).spec_cfg().maxcon,
    {
        let has_key = nkey.is_present();
        let has_cert = ncert.is_present();
        if has_key && has_cert {
            let mut key = String::new();
            let mut cert = String::new();
            let ghost blank = key;
            let ghost empty = cert;
            self.try_mutate(nkey, &mut key, nkey_key, EXPECT_KEY);
            self.try_mutate(ncert, &mut cert, ncert_key, EXPECT_CERT);
            let mut port = DEFAULT_SSL_PORT;
            self.try_mutate(nport, &mut port, nport_key, EXPECT_PORT);
            let mut tls_only = false;
            self.try_mutate(nonly, &mut tls_only, nonly_key, EXPECT_BOOL);
            let mut tls_pass = OptString::new_null();
            self.try_mutate(npass, &mut tls_pass, npass_key, EXPECT_PASS);
            let ghost pass = tls_pass;
            let sslopts = SslOpts::new(key, cert, port, tls_pass.finish());
            proof {
                assert(nonly.spec_sets(false, tls_only));
                assert(npass.spec_sets(OptString::spec_null(), pass));
                assert(nkey.spec_sets(blank, sslopts.key));
                assert(ncert.spec_sets(empty, sslopts.chain));
            }
            if tls_only {
                let host = self.cfg.ports.get_host();
                self.cfg.ports = PortConfig::new_secure_only(host, sslopts);
            } else {
                self.cfg.ports.upgrade_to_tls(sslopts);
            }
        } else if has_key || has_cert {
            self.did_mutate = true;
            self.estack.push(ConfigError::Incomplete { first: nkey_key, second: ncert_key });
        } else {
            if nport.is_present() {
                self.did_mutate = true;
                self.wstack.push(ConfigWarning::Useless { key: nport_key });
            }
            if nonly.is_present() {
                self.did_mutate = true;
                self.wstack.push(ConfigWarning::Useless { key: nonly_key });
            }
        }
    }
}

/// The remarks `warnings`, and after them the remark that the setting under
/// `key` is useless if `given`.
pub open spec fn useless_if(warnings: Seq<ConfigWarning>, given: bool, key: &'static str) -> Seq<
    ConfigWarning,
> {
    if given {
        warnings.push(ConfigWarning::Useless { key })
    } else {
        warnings
    }
}

} // verus!
