//! The settings themselves.

use vstd::prelude::*;

verus! {

/// An IPv4 address: its four octets.
pub type IpAddr = [u8; 4];

/// The host that a server listens on unless told otherwise.
pub const DEFAULT_IPV4: IpAddr = [127, 0, 0, 1];

/// The port that a server listens on unless told otherwise.
pub const DEFAULT_PORT: u16 = 2003;

/// The port that a server listens on for TLS unless told otherwise.
pub const DEFAULT_SSL_PORT: u16 = 2004;

/// The number of seconds between two background saves unless told otherwise.
pub const DEFAULT_BGSAVE_DURATION: u64 = 120;

/// Whether a failed snapshot stops writes unless told otherwise.
pub const DEFAULT_SNAPSHOT_FAILSAFE: bool = true;

/// The number of connections that a server takes unless told otherwise.
pub const MAXIMUM_CONNECTION_LIMIT: usize = 50000;

/// Whether the data is saved in the background, and how often.
#[derive(Debug, PartialEq)]
pub enum BGSave {
    /// Saved every so many seconds.
    Enabled(u64),
    /// Not saved.
    Disabled,
}

impl BGSave {
    /// Makes the setting of the two values.
    pub fn new(enabled: bool, every: u64) -> (r: Self)
        ensures
            r == (if enabled {
                BGSave::Enabled(every)
            } else {
                BGSave::Disabled
            }),
    {
        if enabled {
            BGSave::Enabled(every)
        } else {
            BGSave::Disabled
        }
    }

    /// Is the background save switched off?
    pub fn is_disabled(&self) -> (r: bool)
        ensures
            r == (self is Disabled),
    {
        match self {
            BGSave::Disabled => true,
            BGSave::Enabled(_) => false,
        }
    }
}

impl Default for BGSave {
    fn default() -> (r: Self)
        ensures
            r == BGSave::Enabled(DEFAULT_BGSAVE_DURATION),
    {
        BGSave::Enabled(DEFAULT_BGSAVE_DURATION)
    }
}

/// How snapshots are taken.
#[derive(Debug, PartialEq)]
pub struct SnapshotPref {
    /// The number of seconds between two snapshots.
    pub every: u64,
    /// The number of snapshots that are kept; 0 keeps all.
    pub atmost: usize,
    /// Whether a failed snapshot stops writes.
    pub poison: bool,
}

impl SnapshotPref {
    /// Makes the setting of its three values.
    pub fn new(every: u64, atmost: usize, poison: bool) -> (r: Self)
        ensures
            r == (SnapshotPref { every, atmost, poison }),
    {
        SnapshotPref { every, atmost, poison }
    }

    /// Takes the setting apart.
    pub fn decompose(self) -> (r: (u64, usize, bool))
        ensures
            r == (self.every, self.atmost, self.poison),
    {
        (self.every, self.atmost, self.poison)
    }
}

/// Whether snapshots are taken, and how.
#[derive(Debug, PartialEq)]
pub enum SnapshotConfig {
    /// Snapshots are taken.
    Enabled(SnapshotPref),
    /// No snapshots are taken.
    Disabled,
}

impl Default for SnapshotConfig {
    fn default() -> (r: Self)
        ensures
            r == SnapshotConfig::Disabled,
    {
        SnapshotConfig::Disabled
    }
}

/// The TLS settings of a server.
#[derive(Debug, PartialEq)]
pub struct SslOpts {
    /// The path of the private key.
    pub key: String,
    /// The path of the certificate chain.
    pub chain: String,
    /// The port for TLS.
    pub port: u16,
    /// The path of the file with the passphrase of the key, if it has one.
    pub passfile: Option<String>,
}

impl SslOpts {
    /// Makes the settings of their four values.
    pub fn new(key: String, chain: String, port: u16, passfile: Option<String>) -> (r: Self)
        ensures
            r == (SslOpts { key, chain, port, passfile }),
    {
        SslOpts { key, chain, port, passfile }
    }
}

/// Where a server listens.
#[derive(Debug, PartialEq)]
pub enum PortConfig {
    /// With TLS only.
    SecureOnly { host: IpAddr, ssl: SslOpts },
    /// With and without TLS.
    Multi { host: IpAddr, port: u16, ssl: SslOpts },
    /// Without TLS only.
    InsecureOnly { host: IpAddr, port: u16 },
}

impl Default for PortConfig {
    fn default() -> (r: Self)
        ensures
            r == (PortConfig::InsecureOnly { host: DEFAULT_IPV4, port: DEFAULT_PORT }),
    {
        PortConfig::InsecureOnly { host: DEFAULT_IPV4, port: DEFAULT_PORT }
    }
}

impl PortConfig {
    /// The host.
    pub open spec fn spec_host(self) -> IpAddr {
        match self {
            PortConfig::SecureOnly { host, .. } => host,
            PortConfig::Multi { host, .. } => host,
            PortConfig::InsecureOnly { host, .. } => host,
        }
    }

    /// Makes a setting with TLS only.
    pub fn new_secure_only(host: IpAddr, ssl: SslOpts) -> (r: Self)
        ensures
            r == (PortConfig::SecureOnly { host, ssl }),
    {
        PortConfig::SecureOnly { host, ssl }
    }

    /// Makes a setting without TLS.
    pub fn new_insecure_only(host: IpAddr, port: u16) -> (r: Self)
        ensures
            r == (PortConfig::InsecureOnly { host, port }),
    {
        PortConfig::InsecureOnly { host, port }
    }

    /// Makes a setting with and without TLS.
    pub fn new_multi(host: IpAddr, port: u16, ssl: SslOpts) -> (r: Self)
        ensures
            r == (PortConfig::Multi { host, port, ssl }),
    {
        PortConfig::Multi { host, port, ssl }
    }

    /// The host.
    pub fn get_host(&self) -> (r: IpAddr)
        ensures
            r == self.spec_host(),
    {
        match self {
            PortConfig::SecureOnly { host, .. } => *host,
            PortConfig::Multi { host, .. } => *host,
            PortConfig::InsecureOnly { host, .. } => *host,
        }
    }

    /// Does the server listen with TLS only?
    pub fn secure_only(&self) -> (r: bool)
        ensures
            r == (self is SecureOnly),
    {
        match self {
            PortConfig::SecureOnly { .. } => true,
            _ => false,
        }
    }

    /// Does the server listen without TLS only?
    pub fn insecure_only(&self) -> (r: bool)
        ensures
            r == (self is InsecureOnly),
    {
        match self {
            PortConfig::InsecureOnly { .. } => true,
            _ => false,
        }
    }

    /// Adds TLS to a setting without it.
    pub fn upgrade_to_tls(&mut self, ssl: SslOpts)
        requires
            *old(self) is InsecureOnly,
        ensures
            *final(self) == (PortConfig::Multi {
                host: old(self)->InsecureOnly_host,
                port: old(self)->InsecureOnly_port,
                ssl,
            }),
    {
        let (host, port) = match self {
            PortConfig::InsecureOnly { host, port } => (*host, *port),
            _ => (DEFAULT_IPV4, DEFAULT_PORT),
        };
        *self = PortConfig::Multi { host, port, ssl };
    }
}

/// All settings of a server.
#[derive(Debug, PartialEq)]
pub struct ConfigurationSet {
    /// Whether the server starts without its banner.
    pub noart: bool,
    /// The background save.
    pub bgsave: BGSave,
    /// The snapshots.
    pub snapshot: SnapshotConfig,
    /// Where the server listens.
    pub ports: PortConfig,
    /// The number of connections that the server takes.
    pub maxcon: usize,
}

impl ConfigurationSet {
    /// The settings of a server that was told nothing.
    pub open spec fn spec_default() -> Self {
        ConfigurationSet {
            noart: false,
            bgsave: BGSave::Enabled(DEFAULT_BGSAVE_DURATION),
            snapshot: SnapshotConfig::Disabled,
            ports: PortConfig::InsecureOnly { host: DEFAULT_IPV4, port: DEFAULT_PORT },
            maxcon: MAXIMUM_CONNECTION_LIMIT,
        }
    }

    /// Does the server start with its banner?
    pub fn is_artful(&self) -> (r: bool)
        ensures
            r == !self.noart,
    {
        !self.noart
    }
}

impl Default for ConfigurationSet {
    fn default() -> (r: Self)
        ensures
            r == ConfigurationSet::spec_default(),
    {
        ConfigurationSet {
            noart: false,
            bgsave: BGSave::default(),
            snapshot: SnapshotConfig::default(),
            ports: PortConfig::default(),
            maxcon: MAXIMUM_CONNECTION_LIMIT,
        }
    }
}

} // verus!
