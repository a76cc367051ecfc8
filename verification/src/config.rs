//! The broker's configuration: its sections, their defaults and what is required
//! of them.

use crate::crypto::{base64_bytes, base64_decode};
use crate::text::same;
use vstd::prelude::*;
use vstd::string::*;

verus! {

/// Why a configuration is refused.
#[derive(Debug)]
pub enum ConfigError {
    ReadError(String),
    ParseError(String),
    MissingField(String),
}

impl ConfigError {
    /// The error in words.
    pub open spec fn message(&self) -> Seq<char> {
        match self {
            ConfigError::ReadError(e) => "Failed to read config file: "@ + e@,
            ConfigError::ParseError(e) => "Failed to parse config file: "@ + e@,
            ConfigError::MissingField(e) => "Missing required field: "@ + e@,
        }
    }

    /// The error in words.
    pub fn text(&self) -> (r: String)
        ensures
            r@ == self.message(),
            self matches ConfigError::ReadError(e) ==> r@ == "Failed to read config file: "@ + e@,
            self matches ConfigError::ParseError(e) ==> r@ == "Failed to parse config file: "@
                + e@,
            self matches ConfigError::MissingField(e) ==> r@ == "Missing required field: "@ + e@,
    {
        let (prefix, rest) = match self {
            ConfigError::ReadError(e) => ("Failed to read config file: ", e),
            ConfigError::ParseError(e) => ("Failed to parse config file: ", e),
            ConfigError::MissingField(e) => ("Missing required field: ", e),
        };
        let mut out = prefix.to_owned();
        out.append(rest.as_str());
        out
    }
}

/// How often a log file gives way to a new one.
#[derive(Clone, Copy, Debug, PartialEq, Eq, Structural)]
pub enum Rotation {
    Hourly,
    Daily,
    Never,
}

/// Which rotation a text asks for.
pub fn rotation_of(text: &str) -> (r: Rotation)
    ensures
        r == (if text@ == "hourly"@ {
            Rotation::Hourly
        } else if text@ == "daily"@ {
            Rotation::Daily
        } else {
            Rotation::Never
        }),
{
    if same(text, "hourly") {
        Rotation::Hourly
    } else if same(text, "daily") {
        Rotation::Daily
    } else {
        Rotation::Never
    }
}

/// Where and how the broker listens.
#[derive(Debug)]
pub struct ServerConfig {
    pub address: String,
    pub connection_type: String,
}

/// The certificate, the key and the authority of the broker.
#[derive(Debug)]
pub struct TlsConfig {
    pub cert_path: Option<String>,
    pub key_path: Option<String>,
    pub ca_cert_path: Option<String>,
}

impl Default for TlsConfig {
    fn default() -> (r: Self)
        ensures
            r == (TlsConfig { cert_path: None, key_path: None, ca_cert_path: None }),
    {
        TlsConfig { cert_path: None, key_path: None, ca_cert_path: None }
    }
}

/// What is logged, and where.
#[derive(Debug)]
pub struct LoggingConfig {
    pub level: String,
    pub rotation: String,
    pub info_file_path: String,
    pub debug_file_path: String,
    pub error_file_path: String,
    pub max_size_mb: u64,
}

/// The database and the account to use it with.
#[derive(Debug)]
pub struct DatabaseConfig {
    pub host: String,
    pub port: u16,
    pub user: String,
    pub password: String,
    pub dbname: String,
}

/// The message encryption, and the key for public keys at rest.
#[derive(Debug)]
pub struct EncryptionConfig {
    pub algorithm: String,
    pub aes_key: String,
}

/// Limits and intervals.
#[derive(Debug)]
pub struct PerformanceConfig {
    pub max_queue_size: usize,
    pub heartbeat_timeout: u64,
    pub cleanup_interval: u64,
    pub consumer_cleanup_interval: u64,
    pub idle_timeout_sec: u64,
}

/// How many messages a queue holds.
pub fn default_max_queue_size() -> (r: usize)
    ensures
        r == 10_000,
{
    10_000
}

/// Seconds after which a silent client counts as gone.
pub fn default_heartbeat_timeout() -> (r: u64)
    ensures
        r == 60,
{
    60
}

/// Seconds after which a delivered message without an answer is dropped.
pub fn default_cleanup_interval() -> (r: u64)
    ensures
        r == 3000,
{
    3000
}

/// Seconds between two searches for dead consumers.
pub fn default_consumer_cleanup_interval() -> (r: u64)
    ensures
        r == 60,
{
    60
}

/// Seconds after which an idle connection is closed.
pub fn default_idle_timeout() -> (r: u64)
    ensures
        r == 60,
{
    60
}

impl Default for PerformanceConfig {
    fn default() -> (r: Self)
        ensures
            r.max_queue_size == 10_000,
            r.heartbeat_timeout == 60,
            r.cleanup_interval == 3000,
            r.consumer_cleanup_interval == 60,
            r.idle_timeout_sec == 60,
    {
        PerformanceConfig {
            max_queue_size: default_max_queue_size(),
            heartbeat_timeout: default_heartbeat_timeout(),
            cleanup_interval: default_cleanup_interval(),
            consumer_cleanup_interval: default_consumer_cleanup_interval(),
            idle_timeout_sec: default_idle_timeout(),
        }
    }
}

/// The admin console.
#[derive(Debug)]
pub struct AdminConfig {
    pub enabled: bool,
    pub address: String,
    pub allowed_cns: Vec<String>,
}

/// Where the admin console listens.
pub fn default_admin_address() -> (r: String)
    ensures
        r@ == "127.0.0.1:9091"@,
{
    "127.0.0.1:9091".to_owned()
}

impl Default for AdminConfig {
    fn default() -> (r: Self)
        ensures
            !r.enabled,
            r.address@ == "127.0.0.1:9091"@,
            r.allowed_cns@.len() == 0,
    {
        AdminConfig { enabled: false, address: default_admin_address(), allowed_cns: Vec::new() }
    }
}

/// Whether clients are limited, and to how many connections; zero means any
/// number.
#[derive(Debug)]
pub struct RateLimitConfig {
    pub enabled: bool,
    pub max_connections_per_ip: usize,
    pub max_connections_per_cn: usize,
}

/// Connections from one address.
pub fn default_max_connections_per_ip() -> (r: usize)
    ensures
        r == 50,
{
    50
}

/// Connections of one client.
pub fn default_max_connections_per_cn() -> (r: usize)
    ensures
        r == 20,
{
    20
}

impl Default for RateLimitConfig {
    fn default() -> (r: Self)
        ensures
            !r.enabled,
            r.max_connections_per_ip == 50,
            r.max_connections_per_cn == 20,
    {
        RateLimitConfig {
            enabled: false,
            max_connections_per_ip: default_max_connections_per_ip(),
            max_connections_per_cn: default_max_connections_per_cn(),
        }
    }
}

/// The names of each role.
#[derive(Debug)]
pub struct AclConfig {
    pub sender_cns: Vec<String>,
    pub receiver_cns: Vec<String>,
    pub admin_cns: Vec<String>,
}

impl Default for AclConfig {
    fn default() -> (r: Self)
        ensures
            r.sender_cns@.len() == 0,
            r.receiver_cns@.len() == 0,
            r.admin_cns@.len() == 0,
    {
        AclConfig { sender_cns: Vec::new(), receiver_cns: Vec::new(), admin_cns: Vec::new() }
    }
}

/// The whole configuration.
#[derive(Debug)]
pub struct Config {
    pub server: ServerConfig,
    pub tls: TlsConfig,
    pub logging: LoggingConfig,
    pub database: DatabaseConfig,
    pub encryption: EncryptionConfig,
    pub performance: PerformanceConfig,
    pub admin: AdminConfig,
    pub rate_limit: RateLimitConfig,
    pub acl: AclConfig,
}

/// The text, or another where it is empty.
pub open spec fn or_default(text: Seq<char>, default: Seq<char>) -> Seq<char> {
    if text.len() == 0 {
        default
    } else {
        text
    }
}

fn or_else(text: String, default: &str) -> (r: String)
    ensures
        r@ == or_default(text@, default@),
{
    if text.as_str().is_empty() {
        default.to_owned()
    } else {
        text
    }
}

impl LoggingConfig {
    /// Whether this is another section with its gaps filled.
    pub open spec fn completes(&self, raw: &LoggingConfig) -> bool {
        &&& self.level@ == or_default(raw.level@, "info"@)
        &&& self.rotation@ == or_default(raw.rotation@, "daily"@)
        &&& self.info_file_path@ == or_default(raw.info_file_path@, "logs/info.log"@)
        &&& self.debug_file_path@ == or_default(raw.debug_file_path@, "logs/debug.log"@)
        &&& self.error_file_path@ == or_default(raw.error_file_path@, "logs/error.log"@)
        &&& self.max_size_mb == (if raw.max_size_mb == 0 {
            10
        } else {
            raw.max_size_mb
        })
    }

    /// Fills the gaps of the section.
    pub fn completed(self) -> (r: Self)
        ensures
            r.completes(&self),
    {
        LoggingConfig {
            level: or_else(self.level, "info"),
            rotation: or_else(self.rotation, "daily"),
            info_file_path: or_else(self.info_file_path, "logs/info.log"),
            debug_file_path: or_else(self.debug_file_path, "logs/debug.log"),
            error_file_path: or_else(self.error_file_path, "logs/error.log"),
            max_size_mb: if self.max_size_mb == 0 {
                10
            } else {
                self.max_size_mb
            },
        }
    }
}

/// The first thing that is wrong with the encryption section.
pub open spec fn encryption_fault(algorithm: Seq<char>, aes_key: Seq<char>) -> Option<Seq<char>> {
    if algorithm != "x25519_chacha20_poly1305"@ {
        Some("encryption.algorithm"@)
    } else if aes_key.len() == 0 {
        Some("encryption.aes_key"@)
    } else {
        match base64_bytes(aes_key) {
            Err(e) => Some("Invalid AES key: "@ + e),
            Ok(key) => if key.len() != 32 {
                Some("encryption.aes_key"@)
            } else {
                None
            },
        }
    }
}

impl EncryptionConfig {
    /// Checks the section; where nothing is wrong, hands out the key.
    pub fn check(&self) -> (r: Result<Vec<u8>, ConfigError>)
        ensures
            match encryption_fault(self.algorithm@, self.aes_key@) {
                Some(fault) => r matches Err(ConfigError::MissingField(f)) && f@ == fault,
                None => r matches Ok(key) && key@ == base64_bytes(self.aes_key@)->Ok_0 && key@.len()
                    == 32,
            },
    {
        if !same(self.algorithm.as_str(), "x25519_chacha20_poly1305") {
            return Err(ConfigError::MissingField("encryption.algorithm".to_owned()));
        }
        if self.aes_key.as_str().is_empty() {
            return Err(ConfigError::MissingField("encryption.aes_key".to_owned()));
        }
        match base64_decode(self.aes_key.as_str()) {
            Err(e) => {
                let mut out = "Invalid AES key: ".to_owned();
                out.append(e.as_str());
                Err(ConfigError::MissingField(out))
            },
            Ok(key) => {
                if key.len() != 32 {
                    return Err(ConfigError::MissingField("encryption.aes_key".to_owned()));
                }
                Ok(key)
            },
        }
    }
}

impl Config {
    /// The first thing that is wrong with the configuration.
    pub open spec fn fault(&self) -> Option<Seq<char>> {
        let tls = self.server.connection_type@ == "tls"@;
        if tls && self.tls.cert_path is None {
            Some("tls.cert_path"@)
        } else if tls && self.tls.key_path is None {
            Some("tls.key_path"@)
        } else if tls && self.tls.ca_cert_path is None {
            Some("tls.ca_cert_path"@)
        } else if self.database.host@.len() == 0 {
            Some("database.host"@)
        } else if self.database.user@.len() == 0 {
            Some("database.user"@)
        } else if self.database.dbname@.len() == 0 {
            Some("database.dbname"@)
        } else {
            encryption_fault(self.encryption.algorithm@, self.encryption.aes_key@)
        }
    }

    /// Checks a configuration that was parsed, and fills its gaps.
    pub fn load(self) -> (r: Result<Config, ConfigError>)
        ensures
            match self.fault() {
                Some(fault) => r matches Err(ConfigError::MissingField(f)) && f@ == fault,
                None => r matches Ok(c) && c.logging.completes(&self.logging) && c == (Config {
                    logging: c.logging,
                    ..self
                }),
            },
    {
        if same(self.server.connection_type.as_str(), "tls") {
            if self.tls.cert_path.is_none() {
                return Err(ConfigError::MissingField("tls.cert_path".to_owned()));
            }
            if self.tls.key_path.is_none() {
                return Err(ConfigError::MissingField("tls.key_path".to_owned()));
            }
            if self.tls.ca_cert_path.is_none() {
                return Err(ConfigError::MissingField("tls.ca_cert_path".to_owned()));
            }
        }
        if self.database.host.as_str().is_empty() {
            return Err(ConfigError::MissingField("database.host".to_owned()));
        }
        if self.database.user.as_str().is_empty() {
            return Err(ConfigError::MissingField("database.user".to_owned()));
        }
        if self.database.dbname.as_str().is_empty() {
            return Err(ConfigError::MissingField("database.dbname".to_owned()));
        }
        if let Err(e) = self.encryption.check() {
            return Err(e);
        }
        Ok(
            Config {
                server: self.server,
                tls: self.tls,
                logging: self.logging.completed(),
                database: self.database,
                encryption: self.encryption,
                performance: self.performance,
                admin: self.admin,
                rate_limit: self.rate_limit,
                acl: self.acl,
            },
        )
    }
}

/// A configuration that was checked and completed passes the check again, and
/// has no gaps left to fill.
pub proof fn law_loaded_configuration_is_stable(raw: Config, loaded: Config, again: Config)
    requires
        raw.fault() is None,
        loaded.logging.completes(&raw.logging),
        loaded == (Config { logging: loaded.logging, ..raw }),
        again.logging.completes(&loaded.logging),
    ensures
        loaded.fault() is None,
        again.logging.level@ == loaded.logging.level@,
        again.logging.rotation@ == loaded.logging.rotation@,
        again.logging.info_file_path@ == loaded.logging.info_file_path@,
        again.logging.debug_file_path@ == loaded.logging.debug_file_path@,
        again.logging.error_file_path@ == loaded.logging.error_file_path@,
        again.logging.max_size_mb == loaded.logging.max_size_mb,
{
    assert(loaded.server == raw.server);
    assert(loaded.tls == raw.tls);
    assert(loaded.database == raw.database);
    assert(loaded.encryption == raw.encryption);
    reveal_strlit("info");
    reveal_strlit("daily");
    reveal_strlit("logs/info.log");
    reveal_strlit("logs/debug.log");
    reveal_strlit("logs/error.log");
}

/// A configuration is accepted if and only if a broker that listens by TLS has its
/// certificate, its key and its authority, the database has a host, a user and a
/// name, the encryption is the one that there is, and the key for public keys at
/// rest is 32 bytes in Base64.
pub proof fn law_configuration_is_accepted_if_complete(config: Config)
    ensures
        config.fault() is None <==> {
            &&& config.server.connection_type@ == "tls"@ ==> config.tls.cert_path is Some
                && config.tls.key_path is Some && config.tls.ca_cert_path is Some
            &&& config.database.host@.len() > 0
            &&& config.database.user@.len() > 0
            &&& config.database.dbname@.len() > 0
            &&& config.encryption.algorithm@ == "x25519_chacha20_poly1305"@
            &&& config.encryption.aes_key@.len() > 0
            &&& base64_bytes(config.encryption.aes_key@) is Ok
            &&& base64_bytes(config.encryption.aes_key@)->Ok_0.len() == 32
        },
{
}

/// The fault of a configuration that is refused names something that is missing or
/// wrong in it.
pub proof fn law_fault_names_what_is_missing(config: Config)
    ensures
        config.fault() matches Some(fault) ==> {
            let tls = config.server.connection_type@ == "tls"@;
            ||| fault == "tls.cert_path"@ && tls && config.tls.cert_path is None
            ||| fault == "tls.key_path"@ && tls && config.tls.key_path is None
            ||| fault == "tls.ca_cert_path"@ && tls && config.tls.ca_cert_path is None
            ||| fault == "database.host"@ && config.database.host@.len() == 0
            ||| fault == "database.user"@ && config.database.user@.len() == 0
            ||| fault == "database.dbname"@ && config.database.dbname@.len() == 0
            ||| fault == "encryption.algorithm"@ && config.encryption.algorithm@
                != "x25519_chacha20_poly1305"@
            ||| fault == "encryption.aes_key"@ && (config.encryption.aes_key@.len() == 0
                || base64_bytes(config.encryption.aes_key@) is Ok)
            ||| (base64_bytes(config.encryption.aes_key@) matches Err(e) && fault
                == "Invalid AES key: "@ + e)
        },
{
}

/// A gap in the logging section is filled with its default, and what is given is
/// kept.
pub proof fn law_gaps_are_filled(raw: LoggingConfig, done: LoggingConfig)
    requires
        done.completes(&raw),
    ensures
        done.level@ == if raw.level@ == Seq::<char>::empty() {
            "info"@
        } else {
            raw.level@
        },
        done.rotation@ == if raw.rotation@ == Seq::<char>::empty() {
            "daily"@
        } else {
            raw.rotation@
        },
        done.info_file_path@ == if raw.info_file_path@ == Seq::<char>::empty() {
            "logs/info.log"@
        } else {
            raw.info_file_path@
        },
        done.debug_file_path@ == if raw.debug_file_path@ == Seq::<char>::empty() {
            "logs/debug.log"@
        } else {
            raw.debug_file_path@
        },
        done.error_file_path@ == if raw.error_file_path@ == Seq::<char>::empty() {
            "logs/error.log"@
        } else {
            raw.error_file_path@
        },
        raw.max_size_mb == 0 ==> done.max_size_mb == 10,
        raw.max_size_mb != 0 ==> done.max_size_mb == raw.max_size_mb,
{
    assert(raw.level@.len() == 0 ==> raw.level@ =~= Seq::<char>::empty());
    assert(raw.rotation@.len() == 0 ==> raw.rotation@ =~= Seq::<char>::empty());
    assert(raw.info_file_path@.len() == 0 ==> raw.info_file_path@ =~= Seq::<char>::empty());
    assert(raw.debug_file_path@.len() == 0 ==> raw.debug_file_path@ =~= Seq::<char>::empty());
    assert(raw.error_file_path@.len() == 0 ==> raw.error_file_path@ =~= Seq::<char>::empty());
}

} // verus!
