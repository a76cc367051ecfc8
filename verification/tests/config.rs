use ciphermq::basic::config as basic;
use ciphermq::config::{
    default_admin_address, default_cleanup_interval, default_consumer_cleanup_interval,
    default_heartbeat_timeout, default_idle_timeout, default_max_connections_per_cn,
    default_max_connections_per_ip, default_max_queue_size, rotation_of, AclConfig, AdminConfig, Config,
    ConfigError, DatabaseConfig, EncryptionConfig, LoggingConfig, PerformanceConfig, Rotation,
    RateLimitConfig, ServerConfig, TlsConfig,
};

const KEY: &str = "AAAAAAAAAAAAAAAAAAAAAAAAAAAAAAAAAAAAAAAAAAA=";

fn s(t: &str) -> String {
    t.to_string()
}

fn valid() -> Config {
    Config {
        server: ServerConfig { address: s("0.0.0.0:5672"), connection_type: s("tls") },
        tls: TlsConfig {
            cert_path: Some(s("c")),
            key_path: Some(s("k")),
            ca_cert_path: Some(s("a")),
        },
        logging: LoggingConfig {
            level: s(""),
            rotation: s(""),
            info_file_path: s(""),
            debug_file_path: s(""),
            error_file_path: s(""),
            max_size_mb: 0,
        },
        database: DatabaseConfig {
            host: s("h"),
            port: 5432,
            user: s("u"),
            password: s(""),
            dbname: s("d"),
        },
        encryption: EncryptionConfig { algorithm: s("x25519_chacha20_poly1305"), aes_key: s(KEY) },
        performance: PerformanceConfig::default(),
        admin: AdminConfig::default(),
        rate_limit: RateLimitConfig::default(),
        acl: AclConfig::default(),
    }
}

fn fault(change: fn(&mut Config)) -> String {
    let mut c = valid();
    change(&mut c);
    match c.load() {
        Ok(_) => s("none"),
        Err(ConfigError::MissingField(f)) => f,
        Err(_) => s("other"),
    }
}

#[test]
fn gaps_in_the_logging_section_are_filled() {
    let c = valid().load().unwrap();
    assert_eq!(c.logging.level, "info");
    assert_eq!(c.logging.rotation, "daily");
    assert_eq!(c.logging.info_file_path, "logs/info.log");
    assert_eq!(c.logging.debug_file_path, "logs/debug.log");
    assert_eq!(c.logging.error_file_path, "logs/error.log");
    assert_eq!(c.logging.max_size_mb, 10);
    assert_eq!(c.server.address, "0.0.0.0:5672");
    let again = c.load().unwrap();
    assert_eq!(again.logging.level, "info");
    assert_eq!(again.logging.max_size_mb, 10);
}

#[test]
fn what_is_set_is_kept() {
    let mut c = valid();
    c.logging.level = s("debug");
    c.logging.max_size_mb = 3;
    let c = c.load().unwrap();
    assert_eq!(c.logging.level, "debug");
    assert_eq!(c.logging.max_size_mb, 3);
}

#[test]
fn every_required_field_is_missed() {
    assert_eq!(fault(|_| {}), "none");
    assert_eq!(fault(|c| c.tls.cert_path = None), "tls.cert_path");
    assert_eq!(fault(|c| c.tls.key_path = None), "tls.key_path");
    assert_eq!(fault(|c| c.tls.ca_cert_path = None), "tls.ca_cert_path");
    assert_eq!(fault(|c| c.database.host = String::new()), "database.host");
    assert_eq!(fault(|c| c.database.user = String::new()), "database.user");
    assert_eq!(fault(|c| c.database.dbname = String::new()), "database.dbname");
    assert_eq!(fault(|c| c.encryption.algorithm = String::new()), "encryption.algorithm");
    assert_eq!(fault(|c| c.encryption.aes_key = String::new()), "encryption.aes_key");
    assert_eq!(fault(|c| c.encryption.aes_key = "AAAA".to_string()), "encryption.aes_key");
    assert_eq!(
        fault(|c| c.encryption.aes_key = "?".to_string()),
        "Invalid AES key: Invalid symbol 63, offset 0."
    );
    assert_eq!(
        fault(|c| {
            c.server.connection_type = "plain".to_string();
            c.tls.cert_path = None;
        }),
        "none"
    );
    // The first fault counts.
    assert_eq!(
        fault(|c| {
            c.tls.key_path = None;
            c.database.host = String::new();
        }),
        "tls.key_path"
    );
}

#[test]
fn the_key_is_handed_out() {
    let c = valid();
    assert_eq!(c.encryption.check().unwrap(), vec![0u8; 32]);
}

#[test]
fn config_errors_are_put_into_words() {
    assert_eq!(
        ConfigError::ReadError(s("gone")).text(),
        "Failed to read config file: gone"
    );
    assert_eq!(
        ConfigError::ParseError(s("line 1")).text(),
        "Failed to parse config file: line 1"
    );
    assert_eq!(
        ConfigError::MissingField(s("tls.cert_path")).text(),
        "Missing required field: tls.cert_path"
    );
}

#[test]
fn defaults_are_as_documented() {
    assert_eq!(default_max_queue_size(), 10_000);
    assert_eq!(default_heartbeat_timeout(), 60);
    assert_eq!(default_cleanup_interval(), 3000);
    assert_eq!(default_consumer_cleanup_interval(), 60);
    assert_eq!(default_idle_timeout(), 60);
    assert_eq!(default_admin_address(), "127.0.0.1:9091");
    assert_eq!(default_max_connections_per_ip(), 50);
    assert_eq!(default_max_connections_per_cn(), 20);
    let p = PerformanceConfig::default();
    assert_eq!(
        (p.max_queue_size, p.heartbeat_timeout, p.cleanup_interval),
        (10_000, 60, 3000)
    );
    assert_eq!((p.consumer_cleanup_interval, p.idle_timeout_sec), (60, 60));
    let a = AdminConfig::default();
    assert!(!a.enabled && a.allowed_cns.is_empty());
    let r = RateLimitConfig::default();
    assert!(!r.enabled);
    assert_eq!((r.max_connections_per_ip, r.max_connections_per_cn), (50, 20));
    assert!(TlsConfig::default().cert_path.is_none());
    assert!(AclConfig::default().admin_cns.is_empty());
}

fn basic_config(kind: &str, cert: bool, key: bool, ca: bool, db: &str) -> basic::Config {
    let path = |there: bool| if there { Some(s("p")) } else { None };
    basic::Config {
        server: basic::ServerConfig { address: s("a"), connection_type: s(kind) },
        tls: basic::TlsConfig {
            cert_path: path(cert),
            key_path: path(key),
            ca_cert_path: path(ca),
        },
        database: basic::DatabaseConfig { dbname: s(db) },
        encryption: basic::EncryptionConfig { aes_key: s("x") },
    }
}

#[test]
fn the_basic_configuration_names_its_database() {
    let c = basic_config("tls", true, true, true, "").load().unwrap();
    assert_eq!(c.database.dbname, "public_keys.db");
    let c = basic_config("tls", true, true, true, "mine").load().unwrap();
    assert_eq!(c.database.dbname, "mine");
    assert_eq!(c.encryption.aes_key, "x");
    let missing = |c: basic::Config| match c.load() {
        Err(ConfigError::MissingField(f)) => f,
        _ => s("none"),
    };
    assert_eq!(missing(basic_config("tls", false, false, true, "")), "tls.cert_path");
    assert_eq!(missing(basic_config("tls", true, false, true, "")), "tls.key_path");
    assert_eq!(missing(basic_config("tls", true, true, false, "")), "tls.ca_cert_path");
    assert_eq!(missing(basic_config("plain", false, false, false, "")), "none");
}

#[test]
fn the_basic_database_is_found() {
    let config = DatabaseConfig {
        host: s("h"),
        port: 80,
        user: s("u"),
        password: s("p"),
        dbname: s("d"),
    };
    assert_eq!(
        basic::connection_settings(&config),
        "host=h port=80 user=u password=p dbname=d"
    );
}

#[test]
fn logs_rotate_as_asked() {
    assert_eq!(rotation_of("hourly"), Rotation::Hourly);
    assert_eq!(rotation_of("daily"), Rotation::Daily);
    assert_eq!(rotation_of("never"), Rotation::Never);
    assert_eq!(rotation_of("Hourly"), Rotation::Never);
    assert_eq!(rotation_of(""), Rotation::Never);
}
