//! The configuration of the broker without roles.

use crate::config::{ConfigError, DatabaseConfig as FullDatabaseConfig};
use crate::text::{decimal, push_decimal, same};
use vstd::prelude::*;
use vstd::string::*;

verus! {

/// Where and how the broker listens.
#[derive(Debug)]
pub struct ServerConfig {
    pub address: String,
    pub connection_type: String,
}

/// The certificate, the key and the authority of the broker.
#[derive(Debug)]
pub struct TlsConfig {
    pub cert_path: Option<String>,
    pub key_path: Option<String>,
    pub ca_cert_path: Option<String>,
}

/// The name of the database.
#[derive(Debug)]
pub struct DatabaseConfig {
    pub dbname: String,
}

/// The key for public keys at rest.
#[derive(Debug)]
pub struct EncryptionConfig {
    pub aes_key: String,
}

/// The whole configuration.
#[derive(Debug)]
pub struct Config {
    pub server: ServerConfig,
    pub tls: TlsConfig,
    pub database: DatabaseConfig,
    pub encryption: EncryptionConfig,
}

impl Config {
    /// The first thing that is missing.
    pub open spec fn fault(&self) -> Option<Seq<char>> {
        if self.server.connection_type@ != "tls"@ {
            None
        } else if self.tls.cert_path is None {
            Some("tls.cert_path"@)
        } else if self.tls.key_path is None {
            Some("tls.key_path"@)
        } else if self.tls.ca_cert_path is None {
            Some("tls.ca_cert_path"@)
        } else {
            None
        }
    }

    /// Checks a configuration that was parsed, and names the database where it
    /// has no name.
    pub fn load(self) -> (r: Result<Config, ConfigError>)
        ensures
            match self.fault() {
                Some(fault) => r matches Err(ConfigError::MissingField(f)) && f@ == fault,
                None => r matches Ok(c) && c == (Config { database: c.database, ..self })
                    && c.database.dbname@ == (if self.database.dbname@.len() == 0 {
                    "public_keys.db"@
                } else {
                    self.database.dbname@
                }),
            },
    {
        if same(self.server.connection_type.as_str(), "tls") {
            if self.tls.cert_path.is_none() {
                return Err(ConfigError::MissingField("tls.cert_path".to_owned()));
            }
            if self.tls.key_path.is_none() {
                return Err(ConfigError::MissingField("tls.key_path".to_owned()));
            }
            if self.tls.ca_cert_path.is_none() {
                return Err(ConfigError::MissingField("tls.ca_cert_path".to_owned()));
            }
        }
        let dbname = if self.database.dbname.as_str().is_empty() {
            "public_keys.db".to_owned()
        } else {
            self.database.dbname
        };
        Ok(
            Config {
                server: self.server,
                tls: self.tls,
                database: DatabaseConfig { dbname },
                encryption: self.encryption,
            },
        )
    }
}

/// Where the database is, as settings with names.
pub open spec fn settings_text(
    host: Seq<char>,
    port: nat,
    user: Seq<char>,
    password: Seq<char>,
    dbname: Seq<char>,
) -> Seq<char> {
    "host="@ + host + " port="@ + decimal(port) + " user="@ + user + " password="@ + password
        + " dbname="@ + dbname
}

/// Where the database is, as settings with names.
pub fn connection_settings(config: &FullDatabaseConfig) -> (r: String)
    ensures
        r@ == settings_text(
            config.host@,
            config.port as nat,
            config.user@,
            config.password@,
            config.dbname@,
        ),
        r@ == "host="@ + config.host@ + " port="@ + decimal(config.port as nat) + " user="@
            + config.user@ + " password="@ + config.password@ + " dbname="@ + config.dbname@,
{
    let mut out = "host=".to_owned();
    out.append(config.host.as_str());
    out.append(" port=");
    push_decimal(&mut out, config.port as u64);
    out.append(" user=");
    out.append(config.user.as_str());
    out.append(" password=");
    out.append(config.password.as_str());
    out.append(" dbname=");
    out.append(config.dbname.as_str());
    out
}

/// A configuration is accepted unless the broker listens by TLS and has no certificate,
/// no key or no authority; the first of them that is missing is named.
pub proof fn law_configuration_is_accepted_if_complete(config: Config)
    ensures
        config.fault() is None <==> (config.server.connection_type@ == "tls"@
            ==> config.tls.cert_path is Some && config.tls.key_path is Some
            && config.tls.ca_cert_path is Some),
        config.fault() matches Some(fault) ==> {
            ||| fault == "tls.cert_path"@ && config.tls.cert_path is None
            ||| fault == "tls.key_path"@ && config.tls.key_path is None && config.tls.cert_path
                is Some
            ||| fault == "tls.ca_cert_path"@ && config.tls.ca_cert_path is None
                && config.tls.cert_path is Some && config.tls.key_path is Some
        },
{
}

} // verus!
