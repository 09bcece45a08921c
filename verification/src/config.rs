//! Settings of the server, and the check that a certificate bundle is complete.

use vstd::prelude::*;
use vstd::string::*;

verus! {

/// Where the settings file is looked for.
pub const CONFIG_PATH: &'static str = "/etc/jorge-a-day/config.toml";

/// The settings of one server process.
#[derive(Clone, Debug)]
pub struct AppConfig {
    /// Root directories that are scanned and watched.
    pub directories: Vec<String>,
    /// Time-to-live of cached bytes, in milliseconds.
    pub cache_age: i64,
    /// Address the server binds to.
    pub address: String,
    /// Whether TLS is switched on.
    pub ssl: bool,
    /// Path of the certificate chain.
    pub cert: Option<String>,
    /// Path of the private key.
    pub key: Option<String>,
}

/// Why a configuration yields no certificate bundle.
#[derive(Clone, Copy, Debug, PartialEq, Eq, Structural)]
pub enum ConfigError {
    /// TLS is switched on, and the named parts of the bundle are not set.
    SslIncomplete { certificate: bool, key: bool },
    /// TLS is off and no certificate is set.
    CertificateMissing,
    /// TLS is off, a certificate is set, but no key.
    KeyMissing,
}

impl ConfigError {
    /// The text that describes this error.
    pub open spec fn text(self) -> Seq<char> {
        match self {
            ConfigError::SslIncomplete { certificate: true, key: true } =>
                "SSL is enabled but missing certificate and key!"@,
            ConfigError::SslIncomplete { certificate: true, key: false } =>
                "SSL is enabled but missing certificate!"@,
            ConfigError::SslIncomplete { certificate: false, key: _ } =>
                "SSL is enabled but missing key!"@,
            ConfigError::CertificateMissing => "Certificate is missing"@,
            ConfigError::KeyMissing => "Key is missing"@,
        }
    }

    /// Renders the error for a log line.
    pub fn message(&self) -> (r: String)
        ensures
            r@ == self.text(),
    {
        match self {
            ConfigError::SslIncomplete { certificate: true, key: true } => String::from_str(
                "SSL is enabled but missing certificate and key!",
            ),
            ConfigError::SslIncomplete { certificate: true, key: false } => String::from_str(
                "SSL is enabled but missing certificate!",
            ),
            ConfigError::SslIncomplete { certificate: false, key: _ } => String::from_str(
                "SSL is enabled but missing key!",
            ),
            ConfigError::CertificateMissing => String::from_str("Certificate is missing"),
            ConfigError::KeyMissing => String::from_str("Key is missing"),
        }
    }
}

impl AppConfig {
    /// What `check` answers, over the views of the two paths.
    pub open spec fn bundle(&self) -> Result<(Seq<char>, Seq<char>), ConfigError> {
        if self.ssl && (self.cert is None || self.key is None) {
            Err(ConfigError::SslIncomplete { certificate: self.cert is None, key: self.key is None })
        } else if self.cert is None {
            Err(ConfigError::CertificateMissing)
        } else if self.key is None {
            Err(ConfigError::KeyMissing)
        } else {
            Ok((self.cert->0@, self.key->0@))
        }
    }

    /// Hands out the certificate and key paths, or says which of them is
    /// missing. With TLS switched on, every missing part is reported at once.
    pub fn check(&self) -> (r: Result<(String, String), ConfigError>)
        ensures
            match r {
                Ok(pair) => self.bundle() == Ok::<(Seq<char>, Seq<char>), ConfigError>(
                    (pair.0@, pair.1@),
                ),
                Err(e) => self.bundle() == Err::<(Seq<char>, Seq<char>), ConfigError>(e),
            },
    {
        let cert_missing = self.cert.is_none();
        let key_missing = self.key.is_none();

        if self.ssl && (cert_missing || key_missing) {
            return Err(ConfigError::SslIncomplete { certificate: cert_missing, key: key_missing });
        }
        match &self.cert {
            None => Err(ConfigError::CertificateMissing),
            Some(cert) => match &self.key {
                None => Err(ConfigError::KeyMissing),
                Some(key) => Ok((cert.clone(), key.clone())),
            },
        }
    }
}

} // verus!
