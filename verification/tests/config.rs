use jorge_a_day::config::{AppConfig, ConfigError};

fn config(ssl: bool, cert: Option<&str>, key: Option<&str>) -> AppConfig {
    AppConfig {
        directories: vec![".".to_string()],
        cache_age: 300,
        address: "0.0.0.0:8443".to_string(),
        ssl,
        cert: cert.map(|s| s.to_string()),
        key: key.map(|s| s.to_string()),
    }
}

#[test]
fn check_hands_out_both_paths() {
    let c = config(true, Some("/etc/cert.pem"), Some("/etc/key.pem"));
    assert_eq!(c.check(), Ok(("/etc/cert.pem".to_string(), "/etc/key.pem".to_string())));
}

#[test]
fn check_names_every_missing_part_under_ssl() {
    let both = config(true, None, None).check().unwrap_err();
    assert_eq!(both, ConfigError::SslIncomplete { certificate: true, key: true });
    assert_eq!(both.message(), "SSL is enabled but missing certificate and key!");
    let cert = config(true, None, Some("k")).check().unwrap_err();
    assert_eq!(cert.message(), "SSL is enabled but missing certificate!");
    let key = config(true, Some("c"), None).check().unwrap_err();
    assert_eq!(key.message(), "SSL is enabled but missing key!");
}

#[test]
fn check_without_ssl_reports_the_first_missing_part() {
    let none = config(false, None, None).check().unwrap_err();
    assert_eq!(none, ConfigError::CertificateMissing);
    assert_eq!(none.message(), "Certificate is missing");
    let key = config(false, Some("c"), None).check().unwrap_err();
    assert_eq!(key, ConfigError::KeyMissing);
    assert_eq!(key.message(), "Key is missing");
}
