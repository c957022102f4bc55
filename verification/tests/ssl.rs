use cascade::ssl::config::{parse_domains, SslConfig, SslError, SslVars};
use cascade::ssl::server::{http_mode, https_uri, HttpMode};

fn vars() -> SslVars {
    SslVars {
        ssl_enabled: Some("true".to_string()),
        ssl_domains: Some(" example.com , ,www.example.com,".to_string()),
        ssl_email: Some("admin@example.com".to_string()),
        ssl_staging: None,
        ssl_cert_cache_dir: None,
        ssl_port: None,
        http_redirect: None,
    }
}

fn refused(change: impl Fn(&mut SslVars)) -> SslError {
    let mut v = vars();
    change(&mut v);
    SslConfig::from_env(&v).unwrap_err()
}

#[test]
fn tls_is_off_unless_it_is_switched_on() {
    let mut v = vars();
    v.ssl_enabled = None;
    v.ssl_port = Some("not read".to_string());
    let c = SslConfig::from_env(&v).unwrap();
    assert!(!c.enabled && !c.http_redirect && c.staging);
    assert!(c.domains.is_empty());
    assert_eq!((c.email.as_str(), c.cert_cache_dir.as_str(), c.ssl_port), ("", "/etc/cascade/certs", 443));
}

#[test]
fn tls_settings_are_read() {
    let c = SslConfig::from_env(&vars()).unwrap();
    assert!(c.enabled && c.staging && c.http_redirect);
    assert_eq!(c.domains, vec!["example.com".to_string(), "www.example.com".to_string()]);
    assert_eq!(c.ssl_port, 443);
    assert_eq!(c.contact(), "mailto:admin@example.com");
    assert_eq!(c.acme_directory_url(), "https://acme-staging-v02.api.letsencrypt.org/directory");
    let mut v = vars();
    v.ssl_staging = Some("false".to_string());
    v.ssl_cert_cache_dir = Some("/certs".to_string());
    v.ssl_port = Some("8443".to_string());
    v.http_redirect = Some("false".to_string());
    let c = SslConfig::from_env(&v).unwrap();
    assert_eq!(c.acme_directory_url(), "https://acme-v02.api.letsencrypt.org/directory");
    assert_eq!((c.cert_cache_dir.as_str(), c.ssl_port, c.http_redirect), ("/certs", 8443, false));
    assert_eq!(parse_domains(" , "), Vec::<String>::new());
}

#[test]
fn each_wrong_tls_setting_has_its_error() {
    let text = |s: &str| Some(s.to_string());
    assert_eq!(refused(|v| v.ssl_enabled = text("yes")), SslError::InvalidEnabled);
    assert_eq!(refused(|v| v.ssl_domains = None), SslError::MissingDomains);
    assert_eq!(refused(|v| v.ssl_domains = text(" ,, ")), SslError::NoDomain);
    assert_eq!(refused(|v| v.ssl_email = None), SslError::MissingEmail);
    assert_eq!(refused(|v| v.ssl_email = text("admin")), SslError::InvalidEmail);
    assert_eq!(refused(|v| v.ssl_staging = text("maybe")), SslError::InvalidStaging);
    assert_eq!(refused(|v| v.ssl_port = text("70000")), SslError::InvalidPort);
    assert_eq!(refused(|v| v.http_redirect = text("")), SslError::InvalidRedirect);
    assert_eq!(SslError::InvalidEmail.message(), "SSL_EMAIL must be a valid email address");
    assert_eq!(SslError::MissingDomains.message(), "SSL_DOMAINS must be set when SSL is enabled");
    assert_eq!(SslError::InvalidPort.message(), "Invalid SSL_PORT value");
}

#[test]
fn the_plain_port_sends_viewers_to_the_same_place() {
    assert_eq!(
        https_uri(Some("cdn.example.com"), "example.com", 443, Some("/live/cam.m3u8?x=1")),
        "https://cdn.example.com/live/cam.m3u8?x=1"
    );
    assert_eq!(https_uri(None, "example.com", 8443, None), "https://example.com:8443/");
}

#[test]
fn the_plain_port_redirects_or_serves() {
    let mut c = SslConfig::from_env(&vars()).unwrap();
    assert_eq!(
        http_mode(&c, Some("81")),
        HttpMode::Redirect { primary_domain: "example.com".to_string(), https_port: 443 }
    );
    c.http_redirect = false;
    assert_eq!(http_mode(&c, Some("81")), HttpMode::Serve { port: 81 });
    assert_eq!(http_mode(&c, Some("port")), HttpMode::Serve { port: 80 });
    assert_eq!(http_mode(&c, None), HttpMode::Serve { port: 80 });
}
