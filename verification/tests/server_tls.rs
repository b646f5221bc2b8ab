use mdshelf::cli::ServeArgs;
use mdshelf::config::{Config, ServerConfig, ThemeConfig};
use mdshelf::server::tls::{
    is_loopback_host, is_loopback_url, public_url, resolve, TlsError, TlsMode,
};

fn args() -> ServeArgs {
    ServeArgs::none()
}

fn config_on(host: &str) -> Config {
    Config {
        host: host.to_string(),
        port: 4444,
        server: ServerConfig::new(),
        theme: ThemeConfig { name: None, directory: None },
        auth: None,
        links: None,
        sites: vec![],
        source_dir: "/srv".to_string(),
    }
}

fn resolve_on(host: &str, args: &ServeArgs) -> Result<TlsMode, TlsError> {
    resolve(&config_on(host), args, true, true, Some("/home/ana"))
}

#[test]
fn loopback_hosts_are_recognised() {
    assert!(is_loopback_host("127.0.0.1"));
    assert!(is_loopback_host("localhost"));
    assert!(is_loopback_host("::1"));
    assert!(!is_loopback_host("0.0.0.0"));
    assert!(!is_loopback_host("docs.acme.com"));
    assert!(!is_loopback_host("192.168.1.10"));
}

#[test]
fn authenticated_sessions_are_never_served_in_the_clear() {
    assert!(resolve_on("0.0.0.0", &args()).is_ok());

    let mut a = args();
    a.auth = Some("google".into());
    assert!(resolve_on("127.0.0.1", &a).is_ok());
    assert!(resolve_on("localhost", &a).is_ok());

    for host in ["0.0.0.0", "192.168.1.10", "docs.acme.com", "::"] {
        let error = match resolve_on(host, &a) {
            Ok(_) => panic!("{host} without TLS must be refused"),
            Err(error) => error.message(),
        };
        assert!(error.contains("plain HTTP"), "{host}: {error}");
    }

    let mut proxy = a.clone();
    proxy.behind_proxy = true;
    proxy.public_url = Some("http://docs.acme.com".into());
    let error = match resolve_on("0.0.0.0", &proxy) {
        Ok(_) => panic!("http:// behind a proxy must be refused"),
        Err(error) => error.message(),
    };
    assert!(error.contains("terminated upstream"), "got: {error}");

    proxy.public_url = Some("https://docs.acme.com".into());
    assert!(matches!(resolve_on("0.0.0.0", &proxy), Ok(TlsMode::BehindProxy)));

    proxy.public_url = Some("http://localhost:8080".into());
    assert!(resolve_on("127.0.0.1", &proxy).is_ok());

    let mut acme = a.clone();
    acme.domain = Some("docs.acme.com".into());
    assert!(matches!(resolve_on("0.0.0.0", &acme), Ok(TlsMode::Acme(_))));

    acme.domain = Some("https://docs.acme.com".into());
    assert!(resolve_on("0.0.0.0", &acme).is_err());
}

#[test]
fn loopback_urls_are_recognised_across_forms() {
    assert!(is_loopback_url("http://localhost:8080"));
    assert!(is_loopback_url("http://127.0.0.1:4444/x"));
    assert!(is_loopback_url("http://[::1]:4444"));
    assert!(!is_loopback_url("http://docs.acme.com"));
    assert!(!is_loopback_url("http://localhost.evil.example"));
    assert!(!is_loopback_url("http://127.0.0.1.evil.example"));
}

#[test]
fn tls_modes_report_whether_browsers_see_https() {
    assert!(!TlsMode::Plain.is_https());
    assert!(TlsMode::BehindProxy.is_https());
    assert!(TlsMode::Supplied {
        cert: "c".to_string(),
        key: "k".to_string()
    }
    .is_https());
    assert_eq!(TlsMode::Plain.describe(), "http (no TLS)");
}

#[test]
fn supplied_files_must_exist_and_acme_caches_under_home() {
    let mut a = args();
    a.tls_cert = Some("/etc/c.pem".into());
    a.tls_key = Some("/etc/k.pem".into());
    match resolve(&config_on("0.0.0.0"), &a, true, false, None) {
        Err(TlsError::MissingFile(p)) => assert_eq!(p, "/etc/k.pem"),
        other => panic!("unexpected {other:?}"),
    }
    let mut acme = args();
    acme.domain = Some("docs.acme.com".into());
    match resolve(&config_on("0.0.0.0"), &acme, false, false, Some("/home/ana")) {
        Ok(TlsMode::Acme(settings)) => assert_eq!(settings.cache_dir, "/home/ana/.config/mdshelf/acme"),
        other => panic!("unexpected {other:?}"),
    }
    assert!(matches!(
        resolve(&config_on("0.0.0.0"), &acme, false, false, None),
        Err(TlsError::NoAcmeCache)
    ));
}

#[test]
fn the_public_url_is_explicit_acme_or_loopback() {
    let mut a = args();
    a.public_url = Some("https://docs.acme.com/".into());
    assert_eq!(
        public_url(&config_on("0.0.0.0"), &a, &TlsMode::BehindProxy, 4444).unwrap(),
        "https://docs.acme.com"
    );
    a.public_url = Some("docs.acme.com".into());
    assert!(public_url(&config_on("0.0.0.0"), &a, &TlsMode::BehindProxy, 4444).is_err());
    assert_eq!(
        public_url(&config_on("127.0.0.1"), &args(), &TlsMode::Plain, 4444).unwrap(),
        "http://127.0.0.1:4444"
    );
    assert!(matches!(
        public_url(&config_on("0.0.0.0"), &args(), &TlsMode::Plain, 4444),
        Err(TlsError::UnknownPublicUrl)
    ));
}

use mdshelf::server::error::AppError;
use mdshelf::server::links::redact_uri;

#[test]
fn a_token_never_survives_into_a_logged_uri() {
    assert_eq!(redact_uri("/s/abcdefghij", "/s"), "/s/<token>");
    assert_eq!(
        redact_uri("/s/abcdefghij/img/a.png", "/s"),
        "/s/<token>/img/a.png"
    );
    assert_eq!(
        redact_uri("/s/abcdefghij/__reload", "/s"),
        "/s/<token>/__reload"
    );
    assert_eq!(redact_uri("/s", "/s"), "/s");
}

#[test]
fn other_paths_are_logged_exactly_as_before() {
    for path in [
        "/docs/hr/comp",
        "/system/status",
        "/",
        "/__assets/css/main.css",
    ] {
        assert_eq!(redact_uri(path, "/s"), path);
    }
}

#[test]
fn handler_errors_map_to_statuses() {
    assert_eq!(AppError::not_found("gone".to_string()).status(), 404);
    assert_eq!(AppError::Other(anyhow::Error::msg("boom")).status(), 500);
}
