use std::time::Duration;

use mdshelf::config::{
    derive_mount, derive_title, normalize_mount, normalize_path, parse_duration, resolve_against,
    AuthConfig, Config, ConfigError, DurationError, LinksConfig, MountError, ServerConfig,
    SiteConfig, ThemeConfig,
};

fn config_with(auth: Option<AuthConfig>, sites: Vec<SiteConfig>) -> Config {
    Config {
        host: "127.0.0.1".to_string(),
        port: 4444,
        server: ServerConfig::new(),
        theme: ThemeConfig { name: None, directory: None },
        auth,
        links: None,
        sites,
        source_dir: "/srv".to_string(),
    }
}

fn site(path: &str, mount: Option<&str>) -> SiteConfig {
    SiteConfig {
        path: path.to_string(),
        mount: mount.map(|m| m.to_string()),
        title: None,
        theme: None,
        color: None,
    }
}

/// Validate a config with one site at /srv/content mounted at /docs and this [auth].
fn load_error(auth: AuthConfig) -> String {
    let mut config = config_with(Some(auth), vec![site("/srv/content", Some("/docs"))]);
    match config.normalize_and_validate(&vec![true]) {
        Ok(()) => panic!("expected this config to be refused"),
        Err(error) => error.message(),
    }
}

#[test]
fn invalid_session_max_age_is_a_startup_error() {
    for bad in ["forever", "30", "30y", ""] {
        let mut auth = AuthConfig::new();
        auth.session_max_age = bad.to_string();
        let err = load_error(auth);
        assert!(
            err.contains("session_max_age"),
            "the error should name the field; got: {err}"
        );
    }
}

#[test]
fn invalid_audit_retention_is_a_startup_error() {
    let mut auth = AuthConfig::new();
    auth.audit_retention = "soon".to_string();
    let err = load_error(auth);
    assert!(err.contains("audit_retention"), "got: {err}");
}

#[test]
fn unsupported_provider_is_refused() {
    let mut auth = AuthConfig::new();
    auth.provider = "okta".to_string();
    let err = load_error(auth);
    assert!(err.contains("okta"), "got: {err}");
}

#[test]
fn invalid_owner_email_is_refused() {
    let mut auth = AuthConfig::new();
    auth.owner_email = Some("owner@corp".to_string());
    let err = load_error(auth);
    assert!(err.contains("owner_email"), "got: {err}");
}

#[test]
fn parse_duration_accepts_every_unit() {
    assert_eq!(Duration::from_secs(parse_duration("45s").unwrap()), Duration::from_secs(45));
    assert_eq!(Duration::from_secs(parse_duration("30m").unwrap()), Duration::from_secs(1_800));
    assert_eq!(Duration::from_secs(parse_duration("12h").unwrap()), Duration::from_secs(43_200));
    assert_eq!(
        Duration::from_secs(parse_duration("30d").unwrap()),
        Duration::from_secs(2_592_000)
    );
    assert_eq!(
        Duration::from_secs(parse_duration("2w").unwrap()),
        Duration::from_secs(1_209_600)
    );
    assert_eq!(
        Duration::from_secs(parse_duration(" 7d ").unwrap()),
        Duration::from_secs(604_800)
    );
}

#[test]
fn parse_duration_rejects_ambiguous_values() {
    assert!(parse_duration("30").is_err());
    assert!(parse_duration("").is_err());
    assert!(parse_duration("d30").is_err());
    assert!(parse_duration("30y").is_err());
    assert!(parse_duration("-5d").is_err());
    assert!(parse_duration("18446744073709551615w").is_err());
}

#[test]
fn each_duration_refusal_names_its_reason() {
    assert_eq!(parse_duration("  "), Err(DurationError::Empty));
    assert_eq!(parse_duration("30"), Err(DurationError::MissingUnit));
    assert_eq!(parse_duration("d30"), Err(DurationError::MissingNumber));
    assert_eq!(parse_duration("30y"), Err(DurationError::UnknownUnit));
    assert_eq!(parse_duration("99999999999999999999s"), Err(DurationError::InvalidNumber));
    assert_eq!(parse_duration("18446744073709551615w"), Err(DurationError::Overflow));
    assert_eq!(parse_duration("18446744073709551615s"), Ok(u64::MAX));
}

#[test]
fn auth_defaults_and_fallbacks() {
    let auth = AuthConfig::new();
    assert_eq!(auth.session_max_age(), 30 * 86_400);
    assert_eq!(auth.audit_retention(), 90 * 86_400);
    let mut broken = AuthConfig::new();
    broken.session_max_age = "7d".to_string();
    broken.audit_retention = "soon".to_string();
    assert_eq!(broken.session_max_age(), 7 * 86_400);
    assert_eq!(broken.audit_retention(), 90 * 86_400);
}

#[test]
fn mounts_are_normalized_or_refused() {
    assert_eq!(normalize_mount("docs").unwrap(), "/docs");
    assert_eq!(normalize_mount(" /docs/ ").unwrap(), "/docs");
    assert_eq!(normalize_mount("/team/hr").unwrap(), "/team/hr");
    assert_eq!(normalize_mount("/"), Err(MountError::Root));
    assert_eq!(normalize_mount(" /// "), Err(MountError::Root));
    assert_eq!(normalize_mount("//docs"), Err(MountError::EmptySegment));
    assert_eq!(normalize_mount("   "), Err(MountError::Empty));
    assert_eq!(normalize_mount("/a//b"), Err(MountError::EmptySegment));
    assert_eq!(normalize_mount("/a b"), Err(MountError::InvalidSegment));
    assert_eq!(normalize_mount("/ünï"), Err(MountError::InvalidSegment));
}

#[test]
fn validation_fills_in_mounts_titles_and_colors() {
    let mut config = config_with(
        None,
        vec![site("/srv/handbook", None), site("/srv/notes/", Some("wiki"))],
    );
    config.normalize_and_validate(&vec![true, true]).unwrap();
    assert_eq!(config.sites[0].mount(), "/handbook");
    assert_eq!(config.sites[0].title(), "handbook");
    assert_eq!(config.sites[0].color(), "#10b981");
    assert_eq!(config.sites[1].mount(), "/wiki");
    assert_eq!(config.sites[1].title(), "notes");
    assert_eq!(config.sites[1].color(), "#3b82f6");
}

#[test]
fn validation_refuses_duplicates_missing_directories_and_empty_configs() {
    let mut dup = config_with(None, vec![site("/srv/a", Some("/docs")), site("/srv/b", Some("docs/"))]);
    let before = dup.sites.len();
    match dup.normalize_and_validate(&vec![true, true]) {
        Err(ConfigError::DuplicateMount(m)) => assert_eq!(m, "/docs"),
        other => panic!("unexpected: {other:?}"),
    }
    assert_eq!(dup.sites.len(), before);
    assert!(dup.sites[1].title.is_none());

    let mut missing = config_with(None, vec![site("/srv/a", None)]);
    match missing.normalize_and_validate(&vec![false]) {
        Err(e) => assert!(e.message().contains("/srv/a")),
        Ok(()) => panic!("a missing directory must be refused"),
    }

    let mut empty = config_with(None, vec![]);
    assert!(matches!(empty.normalize_and_validate(&vec![]), Err(ConfigError::NoSites)));
}

#[test]
fn paths_resolve_lexically() {
    assert_eq!(normalize_path("/srv/./a/../b"), "/srv/b");
    assert_eq!(normalize_path("/.."), "/");
    assert_eq!(normalize_path("a/../../b"), "b");
    assert_eq!(resolve_against("content", "/srv/site"), "/srv/site/content");
    assert_eq!(resolve_against("/abs/x", "/srv"), "/abs/x");
    assert_eq!(derive_mount("/srv/handbook/"), "/handbook");
    assert_eq!(derive_mount("/"), "/");
    assert_eq!(derive_title("/"), "Site");
    assert_eq!(derive_title("/srv/notes/."), "notes");
}

#[test]
fn the_links_section_has_conservative_defaults() {
    let links = LinksConfig::new();
    assert!(links.enabled);
    assert_eq!(links.prefix, "/s");
    assert_eq!(parse_duration(&links.default_lifetime), Ok(86_400));
    assert_eq!(parse_duration(&links.max_lifetime), Ok(30 * 86_400));
}

#[test]
fn the_bind_address_joins_host_and_port() {
    let config = config_with(None, vec![]);
    assert_eq!(config.bind_addr(), "127.0.0.1:4444");
}

#[test]
fn per_user_paths_all_live_under_the_config_directory() {
    let home = "/home/ana";
    let base = mdshelf::config::user_config_dir(Some(home)).expect("a home directory is given");
    assert!(base.ends_with(".config/mdshelf"), "unexpected config directory: {base}");

    let config = config_with(None, vec![site("/srv/content", Some("/docs"))]);
    let settings = mdshelf::auth::AuthSettings::resolve(
        &config,
        &AuthConfig::new(),
        "http://127.0.0.1:4444".to_string(),
        Some(home),
    )
    .expect("settings resolve");
    for path in [
        settings.key_file_path.clone(),
        mdshelf::auth::credentials_file(Some(home)).expect("credentials path"),
    ] {
        assert!(path.starts_with(&format!("{base}/")), "{path} escaped the config directory {base}");
    }
}
