use mdshelf::auth::flows::{prune_expired_flows, PendingFlow, PendingFlows};
use mdshelf::auth::oidc::RefreshFailure;
use mdshelf::auth::pages::{denied, interstitial};
use mdshelf::auth::store::now_ms;
use mdshelf::auth::{
    credentials_file, env_file_get, env_or, parse_env_file, redact_session_id, sanitize_next,
    session_check, AuthSettings, Credentials, SessionCheck, CLIENT_ID_ENV, CLIENT_SECRET_ENV,
    DOCS_URL, FLOW_TTL_MS,
};
use mdshelf::config::{AuthConfig, Config, ServerConfig, ThemeConfig};

#[test]
fn sanitize_next_accepts_local_paths() {
    assert_eq!(sanitize_next("/hr/comp.md").as_deref(), Some("/hr/comp.md"));
    assert_eq!(sanitize_next("/").as_deref(), Some("/"));
    assert_eq!(sanitize_next("").as_deref(), Some("/"));
    assert_eq!(
        sanitize_next("/docs/a?b=c#d").as_deref(),
        Some("/docs/a?b=c#d")
    );
}

#[test]
fn sanitize_next_rejects_off_site_redirects() {
    assert!(sanitize_next("https://evil.example.com").is_none());
    assert!(sanitize_next("//evil.example.com").is_none());
    assert!(sanitize_next("/\\evil.example.com").is_none());
    assert!(sanitize_next("/path\\to").is_none());
    assert!(sanitize_next("javascript:alert(1)").is_none());
    assert!(sanitize_next("/a\nSet-Cookie: x=1").is_none());
    assert!(sanitize_next("hr/comp.md").is_none());
}

#[test]
fn missing_credentials_name_the_variable_and_the_docs() {
    let error = env_or("MDSHELF_DEFINITELY_NOT_SET_IN_ANY_ENVIRONMENT", None, None)
        .expect_err("an unset variable with no stored fallback must be an error");
    assert!(error.contains("MDSHELF_DEFINITELY_NOT_SET_IN_ANY_ENVIRONMENT"));
    assert!(error.contains(DOCS_URL), "got: {error}");
    assert!(error.contains("mdshelf auth setup"), "got: {error}");
}

#[test]
fn a_stored_credentials_file_satisfies_the_lookup() {
    assert_eq!(
        env_or(CLIENT_ID_ENV, None, Some("id-from-file")).unwrap(),
        "id-from-file"
    );
    assert!(env_or("MDSHELF_ALSO_NOT_SET_ANYWHERE", None, Some("   ")).is_err());
}

#[test]
fn the_environment_wins_over_the_stored_file_unless_blank() {
    assert_eq!(env_or(CLIENT_ID_ENV, Some("from-env"), Some("from-file")).unwrap(), "from-env");
    assert_eq!(env_or(CLIENT_ID_ENV, Some("  "), Some("from-file")).unwrap(), "from-file");
}

#[test]
fn redacted_session_id_reveals_only_a_prefix() {
    let redacted = redact_session_id("abcdefghijklmnop");
    assert_eq!(redacted, "abcdef…");
    assert!(!redacted.contains("ghij"));
    assert_eq!(redact_session_id("abc"), "abc…");
}

fn flow(created_at: i64) -> PendingFlow {
    PendingFlow {
        verifier: "v".into(),
        nonce: "n".into(),
        next: "/".into(),
        created_at,
    }
}

#[test]
fn expired_flows_are_pruned() {
    let mut flows = PendingFlows::new();
    let now = now_ms();
    flows.insert("fresh".to_string(), flow(now));
    flows.insert("stale".to_string(), flow(now - FLOW_TTL_MS - 1_000));
    prune_expired_flows(&mut flows, now_ms());
    assert!(flows.contains("fresh"));
    assert!(!flows.contains("stale"));
}

#[test]
fn a_flow_can_be_taken_exactly_once() {
    let mut flows = PendingFlows::new();
    flows.insert("state".to_string(), flow(5));
    flows.insert("state".to_string(), flow(7));
    let taken = flows.take("state").expect("the flow was filed");
    assert_eq!(taken.created_at, 7);
    assert!(flows.take("state").is_none());
    assert!(!flows.contains("state"));
}

fn settings(public_url: &str) -> AuthSettings {
    AuthSettings {
        session_max_age: 60,
        audit_retention: 60,
        owner_email: None,
        public_url: public_url.to_string(),
        database_path: "/tmp/mdshelf.db".to_string(),
        key_file_path: "/tmp/secret.key".to_string(),
    }
}

#[test]
fn settings_build_redirect_uri_and_cookie_policy() {
    let settings = settings("https://docs.acme.com/");
    assert_eq!(
        settings.redirect_uri(),
        "https://docs.acme.com/auth/callback"
    );
    assert!(settings.is_secure_origin());

    let local = AuthSettings {
        public_url: "http://127.0.0.1:4444".to_string(),
        ..settings
    };
    assert!(!local.is_secure_origin());
    assert_eq!(local.redirect_uri(), "http://127.0.0.1:4444/auth/callback");
}

#[test]
fn settings_resolve_defaults_beside_the_config_and_in_the_home_directory() {
    let config = Config {
        host: "127.0.0.1".to_string(),
        port: 4444,
        server: ServerConfig::new(),
        theme: ThemeConfig { name: None, directory: None },
        auth: None,
        links: None,
        sites: vec![],
        source_dir: "/srv/vault".to_string(),
    };
    let auth = AuthConfig::new();
    let resolved =
        AuthSettings::resolve(&config, &auth, "https://docs.acme.com//".to_string(), Some("/home/ana"))
            .unwrap();
    assert_eq!(resolved.public_url, "https://docs.acme.com");
    assert_eq!(resolved.database_path, "/srv/vault/mdshelf.db");
    assert_eq!(resolved.key_file_path, "/home/ana/.config/mdshelf/secret.key");
    assert_eq!(resolved.session_max_age, 30 * 86_400);
    assert!(AuthSettings::resolve(&config, &auth, String::new(), None).is_err());
    assert_eq!(
        credentials_file(Some("/home/ana")).unwrap(),
        "/home/ana/.config/mdshelf/credentials.env"
    );
}

#[test]
fn sessions_expire_before_they_are_revalidated() {
    let max = 30 * 86_400_000;
    assert_eq!(session_check(1_000, 0, 1_000, max), SessionCheck::Fresh);
    assert_eq!(session_check(31 * 60_000, 0, 0, max), SessionCheck::Revalidate);
    assert_eq!(session_check(max + 1, 0, max + 1, max), SessionCheck::Expired);
    assert_eq!(session_check(i64::MAX, i64::MIN, i64::MAX, max), SessionCheck::Expired);
}

#[test]
fn refresh_failure_reports_its_kind() {
    assert_eq!(
        RefreshFailure::Rejected("invalid_grant".into()).kind(),
        "rejected"
    );
    assert_eq!(
        RefreshFailure::Unreachable("dns error".into()).kind(),
        "unreachable"
    );
    assert_eq!(RefreshFailure::Unreachable("dns error".into()).reason(), "dns error");
}

#[test]
fn the_deny_page_contains_no_path_specific_content() {
    let page = denied("bob@gmail.com", Some("owner@corp.com"));
    assert!(!page.contains("/hr/"));
    assert!(page.contains("bob@gmail.com"));
    assert!(page.contains("Switch account"));
    assert!(page.contains("mailto:owner@corp.com"));
}

#[test]
fn the_deny_page_is_identical_regardless_of_what_was_requested() {
    assert_eq!(
        denied("bob@gmail.com", Some("owner@corp.com")),
        denied("bob@gmail.com", Some("owner@corp.com"))
    );
}

#[test]
fn the_deny_page_omits_the_request_link_without_an_owner() {
    let page = denied("bob@gmail.com", None);
    assert!(!page.contains("mailto:"));
    assert!(!page.contains("Request access"));
    assert!(page.contains("Switch account"));
}

#[test]
fn addresses_are_escaped_into_the_markup() {
    let page = denied("<script>alert(1)</script>@x.com", None);
    assert!(!page.contains("<script>alert(1)</script>"));
    assert!(page.contains("&lt;script&gt;"));
}

#[test]
fn the_interstitial_offers_google_sign_in() {
    let page = interstitial("Engineering Handbook");
    assert!(page.contains("Sign in with Google"));
    assert!(page.contains("/auth/login"));
    assert!(page.contains("Engineering Handbook"));
}

#[test]
fn both_pages_ask_not_to_be_indexed() {
    assert!(interstitial("X").contains("noindex"));
    assert!(denied("a@b.com", None).contains("noindex"));
}

#[test]
fn site_names_are_escaped() {
    let page = interstitial("<img src=x onerror=alert(1)>");
    assert!(!page.contains("<img src=x"));
    assert!(page.contains("&lt;img"));
}

fn lookup(entries: &Vec<(String, String)>, name: &str) -> Option<String> {
    env_file_get(entries, name)
}

#[test]
fn env_file_parsing_ignores_comments_and_blanks() {
    let text = "# a comment\n\n  MDSHELF_GOOGLE_CLIENT_ID = id-value \n\
                MDSHELF_GOOGLE_CLIENT_SECRET=\"quoted-secret\"\nnot-a-pair\n";
    let values = parse_env_file(text);
    assert_eq!(lookup(&values, CLIENT_ID_ENV).unwrap(), "id-value");
    assert_eq!(lookup(&values, CLIENT_SECRET_ENV).unwrap(), "quoted-secret");
    assert!(lookup(&values, "not-a-pair").is_none());
    assert_eq!(values.len(), 2);
}

#[test]
fn a_later_assignment_in_the_credentials_file_wins() {
    let values = parse_env_file("A=1\r\nB = two\r\nA=3\r\n#A=4\n");
    assert_eq!(lookup(&values, "A").unwrap(), "3");
    assert_eq!(lookup(&values, "B").unwrap(), "two");
}

#[test]
fn credentials_come_from_the_environment_before_the_file() {
    let file = "MDSHELF_GOOGLE_CLIENT_ID=file-id\nMDSHELF_GOOGLE_CLIENT_SECRET=file-secret\n";
    let both = Credentials::from_env(Some("env-id"), None, Some(file)).ok().unwrap();
    assert_eq!(both.client_id, "env-id");
    assert_eq!(both.client_secret, "file-secret");
    let from_file = Credentials::from_env(Some("  "), Some(""), Some(file)).ok().unwrap();
    assert_eq!(from_file.client_id, "file-id");
    assert_eq!(from_file.client_secret, "file-secret");
    match Credentials::from_env(Some("env-id"), None, None) {
        Err(message) => assert!(message.starts_with("MDSHELF_GOOGLE_CLIENT_SECRET is not set.")),
        Ok(_) => panic!("a missing secret must be refused"),
    }
    match Credentials::from_env(None, None, Some("")) {
        Err(message) => assert!(message.starts_with("MDSHELF_GOOGLE_CLIENT_ID is not set.")),
        Ok(_) => panic!("missing credentials must be refused"),
    }
}
