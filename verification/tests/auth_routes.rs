use mdshelf::auth::oidc::summarize_error;
use mdshelf::auth::routes::{cleared_cookie, session_cookie};
use mdshelf::auth::AuthSettings;

fn settings(public_url: &str) -> AuthSettings {
    AuthSettings {
        session_max_age: 30 * 86_400,
        audit_retention: 90 * 86_400,
        owner_email: None,
        public_url: public_url.to_string(),
        database_path: "/tmp/mdshelf.db".to_string(),
        key_file_path: "/tmp/secret.key".to_string(),
    }
}

#[test]
fn a_session_cookie_on_an_https_origin_is_marked_secure() {
    let cookie = session_cookie(&settings("https://docs.acme.com"), "abc".into());
    assert!(cookie.secure, "got: {cookie:?}");
    assert!(cookie.http_only, "got: {cookie:?}");
    assert!(cookie.same_site_lax, "got: {cookie:?}");
    assert_eq!(cookie.name, "mdshelf_session");
    assert_eq!(cookie.value, "abc");
    assert_eq!(cookie.max_age_secs, 30 * 86_400);
}

#[test]
fn a_session_cookie_on_a_loopback_origin_is_not_marked_secure() {
    let cookie = session_cookie(&settings("http://127.0.0.1:4444"), "abc".into());
    assert!(!cookie.secure, "got: {cookie:?}");
    assert!(cookie.http_only, "got: {cookie:?}");
}

#[test]
fn the_clearing_cookie_matches_the_attributes_it_must_overwrite() {
    for origin in ["https://docs.acme.com", "http://127.0.0.1:4444"] {
        let live = session_cookie(&settings(origin), "abc".into());
        let cleared = cleared_cookie(&settings(origin));
        assert_eq!(live.secure, cleared.secure, "Secure differs between the live and clearing cookie for {origin}");
        assert_eq!(live.name, cleared.name);
        assert_eq!(cleared.path, "/");
        assert_eq!(cleared.max_age_secs, 0, "got: {cleared:?}");
        assert_eq!(cleared.value, "");
    }
}

#[test]
fn summarize_error_extracts_oauth_code() {
    assert_eq!(
        summarize_error(
            r#"{"error":"invalid_grant","error_description":"Token has been expired or revoked."}"#
        ),
        "invalid_grant"
    );
}

#[test]
fn summarize_error_handles_non_json() {
    assert_eq!(summarize_error("<html>502</html>"), "unspecified error");
}

#[test]
fn summarize_error_needs_a_string_code() {
    assert_eq!(summarize_error(r#"{"error":42}"#), "unspecified error");
    assert_eq!(summarize_error(r#"{"other":"x"}"#), "unspecified error");
}

#[test]
fn summarize_error_reads_only_a_top_level_string_member() {
    assert_eq!(summarize_error(r#"["error"]"#), "unspecified error");
    assert_eq!(summarize_error(r#"{"error_description":"x","error":"invalid_client"}"#), "invalid_client");
    assert_eq!(summarize_error(r#"{"nested":{"error":"no"}}"#), "unspecified error");
}
