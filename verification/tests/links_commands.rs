use mdshelf::acl::frontmatter::FmValue;
use mdshelf::acl::AclBlock;
use mdshelf::auth::store::LinkRecord;
use mdshelf::config::{Config, SiteConfig};
use mdshelf::content::page::Page;
use mdshelf::content::{Loaded, Site};
use mdshelf::links::commands::{
    closest_match, mount_owns, page_url, require_auth_configured, resolve_base_url,
    resolve_target, site_for_record, spellings, BaseUrlError, TargetError,
};
use mdshelf::server::routes::Viewer;

fn config_binding(host: &str, port: u16) -> Config {
    let mut config = Config::for_test("/srv".to_string(), vec![SiteConfig::for_test("/srv/docs")]);
    config.host = host.to_string();
    config.port = port;
    config
}

#[test]
fn an_explicit_base_url_loses_its_trailing_slashes() {
    let config = config_binding("0.0.0.0", 4444);
    assert_eq!(
        resolve_base_url(&config, Some("https://docs.example.com//")).unwrap(),
        "https://docs.example.com"
    );
    assert_eq!(
        resolve_base_url(&config, Some("http://10.0.0.5:8080")).unwrap(),
        "http://10.0.0.5:8080"
    );
}

#[test]
fn an_explicit_base_url_must_be_http() {
    let config = config_binding("127.0.0.1", 4444);
    let error = resolve_base_url(&config, Some("docs.example.com/")).unwrap_err();
    assert_eq!(error, BaseUrlError::NotHttp("docs.example.com/".to_string()));
    assert_eq!(
        error.message(),
        "--base-url must start with http:// or https://; got `docs.example.com/`"
    );
}

#[test]
fn a_loopback_binding_is_its_own_base_url() {
    assert_eq!(
        resolve_base_url(&config_binding("127.0.0.1", 4444), None).unwrap(),
        "http://127.0.0.1:4444"
    );
    assert_eq!(
        resolve_base_url(&config_binding("localhost", 80), None).unwrap(),
        "http://localhost:80"
    );
}

#[test]
fn a_public_binding_needs_an_explicit_base_url() {
    let error = resolve_base_url(&config_binding("0.0.0.0", 4444), None).unwrap_err();
    assert_eq!(error, BaseUrlError::Unreachable("0.0.0.0".to_string()));
    assert!(error.message().contains("binds 0.0.0.0, which is not an address anyone can visit"));
    assert!(error.message().contains("Pass --base-url https://your.domain"));
}

#[test]
fn only_a_signed_in_viewer_has_an_address() {
    assert_eq!(Viewer::Unrestricted.email(), None);
    assert_eq!(Viewer::Anonymous.email(), None);
    assert_eq!(Viewer::Signed("ana@corp.com".to_string()).email(), Some("ana@corp.com"));
}

fn page(mount: &str, url_path: &str, draft: bool) -> Page {
    Page {
        fs_path: format!("/srv{mount}/{url_path}.md"),
        rel_path: format!("{url_path}.md"),
        url_path: url_path.to_string(),
        url: format!("{mount}/{url_path}"),
        is_index: false,
        title: url_path.to_string(),
        filename: "x.md".to_string(),
        modified_at_ms: 0,
        description: None,
        layout: "doc".to_string(),
        sidebar_order: None,
        draft,
        frontmatter: FmValue::Object(Vec::new()),
        headings: Vec::new(),
        html: String::new(),
        body: String::new(),
        assets: Vec::new(),
    }
}

fn site(mount: &str, pages: Vec<Page>) -> Site {
    let mut cfg = SiteConfig::for_test(&format!("/srv{mount}"));
    cfg.mount = Some(mount.to_string());
    cfg.color = Some("#000".to_string());
    let files = pages
        .into_iter()
        .map(|p| (p.rel_path.clone(), Loaded::Page(p, AclBlock::new())))
        .collect();
    Site::build(&cfg, files)
}

fn sites() -> Vec<Site> {
    vec![
        site("/docs", vec![page("/docs", "hr/comp", false), page("/docs", "Guide/Intro", false), page("/docs", "draft", true)]),
        site("/wiki", vec![page("/wiki", "notes", false)]),
    ]
}

#[test]
fn a_share_target_is_found_however_it_is_spelled() {
    let s = sites();
    let t = resolve_target(&s, "/docs/hr/comp").unwrap();
    assert_eq!((t.site, t.rel_path.as_str(), t.url.as_str()), (0, "hr/comp.md", "/docs/hr/comp"));
    let t = resolve_target(&s, "  hr/comp.md ").unwrap();
    assert_eq!(t.url, "/docs/hr/comp");
    let t = resolve_target(&s, "notes").unwrap();
    assert_eq!(t.site, 1);
}

#[test]
fn an_unknown_share_target_is_explained() {
    let s = sites();
    assert_eq!(resolve_target(&s, "  ").unwrap_err(), TargetError::Empty);
    let err = resolve_target(&s, "/docs/guide/intro").unwrap_err();
    assert_eq!(err, TargetError::DidYouMean("/docs/guide/intro".to_string(), "/docs/Guide/Intro".to_string()));
    assert_eq!(err.message(), "no page at `/docs/guide/intro`. Did you mean `/docs/Guide/Intro`?");
    assert_eq!(resolve_target(&s, "/elsewhere/x").unwrap_err(), TargetError::NoSite("/elsewhere/x".to_string()));
    assert_eq!(resolve_target(&s, "/docs/missing").unwrap_err(), TargetError::NoPage("/docs/missing".to_string()));
    assert_eq!(TargetError::Empty.message(), "share needs a page path");
}

#[test]
fn spellings_and_ownership() {
    let s = sites();
    assert_eq!(spellings(&s, "/docs/a/b"), vec!["docs/a/b".to_string(), "a/b".to_string()]);
    assert!(mount_owns(&s, "/docs"));
    assert!(mount_owns(&s, "/wiki/x"));
    assert!(!mount_owns(&s, "/docsx"));
    assert_eq!(closest_match(&s, "/HR/COMP/").as_deref(), Some("/docs/hr/comp"));
    assert_eq!(closest_match(&s, "//"), None);
}

#[test]
fn stored_links_find_their_site_by_root() {
    let s = sites();
    let record = LinkRecord {
        id: "abc123".to_string(),
        site: "/srv/docs".to_string(),
        path: "hr/comp.md".to_string(),
        expires_at: 0,
        created_at: 0,
        issued_by: "ana@corp.com".to_string(),
        revoked_at: None,
    };
    assert_eq!(site_for_record(&s, &record), Some(0));
    assert_eq!(page_url(&s, &record).as_deref(), Some("/docs/hr/comp"));
    let gone = LinkRecord { site: "/srv/old".to_string(), ..record };
    assert_eq!(site_for_record(&s, &gone), None);
    assert_eq!(page_url(&s, &gone), None);
}

#[test]
fn sharing_requires_sign_in() {
    let config = config_binding("127.0.0.1", 4444);
    assert!(require_auth_configured(&config).unwrap_err().starts_with("share links require Google sign-in"));
}
