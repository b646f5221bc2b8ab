use mdshelf::acl::frontmatter::FmValue;
use mdshelf::acl::AclBlock;
use mdshelf::config::SiteConfig;
use mdshelf::content::page::Page;
use mdshelf::content::{Loaded, Site};
use mdshelf::links::LinkSettings;
use mdshelf::server::share::{share_request, ShareAnswer};

fn page(mount: &str, url_path: &str) -> Page {
    Page {
        fs_path: format!("/srv{mount}/{url_path}.md"),
        rel_path: format!("{url_path}.md"),
        url_path: url_path.to_string(),
        url: format!("{mount}/{url_path}"),
        is_index: false,
        title: url_path.to_string(),
        filename: "x.md".to_string(),
        modified_at_ms: 0,
        description: None,
        layout: "doc".to_string(),
        sidebar_order: None,
        draft: false,
        frontmatter: FmValue::Object(Vec::new()),
        headings: Vec::new(),
        html: String::new(),
        body: String::new(),
        assets: Vec::new(),
    }
}

fn sites() -> Vec<Site> {
    let mut cfg = SiteConfig::for_test("/srv/docs");
    cfg.mount = Some("/docs".to_string());
    cfg.color = Some("#000".to_string());
    let mut rules = AclBlock::new();
    rules.allow = vec!["ana@corp.com".to_string()];
    let comp = page("/docs", "hr/comp");
    let notes = page("/docs", "notes");
    let files = vec![
        (comp.rel_path.clone(), Loaded::Page(comp, rules)),
        (notes.rel_path.clone(), Loaded::Page(notes, AclBlock::new())),
    ];
    vec![Site::build(&cfg, files)]
}

const NOW: i64 = 1_700_000_000_000;

fn ask(issuer: Option<&str>, url: &str, for_duration: Option<&str>, until: Option<&str>) -> ShareAnswer {
    share_request(true, issuer, &LinkSettings::default(), &sites(), url, for_duration, until, NOW)
}

#[test]
fn sharing_needs_sign_in_to_be_configured_and_used() {
    let answer = share_request(false, Some("ana@corp.com"), &LinkSettings::default(), &sites(), "/docs/hr/comp", None, None, NOW);
    assert_eq!(answer, ShareAnswer::Unavailable);
    assert_eq!(ask(None, "/docs/hr/comp", None, None), ShareAnswer::SignIn);
}

#[test]
fn a_reader_mints_in_their_own_name() {
    assert_eq!(
        ask(Some("ana@corp.com"), "/docs/hr/comp", Some("2h"), None),
        ShareAnswer::Mint {
            site: "/srv/docs".to_string(),
            path: "hr/comp.md".to_string(),
            expires_at: NOW + 7_200_000,
            issuer: "ana@corp.com".to_string(),
        }
    );
    assert_eq!(
        ask(Some("ana@corp.com"), "hr/comp.md", None, None),
        ShareAnswer::Mint {
            site: "/srv/docs".to_string(),
            path: "hr/comp.md".to_string(),
            expires_at: NOW + 86_400_000,
            issuer: "ana@corp.com".to_string(),
        }
    );
}

#[test]
fn an_unreadable_page_is_answered_like_a_missing_one() {
    let missing = ask(Some("bob@corp.com"), "/docs/hr/nothing-here", None, None);
    assert_eq!(missing, ShareAnswer::NotFound);
    assert_eq!(ask(Some("bob@corp.com"), "/docs/hr/comp", None, None), missing);
    assert_eq!(ask(Some("ana@corp.com"), "/docs/notes", None, None), missing);
}

#[test]
fn switched_off_links_are_not_found() {
    let mut links = LinkSettings::default();
    links.enabled = false;
    let answer = share_request(true, Some("ana@corp.com"), &links, &sites(), "/docs/hr/comp", None, None, NOW);
    assert_eq!(answer, ShareAnswer::NotFound);
}

#[test]
fn a_refused_expiry_says_why() {
    assert_eq!(
        ask(Some("ana@corp.com"), "/docs/hr/comp", Some("2h"), Some("2030-01-01")),
        ShareAnswer::BadRequest("--for and --until say the same thing two different ways; pass one".to_string())
    );
    match ask(Some("ana@corp.com"), "/docs/hr/comp", Some("90d"), None) {
        ShareAnswer::BadRequest(m) => assert!(m.starts_with("that would outlive the "), "{m}"),
        other => panic!("expected a refusal, got {other:?}"),
    }
}
