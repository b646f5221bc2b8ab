use mdshelf::server::routes::{site_answer, SiteAnswer};
use mdshelf::server::routes::{page_answer, unmatched_answer, PageAnswer};
use mdshelf::cli::{grant_relative, grant_target, GrantTarget, TargetKind};
use mdshelf::content::page::page_source;
use mdshelf::cli::find_page_by_url_path;
use mdshelf::cli::{locate_target, target_relative};
use mdshelf::acl::frontmatter::FmValue;
use mdshelf::acl::AclBlock;
use mdshelf::config::SiteConfig;
use mdshelf::content::page::Page;
use mdshelf::content::{Loaded, Site};

fn page(url_path: &str, title: &str, is_index: bool) -> Page {
    Page {
        fs_path: format!("/srv/docs/{url_path}.md"),
        rel_path: format!("{url_path}.md"),
        url_path: url_path.to_string(),
        url: if url_path.is_empty() { "/docs".to_string() } else { format!("/docs/{url_path}") },
        is_index,
        title: title.to_string(),
        filename: "x.md".to_string(),
        modified_at_ms: 0,
        description: None,
        layout: "doc".to_string(),
        sidebar_order: None,
        draft: false,
        frontmatter: FmValue::Object(Vec::new()),
        headings: Vec::new(),
        html: String::new(),
        body: String::new(),
        assets: Vec::new(),
    }
}

fn block(allow: &[&str], deny: &[&str]) -> AclBlock {
    AclBlock {
        allow: allow.iter().map(|s| s.to_string()).collect(),
        deny: deny.iter().map(|s| s.to_string()).collect(),
        errors: Vec::new(),
    }
}

fn built() -> Site {
    let mut cfg = SiteConfig::for_test("/srv/docs");
    cfg.color = Some("#336699".to_string());
    Site::build(
        &cfg,
        vec![
            ("index.md".to_string(), Loaded::Page(page("", "Home", true), block(&["team@corp.com"], &[]))),
            (".git/notes.md".to_string(), Loaded::Page(page(".git/notes", "Hidden", false), AclBlock::new())),
            ("hr/index.md".to_string(), Loaded::Failed("invalid YAML".to_string())),
            ("hr/pay.md".to_string(), Loaded::Page(page("hr/pay", "Pay", false), AclBlock::new())),
            ("guide.md".to_string(), Loaded::Page(page("guide", "Guide A", false), block(&[], &["temp@corp.com"]))),
            ("guide/index.md".to_string(), Loaded::Page(page("guide", "Guide B", true), block(&[], &["intern@corp.com"]))),
        ],
    )
}

#[test]
fn a_site_keeps_the_later_of_two_pages_at_one_path() {
    let site = built();
    assert_eq!(site.mount, "/docs");
    assert_eq!(site.title, "Docs");
    assert_eq!(site.color, "#336699");
    let paths: Vec<&str> = site.pages().iter().map(|p| p.url_path.as_str()).collect();
    assert_eq!(paths, ["", "guide", "hr/pay"]);
    assert_eq!(site.page("guide").unwrap().title, "Guide B");
    assert!(site.page(".git/notes").is_none());
}

#[test]
fn an_unreadable_index_file_closes_its_folder() {
    let site = built();
    assert!(site.allows_path("index.md", Some("team@corp.com")));
    assert!(!site.allows_path("hr/pay.md", Some("team@corp.com")));
    assert!(site.allows_path("hr/pay.md", None));
    let poisoned = site.acl().poisoned();
    assert_eq!(poisoned.len(), 1);
    assert_eq!(poisoned[0].0, "hr/index.md");
    assert_eq!(poisoned[0].1.message, "this file could not be read: invalid YAML");
}

#[test]
fn both_rules_of_a_shadowed_page_stay_in_force() {
    let site = built();
    assert!(!site.allows_path("guide/setup.md", Some("intern@corp.com")));
    assert!(!site.allows_path("guide.md", Some("temp@corp.com")));
    assert!(site.allows_path("guide/setup.md", Some("team@corp.com")));
}

#[test]
fn a_site_builds_its_sidebar() {
    let site = built();
    let titles: Vec<&str> = site.nav_flat().iter().map(|r| r.title.as_str()).collect();
    assert_eq!(titles, ["Guide", "Guide B", "Hr", "Pay"]);
}

#[test]
fn a_viewer_sees_only_what_the_rules_let_them_read() {
    let site = built();
    let everyone = site.view(None);
    assert_eq!(everyone.pages.len(), 3);
    let team = site.view(Some("team@corp.com"));
    let paths: Vec<&str> = team.pages.values().iter().map(|p| p.url_path.as_str()).collect();
    assert_eq!(paths, ["", "guide"]);
    let titles: Vec<&str> = team.nav_flat.iter().map(|r| r.title.as_str()).collect();
    assert_eq!(titles, ["Guide", "Guide B"]);
    let stranger = site.view(Some("stranger@elsewhere.com"));
    assert_eq!(stranger.pages.len(), 0);
    assert!(stranger.nav_flat.is_empty());
}

#[test]
fn a_url_path_finds_its_page_or_its_folder_index() {
    let site = built();
    assert_eq!(find_page_by_url_path(&site, "/hr/pay/").as_deref(), Some("hr/pay.md"));
    assert_eq!(find_page_by_url_path(&site, "hr/pay.md").as_deref(), Some("hr/pay.md"));
    assert_eq!(find_page_by_url_path(&site, "guide").as_deref(), Some("guide.md"));
    assert_eq!(find_page_by_url_path(&site, "hr"), None);
    assert_eq!(find_page_by_url_path(&site, "nothing"), None);
}

#[test]
fn a_target_is_a_mounted_url_then_a_path_then_a_new_file() {
    let sites = vec![built()];
    assert_eq!(locate_target(&sites, "/docs/hr/pay", &vec![None]), Ok((0, "hr/pay.md".to_string())));
    assert_eq!(target_relative("/HR/pay.md"), "HR/pay.md");
    // The disk's spelling is what the rules are keyed on.
    assert_eq!(
        locate_target(&sites, "/HR/pay.md", &vec![Some("hr/pay.md".to_string())]),
        Ok((0, "hr/pay.md".to_string()))
    );
    assert_eq!(locate_target(&sites, "guide", &vec![None]), Ok((0, "guide.md".to_string())));
    assert_eq!(
        locate_target(&sites, "/nothing/here.md", &vec![None]),
        Ok((0, "nothing/here.md".to_string()))
    );
    assert!(locate_target(&Vec::new(), "x", &Vec::new()).is_err());
}

#[test]
fn a_grant_goes_to_the_file_the_folder_index_or_a_new_index() {
    let sites = vec![built()];
    assert_eq!(grant_relative("/hr/pay.md/"), "hr/pay.md");
    assert_eq!(grant_target(&sites, "hr/pay.md", &vec![TargetKind::File]), GrantTarget::Existing(0, "hr/pay.md".to_string()));
    assert_eq!(
        grant_target(&sites, "/hr/", &vec![TargetKind::Folder(false, true, true)]),
        GrantTarget::Existing(0, "hr/README.md".to_string())
    );
    assert_eq!(
        grant_target(&sites, "team-notes", &vec![TargetKind::Folder(false, false, false)]),
        GrantTarget::CreateIndex(0, "team-notes/index.md".to_string(), "Team Notes".to_string())
    );
    assert_eq!(grant_target(&sites, "hr/pay", &vec![TargetKind::Absent]), GrantTarget::Existing(0, "hr/pay.md".to_string()));
    assert_eq!(grant_target(&sites, "nowhere", &vec![TargetKind::Absent]), GrantTarget::NotFound);
}

#[test]
fn unparseable_frontmatter_makes_a_file_unreadable() {
    let message = page_source("/srv/docs/hr/index.md", "---\nallow: [ana@corp.com\n---\n# HR\n")
        .expect_err("the frontmatter does not parse");
    assert!(message.starts_with("front matter in /srv/docs/hr/index.md: "), "{message}");
}

#[test]
fn a_draft_is_answered_like_a_missing_page() {
    let mut draft = page("notes", "Notes", false);
    draft.draft = true;
    let mut cfg = SiteConfig::for_test("/srv/docs");
    cfg.color = Some("#10b981".to_string());
    let site = Site::build(
        &cfg,
        vec![
            ("guide.md".to_string(), Loaded::Page(page("guide", "Guide", false), AclBlock::new())),
            ("notes.md".to_string(), Loaded::Page(draft, AclBlock::new())),
        ],
    );
    let view = site.view(None);
    assert_eq!(page_answer(&view, "guide", false), PageAnswer::Serve("guide".to_string()));
    assert_eq!(page_answer(&view, "/guide.MD", true), PageAnswer::Serve("guide".to_string()));
    assert_eq!(page_answer(&view, "notes", false), PageAnswer::NotFound);
    assert_eq!(page_answer(&view, "notes", true), PageAnswer::Deny);
    assert_eq!(page_answer(&view, "nothing", true), PageAnswer::Continue);
    assert_eq!(unmatched_answer(true), PageAnswer::Deny);
    assert_eq!(unmatched_answer(false), PageAnswer::NotFound);
}

#[test]
fn a_signed_in_viewer_gets_one_refusal_for_everything_they_cannot_read() {
    let site = built();
    // Only the root page is open to team@corp.com; everything else is refused alike.
    let team = site.view(Some("team@corp.com"));
    let answer = |rel: &str, file: Option<&str>| site_answer(&site, &team, rel, Some("team@corp.com"), file.map(str::to_string));
    assert_eq!(answer("", None), SiteAnswer::Page("".to_string()));
    assert_eq!(answer("hr/pay", None), SiteAnswer::Deny);
    assert_eq!(answer("no/such/page", None), SiteAnswer::Deny);
    assert_eq!(answer("img/chart.png", Some("img/chart.png")), SiteAnswer::File("img/chart.png".to_string()));
    // Without sign-in, what is missing is not found.
    let open = site.view(None);
    let anon = |rel: &str, file: Option<&str>| site_answer(&site, &open, rel, None, file.map(str::to_string));
    assert_eq!(anon("hr/pay", None), SiteAnswer::Page("hr/pay".to_string()));
    assert_eq!(anon("hr", None), SiteAnswer::FolderListing);
    assert_eq!(anon("nothing", None), SiteAnswer::NotFound);
    // A viewer who may read nothing is refused even at the root.
    let stranger = site.view(Some("stranger@corp.com"));
    assert_eq!(site_answer(&site, &stranger, "", Some("stranger@corp.com"), None), SiteAnswer::Deny);
}
