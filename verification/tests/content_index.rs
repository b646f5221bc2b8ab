use mdshelf::acl::frontmatter::FmValue;
use mdshelf::content::page::Page;
use mdshelf::content::site_index::{
    build_site_index_context, build_site_index_under_prefix, SiteIndexRow, SITE_INDEX_LEAD,
};
use mdshelf::content::PageMap;

fn page(url_path: &str, title: &str, is_index: bool, draft: bool) -> Page {
    Page {
        fs_path: format!("/srv/docs/{url_path}.md"),
        rel_path: format!("{url_path}.md"),
        url_path: url_path.to_string(),
        url: if url_path.is_empty() { "/docs".to_string() } else { format!("/docs/{url_path}") },
        is_index,
        title: title.to_string(),
        filename: "x.md".to_string(),
        modified_at_ms: 0,
        description: None,
        layout: "doc".to_string(),
        sidebar_order: None,
        draft,
        frontmatter: FmValue::Object(Vec::new()),
        headings: Vec::new(),
        html: String::new(),
        body: String::new(),
        assets: Vec::new(),
    }
}

fn site() -> PageMap {
    let mut pages = PageMap::new();
    for p in [
        page("notes/2024/jan", "January", false, false),
        page("guide/setup", "Setup", false, false),
        page("", "Home", true, false),
        page("guide", "The Guide", true, false),
        page("secret", "Secret", false, true),
        page("guide/intro", "Intro", false, false),
    ] {
        assert!(pages.insert(p).is_none());
    }
    pages
}

fn summary(rows: &[SiteIndexRow]) -> Vec<(u32, bool, String, Option<String>, String)> {
    rows.iter()
        .map(|r| (r.depth, r.is_folder_heading, r.title.clone(), r.url.clone(), r.path_label.clone()))
        .collect()
}

fn row(depth: u32, heading: bool, title: &str, url: Option<&str>, label: &str) -> (u32, bool, String, Option<String>, String) {
    (depth, heading, title.to_string(), url.map(str::to_string), label.to_string())
}

#[test]
fn pages_are_kept_in_url_order_and_a_repeat_replaces() {
    let mut pages = site();
    let order: Vec<String> = pages.values().iter().map(|p| p.url_path.clone()).collect();
    assert_eq!(order, ["", "guide", "guide/intro", "guide/setup", "notes/2024/jan", "secret"]);
    let replaced = pages.insert(page("guide/intro", "Introduction", false, false));
    assert_eq!(replaced.unwrap().title, "Intro");
    assert_eq!(pages.len(), 6);
    assert_eq!(pages.get("guide/intro").unwrap().title, "Introduction");
    assert!(pages.get("guide/missing").is_none());
    assert!(pages.contains_key(""));
}

#[test]
fn the_site_index_heads_each_folder_once() {
    let ctx = build_site_index_context(&site(), "/srv/docs");
    assert_eq!(
        summary(&ctx.rows),
        vec![
            row(0, false, "The Guide", Some("/docs/guide"), "guide"),
            row(0, true, "The Guide", Some("/docs/guide"), "guide"),
            row(1, false, "Intro", Some("/docs/guide/intro"), "guide/intro"),
            row(1, false, "Setup", Some("/docs/guide/setup"), "guide/setup"),
            row(0, true, "Notes", None, "notes"),
            row(1, true, "2024", None, "notes/2024"),
            row(2, false, "January", Some("/docs/notes/2024/jan"), "notes/2024/jan"),
        ]
    );
    assert_eq!(ctx.content_root_display, "/srv/docs");
    assert_eq!(ctx.lead, SITE_INDEX_LEAD);
    assert_eq!(
        ctx.hint,
        "To replace this page, add `index.md` in `/srv/docs`. URLs omit the `.md` suffix."
    );
}

#[test]
fn a_folder_without_an_index_page_gets_a_generated_one() {
    let ctx = build_site_index_under_prefix(&site(), "/notes/", "/srv/docs").unwrap();
    assert_eq!(
        summary(&ctx.rows),
        vec![
            row(0, true, "2024", None, "notes/2024"),
            row(1, false, "January", Some("/docs/notes/2024/jan"), "notes/2024/jan"),
        ]
    );
    assert_eq!(ctx.lead, "Every published page under `notes` in this site is listed below.");
    assert_eq!(
        ctx.hint,
        "To replace this page, add `index.md` in `/srv/docs/notes`. URLs omit the `.md` suffix."
    );
    let nested = build_site_index_under_prefix(&site(), "notes/2024", "/srv/docs/").unwrap();
    assert_eq!(
        nested.hint,
        "To replace this page, add `index.md` in `/srv/docs/notes/2024`. URLs omit the `.md` suffix."
    );
}

#[test]
fn no_folder_index_is_generated_where_a_page_exists_or_nothing_is_published() {
    assert!(build_site_index_under_prefix(&site(), "guide", "/srv/docs").is_none());
    assert!(build_site_index_under_prefix(&site(), "secret", "/srv/docs").is_none());
    assert!(build_site_index_under_prefix(&site(), "nothing", "/srv/docs").is_none());
    assert!(build_site_index_under_prefix(&site(), "//", "/srv/docs").is_none());
    let mut drafts = PageMap::new();
    drafts.insert(page("hidden/a", "A", false, true));
    assert!(build_site_index_under_prefix(&drafts, "hidden", "/srv/docs").is_none());
}
