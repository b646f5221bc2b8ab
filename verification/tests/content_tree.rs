use mdshelf::acl::frontmatter::FmValue;
use mdshelf::content::page::Page;
use mdshelf::content::tree::{
    breadcrumbs, breadcrumbs_for_index_path, flatten_nav_sidebar_rows, index_row_filename,
    parent_path, prev_next, NavNode,
};
use mdshelf::content::PageMap;

fn page(url_path: &str, title: &str, is_index: bool, order: Option<i64>, modified: i64) -> Page {
    Page {
        fs_path: format!("/srv/docs/{url_path}.md"),
        rel_path: format!("{url_path}.md"),
        url_path: url_path.to_string(),
        url: if url_path.is_empty() { "/docs".to_string() } else { format!("/docs/{url_path}") },
        is_index,
        title: title.to_string(),
        filename: format!("{}.md", url_path.rsplit('/').next().unwrap()),
        modified_at_ms: modified,
        description: None,
        layout: "doc".to_string(),
        sidebar_order: order,
        draft: false,
        frontmatter: FmValue::Object(Vec::new()),
        headings: Vec::new(),
        html: String::new(),
        body: String::new(),
        assets: Vec::new(),
    }
}

fn site() -> PageMap {
    let mut pages = PageMap::new();
    let mut secret = page("secret", "Secret", false, None, 99);
    secret.draft = true;
    for p in [
        page("", "Home", true, None, 1),
        page("guide", "The Guide", true, None, 5),
        page("guide/intro", "Intro", false, Some(2), 10),
        page("guide/setup", "Setup", false, Some(1), 20),
        page("guide/advanced/tips", "Tips", false, None, 30),
        page("about", "About", false, None, 7),
        secret,
    ] {
        pages.insert(p);
    }
    pages
}

#[test]
fn the_sidebar_puts_folders_first_then_the_index_then_order() {
    let pages = site();
    let root = NavNode::build("Docs", "/docs", &pages);
    assert_eq!(root.title, "Docs");
    let top: Vec<&str> = root.children.iter().map(|c| c.slug.as_str()).collect();
    assert_eq!(top, ["guide", "about"]);
    let guide: Vec<&str> = root.children[0].children.iter().map(|c| c.slug.as_str()).collect();
    assert_eq!(guide, ["advanced", "__index__", "setup", "intro"]);
    let rows = flatten_nav_sidebar_rows(&root, &pages);
    let summary: Vec<(u32, &str, &str, i64, &str, Option<&str>, bool)> = rows
        .iter()
        .map(|r| (r.depth, r.title.as_str(), r.filename.as_str(), r.modified_at_ms, r.stable_key.as_str(), r.url.as_deref(), r.is_index))
        .collect();
    assert_eq!(
        summary,
        vec![
            (0, "Guide", "guide", 30, "guide", None, false),
            (1, "Advanced", "advanced", 30, "guide/advanced", None, false),
            (2, "Tips", "tips.md", 30, "guide/advanced/tips", Some("/docs/guide/advanced/tips"), false),
            (1, "The Guide", "guide", 5, "guide", Some("/docs/guide"), true),
            (1, "Setup", "setup.md", 20, "guide/setup", Some("/docs/guide/setup"), false),
            (1, "Intro", "intro.md", 10, "guide/intro", Some("/docs/guide/intro"), false),
            (0, "About", "about.md", 7, "about", Some("/docs/about"), false),
        ]
    );
}

#[test]
fn breadcrumbs_follow_the_url_path() {
    let pages = site();
    let tips = pages.get("guide/advanced/tips").unwrap();
    let crumbs: Vec<(String, String)> =
        breadcrumbs("Docs", "/docs", &pages, tips).into_iter().map(|c| (c.title, c.url)).collect();
    assert_eq!(
        crumbs,
        vec![
            ("Docs".to_string(), "/docs".to_string()),
            ("The Guide".to_string(), "/docs/guide".to_string()),
            ("Advanced".to_string(), "/docs/guide/advanced".to_string()),
            ("Tips".to_string(), "/docs/guide/advanced/tips".to_string()),
        ]
    );
    let home = pages.get("").unwrap();
    assert_eq!(breadcrumbs("Docs", "/docs", &pages, home).len(), 1);
}

#[test]
fn a_generated_index_has_breadcrumbs_too() {
    let pages = site();
    let crumbs: Vec<(String, String)> = breadcrumbs_for_index_path("Docs", "/", &pages, "guide/advanced/", "Advanced index")
        .into_iter()
        .map(|c| (c.title, c.url))
        .collect();
    assert_eq!(
        crumbs,
        vec![
            ("Docs".to_string(), "/".to_string()),
            ("The Guide".to_string(), "/guide".to_string()),
            ("Advanced index".to_string(), "/guide/advanced".to_string()),
        ]
    );
    assert_eq!(breadcrumbs_for_index_path("Docs", "/docs", &pages, "  ", "x").len(), 1);
}

#[test]
fn neighbours_are_siblings_in_sidebar_order() {
    let pages = site();
    let (prev, next) = prev_next(&pages, pages.get("guide/setup").unwrap());
    assert!(prev.is_none());
    assert_eq!(next.unwrap().url_path, "guide/intro");
    let (prev, next) = prev_next(&pages, pages.get("guide/intro").unwrap());
    assert_eq!(prev.unwrap().url_path, "guide/setup");
    assert!(next.is_none());
    let (prev, next) = prev_next(&pages, pages.get("about").unwrap());
    assert!(prev.is_none());
    assert_eq!(next.unwrap().title, "Home");
    let (prev, next) = prev_next(&pages, pages.get("guide").unwrap());
    assert_eq!(prev.unwrap().title, "Home");
    assert!(next.is_none());
    let mut gone = page("elsewhere/x", "X", false, None, 0);
    gone.draft = true;
    assert!(matches!(prev_next(&pages, &gone), (None, None)));
}

#[test]
fn parent_paths_and_index_labels() {
    assert_eq!(parent_path("a/b/c"), "a/b");
    assert_eq!(parent_path("a"), "");
    assert_eq!(index_row_filename(""), "index.md");
    assert_eq!(index_row_filename("guide/advanced"), "advanced");
    assert_eq!(index_row_filename("guide"), "guide");
}
