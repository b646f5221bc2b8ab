use mdshelf::content::site_index::{SiteIndexContext, SiteIndexRow};
use mdshelf::content::tree::SidebarNavRow;
use mdshelf::export::{remap_nav_flat, remap_site_index};
use mdshelf::acl::frontmatter::FmValue;
use mdshelf::acl::AclBlock;
use mdshelf::config::SiteConfig;
use mdshelf::content::page::Page;
use mdshelf::content::{Loaded, PageMap, Site};
use mdshelf::export::{
    export_url, folder_index_description, folder_index_keys, folder_index_title,
    resolve_export_viewer, select_sites, site_list_entries_for_export, site_matches_filter,
    static_file_target, url_to_output_path, ExportViewerError,
};

fn page(mount: &str, url_path: &str, title: &str, draft: bool) -> Page {
    Page {
        fs_path: format!("/srv/{url_path}.md"),
        rel_path: format!("{url_path}.md"),
        url_path: url_path.to_string(),
        url: format!("{mount}/{url_path}"),
        is_index: false,
        title: title.to_string(),
        filename: "x.md".to_string(),
        modified_at_ms: 0,
        description: None,
        layout: "doc".to_string(),
        sidebar_order: None,
        draft,
        frontmatter: FmValue::Object(Vec::new()),
        headings: Vec::new(),
        html: String::new(),
        body: String::new(),
        assets: Vec::new(),
    }
}

fn site(mount: &str, title: &str, ruled: bool) -> Site {
    let mut cfg = SiteConfig::for_test("/srv");
    cfg.mount = Some(mount.to_string());
    cfg.title = Some(title.to_string());
    cfg.color = Some("#000".to_string());
    let rules = if ruled {
        AclBlock { allow: vec!["ana@corp.com".to_string()], deny: Vec::new(), errors: Vec::new() }
    } else {
        AclBlock::new()
    };
    Site::build(
        &cfg,
        vec![
            ("index.md".to_string(), Loaded::Page(page(mount, "", "Home", false), rules)),
            ("notes/a.md".to_string(), Loaded::Page(page(mount, "notes/a", "A", false), AclBlock::new())),
        ],
    )
}

#[test]
fn output_paths_and_urls() {
    assert_eq!(url_to_output_path("/out", "/"), "/out/index.html");
    assert_eq!(url_to_output_path("/out/", "/docs/guide"), "/out/docs/guide/index.html");
    assert_eq!(export_url("/docs", "/", "/docs/guide"), "/guide");
    assert_eq!(export_url("/docs", "/docs", "/docs/guide"), "/docs/guide");
    assert_eq!(export_url("/", "/", "/guide"), "/guide");
    assert_eq!(static_file_target("/out", "/docs", false, "img/a.png"), "/out/docs/img/a.png");
    assert_eq!(static_file_target("/out", "/docs", true, "img/a.png"), "/out/img/a.png");
    assert_eq!(static_file_target("/out", "/", false, "img/a.png"), "/out/img/a.png");
}

#[test]
fn generated_folder_pages_are_titled_after_the_folder() {
    assert_eq!(folder_index_title("guides/02-getting-started"), "Getting Started");
    assert_eq!(folder_index_title("notes"), "Notes");
    assert_eq!(folder_index_description("notes"), "Auto-generated listing of pages under `notes`.");
}

#[test]
fn sites_are_selected_by_mount_or_title_once_each() {
    let sites = vec![site("/docs", "Docs", false), site("/wiki", "Team Wiki", false)];
    assert_eq!(select_sites(&sites, &Vec::new()).unwrap(), vec![0, 1]);
    let filters = vec!["wiki".to_string(), "team wiki".to_string(), "/docs".to_string()];
    assert_eq!(select_sites(&sites, &filters).unwrap(), vec![1, 0]);
    assert_eq!(
        select_sites(&sites, &vec!["nope".to_string()]).unwrap_err(),
        "no site matches \"nope\""
    );
    assert!(site_matches_filter("/docs", "Docs", " DOCS "));
    assert!(!site_matches_filter("/docs", "Docs", "   "));
}

#[test]
fn a_ruled_vault_needs_a_viewer_to_export() {
    let sites = vec![site("/docs", "Docs", true), site("/wiki", "Wiki", true), site("/pub", "Pub", false)];
    match resolve_export_viewer(&sites, &vec![0, 1, 2], None) {
        Err(ExportViewerError::NeedsViewer(titles)) => assert_eq!(titles, "Docs, Wiki"),
        other => panic!("unexpected {other:?}"),
    }
    assert_eq!(resolve_export_viewer(&sites, &vec![2], None), Ok(None));
    assert_eq!(
        resolve_export_viewer(&sites, &vec![0], Some("  Ana@Corp.com ")),
        Ok(Some("ana@corp.com".to_string()))
    );
    let err = resolve_export_viewer(&sites, &vec![0], Some("nobody")).unwrap_err();
    assert_eq!(err, ExportViewerError::InvalidEmail("nobody".to_string()));
    assert_eq!(err.message(), "--as `nobody` is not a valid email address");
}

#[test]
fn the_home_page_lists_only_what_the_viewer_receives() {
    let sites = vec![site("/docs", "Docs", true), site("/pub", "Pub", false)];
    let entries = site_list_entries_for_export(&sites, &vec![0, 1], false, Some("ana@corp.com"));
    let view: Vec<(String, String, usize)> =
        entries.iter().map(|e| (e.title.clone(), e.mount.clone(), e.page_count)).collect();
    assert_eq!(view, vec![("Docs".to_string(), "/docs".to_string(), 2)]);
    let all = site_list_entries_for_export(&sites, &vec![1], true, None);
    assert_eq!(all[0].mount, "/");
    assert_eq!(all[0].url, "/");
    assert_eq!(all[0].page_count, 2);
}

#[test]
fn folders_without_a_page_get_a_generated_listing() {
    let mut pages = PageMap::new();
    pages.insert(page("/docs", "", "Home", false));
    pages.insert(page("/docs", "guide", "Guide", false));
    pages.insert(page("/docs", "guide/setup/linux", "Linux", false));
    pages.insert(page("/docs", "notes/a", "A", false));
    pages.insert(page("/docs", "drafts/x", "X", true));
    assert_eq!(folder_index_keys(&pages, "/srv"), vec!["guide/setup", "notes"]);
}

#[test]
fn a_flat_export_moves_sidebar_and_index_urls_to_the_root() {
    let rows = vec![
        SidebarNavRow {
            depth: 0,
            title: "Guide".to_string(),
            filename: "guide.md".to_string(),
            modified_at_ms: 5,
            stable_key: "guide".to_string(),
            url: Some("/docs/guide".to_string()),
            is_index: false,
        },
        SidebarNavRow {
            depth: 1,
            title: "HR".to_string(),
            filename: "hr".to_string(),
            modified_at_ms: 0,
            stable_key: "hr/".to_string(),
            url: None,
            is_index: false,
        },
    ];
    let moved = remap_nav_flat(&rows, "/docs", "/");
    assert_eq!(moved[0].url.as_deref(), Some("/guide"));
    assert_eq!(moved[0].title, "Guide");
    assert_eq!(moved[1].url, None);
    let kept = remap_nav_flat(&rows, "/docs", "/docs");
    assert_eq!(kept[0].url.as_deref(), Some("/docs/guide"));

    let index = SiteIndexContext {
        rows: vec![SiteIndexRow {
            depth: 0,
            is_folder_heading: false,
            title: "Guide".to_string(),
            description: Some("How to".to_string()),
            url: Some("/docs/guide".to_string()),
            path_label: "guide.md".to_string(),
        }],
        content_root_display: "/srv/docs".to_string(),
        lead: "lead".to_string(),
        hint: "hint".to_string(),
    };
    let moved = remap_site_index(&index, "/docs", "/");
    assert_eq!(moved.rows[0].url.as_deref(), Some("/guide"));
    assert_eq!(moved.rows[0].description.as_deref(), Some("How to"));
    assert_eq!(moved.lead, "lead");
}
