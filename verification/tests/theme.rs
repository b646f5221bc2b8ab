use mdshelf::config::{Config, SiteConfig};
use mdshelf::render::templates::TemplateEntry;
use mdshelf::theme::{is_template_path, sanitize_relative, ThemeError, ThemeStack};

fn site(path: &str, mount: &str, theme: Option<&str>) -> SiteConfig {
    let mut s = SiteConfig::for_test(path);
    s.mount = Some(mount.to_string());
    s.theme = theme.map(str::to_string);
    s
}

fn config(global: Option<&str>, sites: Vec<SiteConfig>) -> Config {
    let mut c = Config::for_test("/srv".to_string(), vec![SiteConfig::for_test("/srv/docs")]);
    c.theme.directory = global.map(str::to_string);
    c.sites = sites;
    c
}

fn entry(name: &str, source: &str) -> TemplateEntry {
    TemplateEntry { logical_name: name.to_string(), source: source.to_string(), on_disk: None }
}

fn stack() -> ThemeStack {
    let c = config(
        Some("/themes/global"),
        vec![
            site("/srv/wiki", "/wiki", Some("/themes/wiki")),
            site("/srv/docs", "/docs", Some("/themes/docs")),
            site("/srv/plain", "/plain", None),
        ],
    );
    ThemeStack::from_config(&c, true, &vec![true, true, true]).unwrap()
}

#[test]
fn per_site_overrides_are_kept_in_mount_order() {
    let t = stack();
    assert_eq!(t.global_override.as_deref(), Some("/themes/global"));
    assert_eq!(
        t.per_site_overrides,
        vec![
            ("/docs".to_string(), "/themes/docs".to_string()),
            ("/wiki".to_string(), "/themes/wiki".to_string())
        ]
    );
    assert_eq!(t.watch_dirs(), vec!["/themes/global", "/themes/docs", "/themes/wiki"]);
}

#[test]
fn a_missing_theme_directory_is_refused() {
    let c = config(Some("/themes/global"), vec![site("/srv/docs", "/docs", Some("/gone"))]);
    let err = ThemeStack::from_config(&c, false, &vec![false]).unwrap_err();
    assert_eq!(err, ThemeError::GlobalMissing("/themes/global".to_string()));
    assert_eq!(err.message(), "global theme directory /themes/global does not exist");
    let err = ThemeStack::from_config(&c, true, &vec![false]).unwrap_err();
    assert_eq!(err, ThemeError::SiteMissing("/gone".to_string(), "/docs".to_string()));
    assert_eq!(err.message(), "per-site theme directory /gone for /docs does not exist");
}

#[test]
fn template_layers_override_by_name() {
    let t = stack();
    let merged = t.template_files(
        vec![entry("layouts/doc.html", "builtin doc"), entry("layouts/home.html", "builtin home"), entry("assets/app.css", "css")],
        vec![entry("layouts/doc.html", "global doc"), entry("README.md", "not a template")],
        vec![vec![entry("partials/nav.html", "docs nav")], vec![entry("layouts/doc.xml", "wiki feed")]],
    );
    let names: Vec<(String, String)> =
        merged.iter().map(|e| (e.logical_name.clone(), e.source.clone())).collect();
    assert_eq!(
        names,
        vec![
            ("__sitedocs/partials/nav.html".to_string(), "docs nav".to_string()),
            ("__sitewiki/layouts/doc.xml".to_string(), "wiki feed".to_string()),
            ("layouts/doc.html".to_string(), "global doc".to_string()),
            ("layouts/home.html".to_string(), "builtin home".to_string()),
        ]
    );
}

#[test]
fn only_layouts_and_partials_are_templates() {
    assert!(is_template_path("layouts/doc.html"));
    assert!(is_template_path("partials/footer.txt"));
    assert!(is_template_path("layouts/feed.xml"));
    assert!(!is_template_path("assets/app.css"));
    assert!(!is_template_path("layouts/doc.css"));
    assert!(!is_template_path("mylayouts/doc.html"));
}

#[test]
fn asset_paths_are_sanitised() {
    assert_eq!(sanitize_relative("/assets/css/main.css").as_deref(), Some("assets/css/main.css"));
    assert_eq!(sanitize_relative("assets/app.js").as_deref(), Some("assets/app.js"));
    assert_eq!(sanitize_relative("assets/../secret"), None);
    assert_eq!(sanitize_relative("assets//x"), None);
    assert_eq!(sanitize_relative("./x"), None);
    assert_eq!(sanitize_relative("///"), None);
    assert_eq!(sanitize_relative(""), None);
}

#[test]
fn assets_resolve_site_first_then_global_then_builtin() {
    let t = stack();
    let disk = |path: &String| -> Option<Vec<u8>> {
        match path.as_str() {
            "/themes/docs/assets/site.css" => Some(b"docs".to_vec()),
            "/themes/global/assets/site.css" => Some(b"global".to_vec()),
            "/themes/global/assets/only-global.css" => Some(b"only global".to_vec()),
            _ => None,
        }
    };
    let builtin = |path: &String| -> Option<Vec<u8>> {
        if path == "assets/builtin.css" { Some(b"builtin".to_vec()) } else { None }
    };
    let a = t.resolve_asset(Some("/docs"), "/assets/site.css", disk, builtin).unwrap();
    assert_eq!(a.bytes, b"docs");
    assert_eq!(a.on_disk.as_deref(), Some("/themes/docs/assets/site.css"));
    let b = t.resolve_asset(Some("/wiki"), "assets/site.css", disk, builtin).unwrap();
    assert_eq!(b.bytes, b"global");
    let c = t.resolve_asset(None, "assets/only-global.css", disk, builtin).unwrap();
    assert_eq!(c.bytes, b"only global");
    let d = t.resolve_asset(Some("/docs"), "assets/builtin.css", disk, builtin).unwrap();
    assert_eq!(d.bytes, b"builtin");
    assert!(d.on_disk.is_none());
    assert!(t.resolve_asset(Some("/docs"), "assets/../site.css", disk, builtin).is_none());
    assert!(t.resolve_asset(Some("/docs"), "assets/none.css", disk, builtin).is_none());
}
