use mdshelf::export::{normalize_mount, relative_asset_prefix, remap_mount_url, rewrite_asset_urls};

#[test]
fn relative_asset_prefix_at_root() {
    let output = "/dist";
    let html = "/dist/index.html";
    assert_eq!(relative_asset_prefix(html, output), "assets/");
}

#[test]
fn relative_asset_prefix_nested() {
    let output = "/dist";
    let html = "/dist/docs/guide/intro/index.html";
    assert_eq!(relative_asset_prefix(html, output), "../../../assets/");
}

#[test]
fn rewrite_asset_urls_uses_relative_paths() {
    let output = "/dist";
    let html_path = "/dist/docs/index.html";
    let input = r#"<link href="/__assets/css/main.css"><link href="/__mdshelf/syntax.css">"#;
    let out = rewrite_asset_urls(input, html_path, output);
    assert!(out.contains(r#"href="../assets/css/main.css""#));
    assert!(out.contains(r#"href="../assets/syntax-highlight.css""#));
}

#[test]
fn normalize_mount_adds_leading_slash() {
    assert_eq!(normalize_mount("docs"), "/docs");
    assert_eq!(normalize_mount("/docs"), "/docs");
    assert_eq!(normalize_mount("/"), "/");
}

#[test]
fn remap_mount_url_strips_site_prefix() {
    assert_eq!(remap_mount_url("/docs/welcome", "/docs", "/"), "/welcome");
    assert_eq!(remap_mount_url("/docs", "/docs", "/"), "/");
}

#[test]
fn urls_outside_the_mount_are_kept() {
    assert_eq!(remap_mount_url("/other/page", "/docs", "/"), "/other/page");
    assert_eq!(remap_mount_url("/docs/a", "/docs", "/docs"), "/docs/a");
    assert_eq!(remap_mount_url("/docs/a", "/docs", "/wiki"), "/wiki/a");
}
