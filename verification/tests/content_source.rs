use mdshelf::content::source::pick_entry;
use mdshelf::content::source::{
    is_markdown_path, is_theme_watch_path, path_has_noise_component, path_segment_is_noise,
    relative_path_has_hidden_component, should_trigger_rebuild, ChangeKind,
};

fn roots(paths: &[&str]) -> Vec<String> {
    paths.iter().map(|p| p.to_string()).collect()
}

#[test]
fn ignores_build_artifact_paths() {
    assert!(!should_trigger_rebuild(
        "/tmp/site/target/debug/readme.md",
        ChangeKind::Modified,
        &roots(&["/tmp/site"]),
        &roots(&[])
    ));
}

#[test]
fn accepts_markdown_in_site_root() {
    assert!(should_trigger_rebuild(
        "/tmp/site/guide/readme.md",
        ChangeKind::Modified,
        &roots(&["/tmp/site"]),
        &roots(&[])
    ));
}

#[test]
fn accepts_new_subfolder_creation() {
    assert!(should_trigger_rebuild(
        "/tmp/site/guide",
        ChangeKind::Created,
        &roots(&["/tmp/site"]),
        &roots(&[])
    ));
}

#[test]
fn accepts_subfolder_removal() {
    assert!(should_trigger_rebuild(
        "/tmp/site/guide",
        ChangeKind::Removed,
        &roots(&["/tmp/site"]),
        &roots(&[])
    ));
}

#[test]
fn ignores_non_markdown_site_file_modifications() {
    assert!(!should_trigger_rebuild(
        "/tmp/site/src/main.rs",
        ChangeKind::Modified,
        &roots(&["/tmp/site"]),
        &roots(&[])
    ));
}

#[test]
fn accepts_non_markdown_site_file_creation() {
    assert!(should_trigger_rebuild(
        "/tmp/site/logo.png",
        ChangeKind::Created,
        &roots(&["/tmp/site"]),
        &roots(&[])
    ));
}

#[test]
fn accepts_theme_template_changes() {
    assert!(should_trigger_rebuild(
        "/tmp/theme/layouts/doc.html",
        ChangeKind::Modified,
        &roots(&[]),
        &roots(&["/tmp/theme"])
    ));
}

#[test]
fn accepts_markdown_under_dot_parent_directory() {
    assert!(should_trigger_rebuild(
        "/Users/patryk/.config/mdshelf/content/guide/readme.md",
        ChangeKind::Created,
        &roots(&["/Users/patryk/.config/mdshelf/content"]),
        &roots(&[])
    ));
}

#[test]
fn accepts_new_markdown_file_creation() {
    assert!(should_trigger_rebuild(
        "/tmp/site/new-page.md",
        ChangeKind::Created,
        &roots(&["/tmp/site"]),
        &roots(&[])
    ));
}

#[test]
fn path_predicates_read_components_not_text() {
    assert!(relative_path_has_hidden_component("a/.git/config"));
    assert!(!relative_path_has_hidden_component("./a/b.md"));
    assert!(!relative_path_has_hidden_component("../a"));
    assert!(path_segment_is_noise("node_modules"));
    assert!(path_segment_is_noise(".cache"));
    assert!(!path_segment_is_noise("docs"));
    assert!(path_has_noise_component("/srv/site/build/x.md"));
    assert!(!path_has_noise_component("/srv/site/builds/x.md"));
    assert!(is_markdown_path("guide/Intro.MD"));
    assert!(is_markdown_path("a.markdown"));
    assert!(!is_markdown_path(".md"));
    assert!(!is_markdown_path("notes.txt"));
    assert!(is_theme_watch_path("/t/assets/css/main.css"));
    assert!(is_theme_watch_path("C:\\theme\\partials\\nav.html"));
    assert!(!is_theme_watch_path("/t/assets/readme.md"));
    assert!(!should_trigger_rebuild("/tmp/sitex/a.md", ChangeKind::Modified, &roots(&["/tmp/site"]), &roots(&[])));
}

#[test]
fn a_directory_entry_is_matched_exactly_before_case_is_folded() {
    let names = vec!["Readme.md".to_string(), "hr".to_string(), "HR".to_string()];
    assert_eq!(pick_entry(&names, "HR").as_deref(), Some("HR"));
    assert_eq!(pick_entry(&names, "Hr").as_deref(), Some("hr"));
    assert_eq!(pick_entry(&names, "README.MD").as_deref(), Some("Readme.md"));
    assert_eq!(pick_entry(&names, "missing"), None);
}
