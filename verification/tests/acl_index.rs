use mdshelf::acl::index::{is_index_file, parent_folder};
use mdshelf::acl::{AclBlock, AclError, AclIndex};

fn block(allow: &[&str], deny: &[&str]) -> AclBlock {
    AclBlock {
        allow: allow.iter().map(|s| s.to_string()).collect(),
        deny: deny.iter().map(|s| s.to_string()).collect(),
        errors: Vec::new(),
    }
}

fn path(raw: &str) -> &str {
    raw
}

/// site root grants the team; hr/ narrows to hr; one file denies an intern.
fn sample_index() -> AclIndex {
    let mut index = AclIndex::new();
    index.insert(path("index.md"), block(&["team@corp.com"], &[]));
    index.insert(path("hr/index.md"), block(&["hr@corp.com"], &[]));
    index.insert(path("hr/comp.md"), block(&[], &["intern@corp.com"]));
    index
}

#[test]
fn identifies_index_files_exactly_as_mdshelf_does() {
    assert!(is_index_file(path("index.md")));
    assert!(is_index_file(path("hr/index.md")));
    assert!(
        is_index_file(path("hr/INDEX.md")),
        "the stem is case-insensitive"
    );

    assert!(!is_index_file(path("hr/comp.md")));
    assert!(!is_index_file(path("hr/indexes.md")));

    assert!(!is_index_file(path("hr/README.md")));
    assert!(!is_index_file(path("hr/readme.md")));
    assert!(!is_index_file(path("hr/index.markdown")));
}

#[test]
fn computes_parent_folders() {
    assert_eq!(parent_folder(path("index.md")), "");
    assert_eq!(parent_folder(path("hr/index.md")), "hr");
    assert_eq!(parent_folder(path("hr/pay/comp.md")), "hr/pay");
}

#[test]
fn site_rules_reach_a_file_with_no_nearer_rule() {
    let index = sample_index();
    assert!(index.allows(path("notes/idea.md"), "team@corp.com"));
}

#[test]
fn a_folder_rule_replaces_the_site_rule_for_its_subtree() {
    let index = sample_index();
    assert!(index.allows(path("hr/policy.md"), "hr@corp.com"));
    assert!(
        index.allows(path("hr/policy.md"), "team@corp.com"),
        "the site rule still applies where the folder rule is silent"
    );
}

#[test]
fn index_rules_govern_the_folder_and_the_index_page_itself() {
    let mut index = AclIndex::new();
    index.insert(path("hr/index.md"), block(&["hr@corp.com"], &[]));

    assert!(index.allows(path("hr/index.md"), "hr@corp.com"));
    assert!(index.allows(path("hr/policy.md"), "hr@corp.com"));
    assert!(index.allows(path("hr/pay/comp.md"), "hr@corp.com"));
    assert!(!index.allows(path("hr/policy.md"), "stranger@corp.com"));
}

#[test]
fn a_file_rule_beats_the_folder_it_lives_in() {
    let index = sample_index();
    let mut index = index;
    index.insert(path("hr/comp.md"), block(&[], &["hr@corp.com"]));
    assert!(!index.allows(path("hr/comp.md"), "hr@corp.com"));
    assert!(index.allows(path("hr/policy.md"), "hr@corp.com"));
}

#[test]
fn a_deep_folder_inherits_from_the_nearest_ancestor_with_rules() {
    let mut index = AclIndex::new();
    index.insert(path("index.md"), block(&["team@corp.com"], &[]));
    index.insert(path("a/index.md"), block(&["a@corp.com"], &[]));
    assert!(index.allows(path("a/b/c/deep.md"), "a@corp.com"));
    assert!(index.allows(path("a/b/c/deep.md"), "team@corp.com"));
    assert!(!index.allows(path("a/b/c/deep.md"), "stranger@corp.com"));
}

#[test]
fn an_empty_index_denies_everything() {
    let index = AclIndex::new();
    assert!(index.is_empty());
    assert!(!index.allows(path("anything.md"), "ana@corp.com"));
}

#[test]
fn blocks_without_rules_do_not_mark_the_site_as_ruled() {
    let mut index = AclIndex::new();
    index.insert(path("plain.md"), AclBlock::default());
    assert!(index.is_empty(), "a rule-free vault must stay rule-free");
}

#[test]
fn a_non_index_file_governs_only_itself() {
    for carrier in ["hr/README.md", "hr/index.markdown"] {
        let mut index = AclIndex::new();
        index.insert(path(carrier), block(&["contractor@corp.com"], &[]));

        assert!(
            index.allows(path(carrier), "contractor@corp.com"),
            "{carrier} should still govern itself"
        );
        assert!(
            !index.allows(path("hr/policy.md"), "contractor@corp.com"),
            "{carrier} must not widen access to its whole folder"
        );
    }
}

#[test]
fn signatures_match_for_viewers_with_identical_access() {
    let index = sample_index();
    assert_eq!(
        index.signature("nobody-a@corp.com"),
        index.signature("nobody-b@corp.com")
    );
    assert_ne!(
        index.signature("hr@corp.com"),
        index.signature("nobody-a@corp.com")
    );
    assert_ne!(
        index.signature("hr@corp.com"),
        index.signature("team@corp.com")
    );
}

#[test]
fn signatures_are_stable_across_calls() {
    let index = sample_index();
    assert_eq!(
        index.signature("hr@corp.com"),
        index.signature("hr@corp.com")
    );
}

#[test]
fn rows_describe_every_rule_with_its_level() {
    let index = sample_index();
    let rows = index.rows();
    assert!(rows
        .iter()
        .any(|row| row.level == "site" && row.email == "team@corp.com"));
    assert!(rows
        .iter()
        .any(|row| row.level == "folder" && row.path == "hr" && row.email == "hr@corp.com"));
    assert!(rows.iter().any(|row| row.level == "file"
        && row.path == "hr/comp.md"
        && row.effect == "deny"
        && row.email == "intern@corp.com"));
}

#[test]
fn poisoned_blocks_are_reported_with_their_file() {
    let mut index = AclIndex::new();
    index.insert(
        path("hr/comp.md"),
        AclBlock {
            allow: Vec::new(),
            deny: Vec::new(),
            errors: vec![AclError {
                key: "allow".into(),
                message: "must be a list".into(),
                line: Some(3),
            }],
        },
    );
    let poisoned = index.poisoned();
    assert_eq!(poisoned.len(), 1);
    assert_eq!(poisoned[0].0, "hr/comp.md");
    assert_eq!(poisoned[0].1.line, Some(3));
}

#[test]
fn known_emails_are_sorted_and_unique() {
    let mut index = sample_index();
    index.insert(path("notes/index.md"), block(&["team@corp.com", "ana@corp.com"], &[]));
    assert_eq!(
        index.known_emails(),
        vec!["ana@corp.com", "hr@corp.com", "intern@corp.com", "team@corp.com"]
    );
}

#[test]
fn rule_folders_are_listed_in_order() {
    let index = sample_index();
    assert_eq!(index.rule_folders(), vec!["", "hr"]);
}

#[test]
fn a_poisoned_folder_rule_denies_everyone_beneath_it() {
    let mut index = sample_index();
    index.insert(
        path("hr/index.md"),
        AclBlock {
            allow: vec!["hr@corp.com".to_string()],
            deny: Vec::new(),
            errors: vec![AclError { key: "deny".into(), message: "broken".into(), line: None }],
        },
    );
    assert!(!index.allows(path("hr/policy.md"), "hr@corp.com"));
    assert!(!index.allows(path("hr/policy.md"), "team@corp.com"));
    let resolution = index.resolve(path("hr/policy.md"), "hr@corp.com");
    assert_eq!(resolution.poisoned_source.as_deref(), Some("hr/index.md"));
}
