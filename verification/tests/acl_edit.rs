use mdshelf::acl::edit::add_to_allow_list;

#[test]
fn appends_to_an_existing_block_list() {
    let source = "---\ntitle: Comp\nallow:\n  - ana@corp.com\n---\n\n# Body\n";
    let updated = add_to_allow_list(source, "bob@corp.com").unwrap().unwrap();
    assert_eq!(
        updated,
        "---\ntitle: Comp\nallow:\n  - ana@corp.com\n  - bob@corp.com\n---\n\n# Body\n"
    );
}

#[test]
fn adds_an_allow_block_when_there_is_none() {
    let source = "---\ntitle: Comp\n---\n\n# Body\n";
    let updated = add_to_allow_list(source, "ana@corp.com").unwrap().unwrap();
    assert_eq!(
        updated,
        "---\ntitle: Comp\nallow:\n  - ana@corp.com\n---\n\n# Body\n"
    );
}

#[test]
fn extends_an_inline_list_without_reflowing_it() {
    let source = "---\nallow: [ana@corp.com]\n---\n";
    let updated = add_to_allow_list(source, "bob@corp.com").unwrap().unwrap();
    assert_eq!(updated, "---\nallow: [ana@corp.com, bob@corp.com]\n---\n");
}

#[test]
fn reports_an_address_that_is_already_listed() {
    let source = "---\nallow:\n  - ana@corp.com\n---\n";
    assert!(add_to_allow_list(source, "ana@corp.com").unwrap().is_none());

    let inline = "---\nallow: [ana@corp.com]\n---\n";
    assert!(add_to_allow_list(inline, "ana@corp.com").unwrap().is_none());
}

#[test]
fn preserves_comments_key_order_and_other_content() {
    let source = "---\n# who owns this page\nowner: hr\nallow:\n  - ana@corp.com\ndeny:\n  - x@corp.com\nsidebar_order: 3\n---\n\nBody stays.\n";
    let updated = add_to_allow_list(source, "bob@corp.com").unwrap().unwrap();

    assert!(updated.contains("# who owns this page"));
    assert!(updated.contains("owner: hr"));
    assert!(updated.contains("deny:\n  - x@corp.com"));
    assert!(updated.contains("sidebar_order: 3"));
    assert!(updated.contains("Body stays."));
    assert!(updated.contains("  - ana@corp.com\n  - bob@corp.com\n"));
}

#[test]
fn matches_the_existing_indentation() {
    let source = "---\nallow:\n    - ana@corp.com\n---\n";
    let updated = add_to_allow_list(source, "bob@corp.com").unwrap().unwrap();
    assert!(updated.contains("    - ana@corp.com\n    - bob@corp.com\n"));
}

#[test]
fn preserves_windows_line_endings() {
    let source = "---\r\ntitle: Comp\r\nallow:\r\n  - ana@corp.com\r\n---\r\n";
    let updated = add_to_allow_list(source, "bob@corp.com").unwrap().unwrap();
    assert!(updated.contains("  - bob@corp.com\r\n"));
    assert!(!updated.contains("  - bob@corp.com\n\r"));
}

#[test]
fn refuses_a_file_without_frontmatter() {
    let error = add_to_allow_list("# Just a heading\n", "ana@corp.com").unwrap_err();
    assert!(error.message().contains("no frontmatter"));
}

#[test]
fn refuses_to_guess_at_a_malformed_allow_value() {
    let error = add_to_allow_list(
        "---\nallow: ana@corp.com, bob@corp.com\n---\n",
        "c@corp.com",
    )
    .unwrap_err();
    assert!(error.message().contains("not a list"));
}

#[test]
fn does_not_mistake_a_body_line_for_the_key() {
    let source = "---\ntitle: X\n---\n\nallow: this is prose\n";
    let updated = add_to_allow_list(source, "ana@corp.com").unwrap().unwrap();
    assert!(updated.contains("allow:\n  - ana@corp.com\n---"));
    assert!(updated.contains("allow: this is prose"));
}

#[test]
fn does_not_mistake_a_nested_key_for_the_top_level_one() {
    let source = "---\nmeta:\n  allow: nested\n---\n";
    let updated = add_to_allow_list(source, "ana@corp.com").unwrap().unwrap();
    assert!(updated.contains("  allow: nested"));
    assert!(updated.contains("allow:\n  - ana@corp.com\n"));
}

#[test]
fn an_address_in_quotes_counts_as_listed() {
    let source = "---\nallow:\n  - \"ana@corp.com\"\n---\n";
    assert!(add_to_allow_list(source, "ana@corp.com").unwrap().is_none());
}

#[test]
fn blank_lines_inside_a_block_list_do_not_end_it() {
    let source = "---\nallow:\n  - a@corp.com\n\n  - b@corp.com\nowner: hr\n---\n";
    let updated = add_to_allow_list(source, "c@corp.com").unwrap().unwrap();
    assert_eq!(
        updated,
        "---\nallow:\n  - a@corp.com\n\n  - b@corp.com\n  - c@corp.com\nowner: hr\n---\n"
    );
}

#[test]
fn a_closing_fence_without_a_newline_gains_one_before_the_new_block() {
    let source = "---\ntitle: X\n---";
    let updated = add_to_allow_list(source, "a@corp.com").unwrap().unwrap();
    assert_eq!(updated, "---\ntitle: X\nallow:\n  - a@corp.com\n---");
}
