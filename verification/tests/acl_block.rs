use mdshelf::acl::frontmatter::{parse_acl, FmValue};
use mdshelf::acl::resolver::Decision;
use mdshelf::acl::AclBlock;
use mdshelf::content::page::page_source;

fn parse(yaml_body: &str) -> AclBlock {
    let text = format!("---\n{yaml_body}---\n\n# Body\n");
    let (raw, data, _body) = page_source("test.md", &text).expect("frontmatter parses");
    let value = data.unwrap_or(FmValue::Object(Vec::new()));
    parse_acl(&value, &raw)
}

#[test]
fn parses_a_well_formed_block() {
    let block = parse("allow:\n  - ana@corp.com\n  - hr@corp.com\ndeny:\n  - intern@corp.com\n");
    assert_eq!(block.allow, vec!["ana@corp.com", "hr@corp.com"]);
    assert_eq!(block.deny, vec!["intern@corp.com"]);
    assert!(!block.is_poisoned());
}

#[test]
fn parses_inline_yaml_lists() {
    let block = parse("allow: [ana@corp.com, bob@corp.com]\n");
    assert_eq!(block.allow, vec!["ana@corp.com", "bob@corp.com"]);
    assert!(!block.is_poisoned());
}

#[test]
fn a_file_with_no_rules_is_empty_not_poisoned() {
    let block = parse("title: Something\n");
    assert!(block.is_empty());
    assert!(!block.is_poisoned());
}

#[test]
fn a_bare_string_is_an_error_not_a_one_element_list() {
    let block = parse("allow: ana@corp.com, bob@corp.com\n");
    assert!(block.is_poisoned(), "a bare string must poison the block");
    assert!(block.allow.is_empty(), "no address may be granted");
    let error = &block.errors[0];
    assert_eq!(error.key, "allow");
    assert!(error.message.contains("must be a list"), "{}", error.message);
    assert_eq!(error.line, Some(2), "the error should point at the key");
}

#[test]
fn an_invalid_address_poisons_the_block() {
    let block = parse("allow:\n  - ana@corp\n");
    assert!(block.is_poisoned());
    assert!(block.errors[0].message.contains("ana@corp"));
    assert!(block.allow.is_empty());
}

#[test]
fn a_mapping_or_number_poisons_the_block() {
    assert!(parse("allow:\n  who: ana@corp.com\n").is_poisoned());
    assert!(parse("deny: 42\n").is_poisoned());
    assert!(parse("allow:\n  - 42\n").is_poisoned());
    assert!(parse("allow: true\n").is_poisoned());
}

#[test]
fn addresses_are_normalized_and_deduplicated() {
    let block = parse("allow:\n  - Ana@Corp.COM\n  - ana@corp.com\n");
    assert_eq!(block.allow, vec!["ana@corp.com"], "case differences are the same person");
}

#[test]
fn a_poisoned_block_denies_everyone_including_listed_addresses() {
    let block = parse("allow:\n  - ana@corp.com\ndeny: oops\n");
    assert!(block.is_poisoned());
    assert_eq!(block.decide("ana@corp.com"), Some(Decision::Deny));
}

#[test]
fn an_unlisted_address_is_undecided_by_the_block() {
    let block = parse("allow:\n  - ana@corp.com\n");
    assert_eq!(block.decide("bob@corp.com"), None);
}
