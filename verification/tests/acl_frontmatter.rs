use mdshelf::acl::frontmatter::{find_key_line, parse_acl, FmValue};
use mdshelf::acl::resolver::Decision;
use mdshelf::acl::strip_acl_keys;

#[test]
fn finds_line_numbers_for_both_keys() {
    let raw = "---\ntitle: X\nallow:\n  - a@b.com\ndeny:\n  - c@d.com\n---\n";
    assert_eq!(find_key_line(raw, "allow"), Some(3));
    assert_eq!(find_key_line(raw, "deny"), Some(5));
    assert_eq!(find_key_line(raw, "missing"), None);
}

#[test]
fn does_not_mistake_body_text_for_a_key() {
    let raw = "---\ntitle: X\n---\n\nallow: this is prose in the body\n";
    assert_eq!(find_key_line(raw, "allow"), None);
}

fn object(entries: Vec<(&str, FmValue)>) -> FmValue {
    FmValue::Object(entries.into_iter().map(|(k, v)| (k.to_string(), v)).collect())
}

fn list(items: &[&str]) -> FmValue {
    FmValue::Array(items.iter().map(|s| FmValue::String(s.to_string())).collect())
}

#[test]
fn a_well_formed_block_is_normalized_and_deduplicated() {
    let raw = "---\nallow:\n  - Ana@Corp.COM\n  - ana@corp.com\ndeny:\n  - intern@corp.com\n---\n";
    let value = object(vec![
        ("allow", list(&["Ana@Corp.COM", "ana@corp.com"])),
        ("deny", list(&["intern@corp.com"])),
    ]);
    let block = parse_acl(&value, raw);
    assert_eq!(block.allow, vec!["ana@corp.com"]);
    assert_eq!(block.deny, vec!["intern@corp.com"]);
    assert!(!block.is_poisoned());
}

#[test]
fn a_bare_string_poisons_the_block_and_points_at_the_key() {
    let raw = "---\nallow: ana@corp.com, bob@corp.com\n---\n";
    let value = object(vec![("allow", FmValue::String("ana@corp.com, bob@corp.com".into()))]);
    let block = parse_acl(&value, raw);
    assert!(block.is_poisoned());
    assert!(block.allow.is_empty());
    assert_eq!(block.errors[0].key, "allow");
    assert!(block.errors[0].message.contains("must be a list"));
    assert_eq!(block.errors[0].line, Some(2));
    assert_eq!(block.decide("ana@corp.com"), Some(Decision::Deny));
}

#[test]
fn an_invalid_address_is_reported_at_its_own_line() {
    let raw = "---\nallow:\n  - ok@corp.com\n  - also-ok@corp.com\n  - broken@corp\n---\n";
    let value = object(vec![("allow", list(&["ok@corp.com", "also-ok@corp.com", "broken@corp"]))]);
    let block = parse_acl(&value, raw);
    assert!(block.is_poisoned());
    assert_eq!(block.errors[0].line, Some(5));
    assert!(block.errors[0].message.contains("broken@corp"));
}

#[test]
fn a_number_entry_poisons_the_block() {
    let value = object(vec![("allow", FmValue::Array(vec![FmValue::Number("42".into())]))]);
    let block = parse_acl(&value, "---\nallow:\n  - 42\n---\n");
    assert!(block.is_poisoned());
    assert!(block.errors[0].message.contains("a number"));
}

#[test]
fn strip_removes_both_rule_keys_and_nothing_else() {
    let value = object(vec![
        ("title", FmValue::String("Compensation".into())),
        ("allow", list(&["ana@corp.com"])),
        ("deny", list(&["intern@corp.com"])),
        ("sidebar_order", FmValue::Number("3".into())),
    ]);
    match strip_acl_keys(value) {
        FmValue::Object(entries) => {
            let keys: Vec<&str> = entries.iter().map(|(k, _)| k.as_str()).collect();
            assert_eq!(keys, vec!["title", "sidebar_order"]);
            assert!(matches!(&entries[0].1, FmValue::String(t) if t == "Compensation"));
            assert!(matches!(&entries[1].1, FmValue::Number(n) if n == "3"));
        }
        _ => panic!("an object stays an object"),
    }
}
