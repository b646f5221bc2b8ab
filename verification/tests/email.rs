use mdshelf::auth::email::{is_valid_email, normalize_email};

#[test]
fn accepts_ordinary_addresses() {
    assert!(is_valid_email("ana@corp.com"));
    assert!(is_valid_email("hr-lead@corp.co.uk"));
    assert!(is_valid_email("first.last+tag@sub.example.org"));
}

#[test]
fn rejects_addresses_without_a_full_domain() {
    assert!(!is_valid_email("ana@corp"));
    assert!(!is_valid_email("ana@"));
    assert!(!is_valid_email("@corp.com"));
}

#[test]
fn rejects_malformed_shapes() {
    assert!(!is_valid_email(""));
    assert!(!is_valid_email("ana"));
    assert!(!is_valid_email("a@b@c.com"));
    assert!(!is_valid_email("ana @corp.com"));
    assert!(!is_valid_email("ana@corp .com"));
    assert!(!is_valid_email("ana@corp..com"));
    assert!(!is_valid_email("ana@-corp.com"));
    assert!(!is_valid_email("ana@corp-.com"));
    assert!(!is_valid_email(".ana@corp.com"));
    assert!(!is_valid_email("ana.@corp.com"));
    assert!(!is_valid_email("an..a@corp.com"));
}

#[test]
fn rejects_non_ascii() {
    assert!(!is_valid_email("aña@corp.com"));
}

#[test]
fn normalizes_case_and_whitespace() {
    assert_eq!(normalize_email("  Ana@Corp.COM "), "ana@corp.com");
}
