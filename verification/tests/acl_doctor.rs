use mdshelf::acl::doctor::{diagnose, summary, NO_RULES_WARNING};
use mdshelf::acl::{AclBlock, AclError, AclIndex};

fn block(allow: &[&str], deny: &[&str]) -> AclBlock {
    AclBlock {
        allow: allow.iter().map(|s| s.to_string()).collect(),
        deny: deny.iter().map(|s| s.to_string()).collect(),
        errors: Vec::new(),
    }
}

fn vault() -> AclIndex {
    let mut index = AclIndex::new();
    index.insert("index.md", block(&["team@corp.com"], &[]));
    index.insert("hr/index.md", block(&["hr@corp.com"], &[]));
    index.insert("locked/index.md", block(&[], &["team@corp.com"]));
    index.insert(
        "bad/index.md",
        AclBlock {
            allow: Vec::new(),
            deny: Vec::new(),
            errors: vec![AclError {
                key: "allow".to_string(),
                message: "`allow` must be a list".to_string(),
                line: Some(3),
            }],
        },
    );
    index
}

fn pages() -> Vec<String> {
    ["index.md", "hr/index.md", "hr/pay.md", "locked/page.md", "notes/x.md", "bad/index.md"]
        .iter()
        .map(|s| s.to_string())
        .collect()
}

#[test]
fn the_doctor_finds_broken_unreachable_unused_and_inherited_rules() {
    let d = diagnose(&vault(), &pages(), &vec!["team@corp.com".to_string()]);
    assert!(!d.no_rules);
    assert_eq!(d.poisoned, vec![("bad/index.md".to_string(), Some(3), "`allow` must be a list".to_string())]);
    assert_eq!(d.unreachable, vec!["bad", "locked"]);
    assert_eq!(d.unused_grants, vec!["hr@corp.com"]);
    assert_eq!(d.inheriting, vec!["notes"]);
    assert_eq!(d.errors(), 1);
    assert_eq!(d.warnings(), 3);
    assert_eq!(
        d.report("Docs", "/docs"),
        vec![
            "Docs (/docs)".to_string(),
            "  ✗ bad/index.md:3  `allow` must be a list".to_string(),
            "  ⚠ bad  no address named in this vault can read this".to_string(),
            "  ⚠ locked  no address named in this vault can read this".to_string(),
            "  ⚠ hr@corp.com  granted access but never seen in the access log".to_string(),
            "  · notes/  no index.md — inherits from an ancestor; creating one would change access for everything beneath it".to_string(),
        ]
    );
    assert_eq!(summary(d.errors(), d.warnings()), Err("1 error(s), 3 warning(s)".to_string()));
}

#[test]
fn an_empty_access_log_flags_no_grant() {
    let d = diagnose(&vault(), &pages(), &Vec::new());
    assert!(d.unused_grants.is_empty());
}

#[test]
fn a_site_without_rules_is_one_warning() {
    let d = diagnose(&AclIndex::new(), &pages(), &Vec::new());
    assert!(d.no_rules);
    assert_eq!(d.warnings(), 1);
    assert_eq!(d.errors(), 0);
    assert_eq!(d.report("Docs", "/docs"), vec!["Docs (/docs)".to_string(), NO_RULES_WARNING.to_string()]);
    assert_eq!(summary(0, 1), Ok("no errors (1 warning(s))".to_string()));
}
