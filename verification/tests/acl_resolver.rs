use mdshelf::acl::resolver::{resolve, Candidate, Decision, Level};
use mdshelf::acl::{AclBlock, AclError};

fn block(allow: &[&str], deny: &[&str]) -> AclBlock {
    AclBlock {
        allow: allow.iter().map(|s| s.to_string()).collect(),
        deny: deny.iter().map(|s| s.to_string()).collect(),
        errors: Vec::new(),
    }
}

fn poisoned() -> AclBlock {
    AclBlock {
        allow: Vec::new(),
        deny: Vec::new(),
        errors: vec![AclError {
            key: "allow".into(),
            message: "broken".into(),
            line: Some(2),
        }],
    }
}

fn chain<'a>(levels: &'a [(Level, &'a str, &'a AclBlock)]) -> Vec<Candidate<'a>> {
    levels
        .iter()
        .map(|(level, source, block)| Candidate {
            level: *level,
            source: source.to_string(),
            block,
        })
        .collect()
}

#[test]
fn file_deny_overrides_inherited_folder_allow() {
    let file = block(&[], &["intern@corp.com"]);
    let folder = block(&["intern@corp.com"], &[]);
    let resolution = resolve(
        chain(&[
            (Level::File, "hr/comp.md", &file),
            (Level::Folder, "hr/index.md", &folder),
        ]),
        "intern@corp.com",
    );
    assert_eq!(resolution.decision, Decision::Deny);
    assert_eq!(resolution.decisive_step().unwrap().level, Level::File);
}

#[test]
fn file_allow_overrides_inherited_folder_deny() {
    let file = block(&["ana@corp.com"], &[]);
    let folder = block(&[], &["ana@corp.com"]);
    let resolution = resolve(
        chain(&[
            (Level::File, "hr/comp.md", &file),
            (Level::Folder, "hr/index.md", &folder),
        ]),
        "ana@corp.com",
    );
    assert_eq!(resolution.decision, Decision::Allow);
    assert_eq!(resolution.decisive_step().unwrap().level, Level::File);
}

#[test]
fn a_nearer_folder_overrides_a_further_one() {
    let empty = AclBlock::default();
    let near = block(&[], &["ana@corp.com"]);
    let far = block(&["ana@corp.com"], &[]);
    let resolution = resolve(
        chain(&[
            (Level::File, "hr/pay/comp.md", &empty),
            (Level::Folder, "hr/pay/index.md", &near),
            (Level::Folder, "hr/index.md", &far),
        ]),
        "ana@corp.com",
    );
    assert_eq!(resolution.decision, Decision::Deny);
    assert_eq!(
        resolution.decisive_step().unwrap().source,
        "hr/pay/index.md"
    );
}

#[test]
fn any_folder_rule_overrides_the_site_rule() {
    let empty = AclBlock::default();
    let folder = block(&[], &["ana@corp.com"]);
    let site = block(&["ana@corp.com"], &[]);
    let resolution = resolve(
        chain(&[
            (Level::File, "hr/comp.md", &empty),
            (Level::Folder, "hr/index.md", &folder),
            (Level::Site, "index.md", &site),
        ]),
        "ana@corp.com",
    );
    assert_eq!(resolution.decision, Decision::Deny);
    assert_eq!(resolution.decisive_step().unwrap().level, Level::Folder);
}

#[test]
fn a_site_rule_covers_a_file_with_no_nearer_rule() {
    let empty = AclBlock::default();
    let site = block(&["ana@corp.com"], &[]);
    let resolution = resolve(
        chain(&[
            (Level::File, "notes/idea.md", &empty),
            (Level::Folder, "notes/index.md", &empty),
            (Level::Site, "index.md", &site),
        ]),
        "ana@corp.com",
    );
    assert_eq!(resolution.decision, Decision::Allow);
    assert_eq!(resolution.decisive_step().unwrap().level, Level::Site);
    assert!(!resolution.defaulted);
}

#[test]
fn an_address_named_nowhere_is_denied_by_default() {
    let empty = AclBlock::default();
    let site = block(&["ana@corp.com"], &[]);
    let resolution = resolve(
        chain(&[
            (Level::File, "notes/idea.md", &empty),
            (Level::Site, "index.md", &site),
        ]),
        "stranger@elsewhere.com",
    );
    assert_eq!(resolution.decision, Decision::Deny);
    assert!(resolution.defaulted, "the default must be deny");
    assert!(resolution.reason().contains("fail-closed"));
}

#[test]
fn an_empty_chain_denies() {
    let resolution = resolve(Vec::new(), "anyone@corp.com");
    assert_eq!(resolution.decision, Decision::Deny);
    assert!(resolution.defaulted);
}

#[test]
fn a_poisoned_file_denies_regardless_of_ancestor_grants() {
    let broken = poisoned();
    let site = block(&["ana@corp.com"], &[]);
    let resolution = resolve(
        chain(&[
            (Level::File, "hr/comp.md", &broken),
            (Level::Site, "index.md", &site),
        ]),
        "ana@corp.com",
    );
    assert_eq!(resolution.decision, Decision::Deny);
    assert_eq!(
        resolution.poisoned_source.as_deref(),
        Some("hr/comp.md"),
        "the report must name the file that needs fixing"
    );
    assert!(resolution.reason().contains("could not be parsed"));
}

#[test]
fn a_poisoned_folder_denies_its_subtree() {
    let empty = AclBlock::default();
    let broken = poisoned();
    let site = block(&["ana@corp.com"], &[]);
    let resolution = resolve(
        chain(&[
            (Level::File, "hr/comp.md", &empty),
            (Level::Folder, "hr/index.md", &broken),
            (Level::Site, "index.md", &site),
        ]),
        "ana@corp.com",
    );
    assert_eq!(resolution.decision, Decision::Deny);
    assert_eq!(resolution.poisoned_source.as_deref(), Some("hr/index.md"));
}

#[test]
fn a_decision_taken_before_a_poisoned_ancestor_still_stands() {
    let file = block(&["ana@corp.com"], &[]);
    let broken = poisoned();
    let resolution = resolve(
        chain(&[
            (Level::File, "hr/comp.md", &file),
            (Level::Folder, "hr/index.md", &broken),
        ]),
        "ana@corp.com",
    );
    assert_eq!(resolution.decision, Decision::Allow);
    assert!(resolution.poisoned_source.is_none());
}

#[test]
fn the_trace_records_levels_that_did_not_match() {
    let empty = AclBlock::default();
    let site = block(&["ana@corp.com"], &[]);
    let resolution = resolve(
        chain(&[
            (Level::File, "notes/idea.md", &empty),
            (Level::Folder, "notes/index.md", &empty),
            (Level::Site, "index.md", &site),
        ]),
        "ana@corp.com",
    );
    assert_eq!(resolution.steps.len(), 3);
    assert!(resolution.steps[0].decision.is_none());
    assert!(resolution.steps[1].decision.is_none());
    assert!(resolution.steps[2].decisive);
}

#[test]
fn the_reason_names_the_deciding_rule() {
    let site = block(&["ana@corp.com"], &[]);
    let resolution = resolve(chain(&[(Level::Site, "index.md", &site)]), "ana@corp.com");
    assert_eq!(resolution.reason(), "allow: site rule in index.md");
    assert_eq!(Decision::Deny.as_str(), "deny");
    assert_eq!(Level::Folder.as_str(), "folder");
}

#[test]
fn deny_wins_over_allow_inside_one_block() {
    let both = block(&["ana@corp.com"], &["ana@corp.com"]);
    assert_eq!(both.decide("ana@corp.com"), Some(Decision::Deny));
    assert_eq!(both.decide("bob@corp.com"), None);
    assert_eq!(poisoned().decide("bob@corp.com"), Some(Decision::Deny));
}
