use std::cell::{Cell, RefCell};
use mdshelf::links::{mint, InsertResult, MintError, NewLink, MINT_ATTEMPTS};
use std::collections::HashSet;

use base64::engine::general_purpose::URL_SAFE_NO_PAD;
use base64::Engine;
use mdshelf::config::{DurationError, LinksConfig};
use mdshelf::links::{
    earliest_allowed_date, humanize_cap, is_wellformed_token, latest_allowed_date, link_id,
    link_pseudonym, mint_next, resolve_expiry, token_hash, ExpiryError, LinkSettings, LinkToken,
    MintOutcome, MintStep, BAD_LINK_PSEUDONYM, ID_BYTES, TOKEN_BYTES, TOKEN_CHARS,
};

#[test]
fn tokens_are_unpadded_base64url_of_sixteen_bytes() {
    let token = LinkToken::generate();
    assert_eq!(token.expose().len(), TOKEN_CHARS);
    assert!(!token.expose().contains('='), "padding must be stripped");
    assert!(is_wellformed_token(token.expose()));
    assert_eq!(
        URL_SAFE_NO_PAD.decode(token.expose()).unwrap().len(),
        TOKEN_BYTES
    );
}

#[test]
fn ten_thousand_tokens_contain_no_duplicate() {
    let mut seen = HashSet::with_capacity(10_000);
    for _ in 0..10_000 {
        assert!(
            seen.insert(LinkToken::generate().expose().to_string()),
            "the generator repeated a token"
        );
    }
    assert_eq!(seen.len(), 10_000);
}

#[test]
fn the_id_is_derived_from_the_hash_and_not_the_token() {
    let token = LinkToken::generate();
    let id = token.id();
    assert_eq!(id.len(), ID_BYTES * 2);
    assert!(
        !token.expose().contains(&id) && !id.contains(token.expose()),
        "the id must not be a slice of the token"
    );
    assert_eq!(id, link_id(&token.hash()));
}

#[test]
fn hashing_is_stable_and_differs_between_tokens() {
    assert_eq!(token_hash("abc"), token_hash("abc"));
    assert_ne!(token_hash("abc"), token_hash("abd"));
}

#[test]
fn malformed_tokens_are_recognised_as_malformed() {
    assert!(!is_wellformed_token(""));
    assert!(!is_wellformed_token("short"));
    assert!(!is_wellformed_token(&"a".repeat(TOKEN_CHARS + 1)));
    assert!(!is_wellformed_token(&format!(
        "{}/",
        "a".repeat(TOKEN_CHARS - 1)
    )));
    assert!(is_wellformed_token(&"a".repeat(TOKEN_CHARS)));
}

#[test]
fn the_prefix_owns_only_its_own_subtree() {
    let settings = LinkSettings::default();
    assert_eq!(settings.prefix, "/s");
    assert!(settings.owns_path("/s"));
    assert!(settings.owns_path("/s/abc"));
    assert!(!settings.owns_path("/system"));
    assert!(!settings.owns_path("/docs/s"));
}

#[test]
fn the_url_has_no_path_component_beyond_the_token() {
    let settings = LinkSettings::default();
    let token = LinkToken::generate();
    let url = settings.url("https://work.example.com/", &token);
    assert_eq!(
        url,
        format!("https://work.example.com/s/{}", token.expose())
    );
    assert_eq!(url.matches('/').count(), 4, "got: {url}");
}

#[test]
fn the_id_is_hex_of_the_first_three_hash_bytes() {
    assert_eq!(link_id(&[0x0a, 0xff, 0x10, 0x99]), "0aff10");
    assert_eq!(link_id(&[0xab]), "ab");
    assert_eq!(link_pseudonym("0aff10"), "link:0aff10");
    assert_eq!(BAD_LINK_PSEUDONYM, "link:unknown");
    // sha256("abc") begins ba7816bf.
    assert_eq!(link_id(&token_hash("abc")), "ba7816");
}

const DAY_MS: i64 = 86_400_000;

#[test]
fn expiries_follow_the_request_and_respect_the_cap() {
    let settings = LinkSettings::default();
    let now: i64 = 1_788_220_800_000; // 2026-09-01T00:00:00Z
    assert_eq!(resolve_expiry(&settings, None, None, now).unwrap(), now + DAY_MS);
    assert_eq!(resolve_expiry(&settings, Some("2h"), None, now).unwrap(), now + 7_200_000);
    assert_eq!(
        resolve_expiry(&settings, None, Some("2026-09-03"), now).unwrap(),
        now + 3 * DAY_MS - 1000
    );
    assert!(matches!(
        resolve_expiry(&settings, Some("1d"), Some("2026-09-03"), now),
        Err(ExpiryError::Both)
    ));
    assert!(matches!(
        resolve_expiry(&settings, Some("soon"), None, now),
        Err(ExpiryError::ForInvalid(DurationError::MissingNumber))
    ));
    assert!(matches!(
        resolve_expiry(&settings, None, Some("2026-08-31T12:00"), now),
        Err(ExpiryError::Past(_))
    ));
    let too_long = resolve_expiry(&settings, Some("31d"), None, now).unwrap_err();
    assert!(matches!(too_long, ExpiryError::TooLong(2_592_000)));
    assert_eq!(
        too_long.message(),
        "that would outlive the 30d cap in [links] max_lifetime; nothing was created"
    );
    assert!(matches!(
        resolve_expiry(&settings, None, Some("someday"), now),
        Err(ExpiryError::UntilInvalid(_))
    ));
}

#[test]
fn the_date_bounds_match_the_cap() {
    let settings = LinkSettings::default();
    let now: i64 = 1_788_220_800_000 + 3_600_000; // 2026-09-01T01:00:00Z
    assert_eq!(earliest_allowed_date(now), "2026-09-01");
    assert_eq!(latest_allowed_date(&settings, now), "2026-10-01");
    assert_eq!(humanize_cap(2_592_000), "30d");
    assert_eq!(humanize_cap(3_600), "3600s");
}

#[test]
fn settings_resolve_from_a_links_section() {
    let mut links = LinksConfig::new();
    links.prefix = "share/".to_string();
    links.max_lifetime = "7d".to_string();
    links.default_lifetime = "nonsense".to_string();
    let settings = LinkSettings::from_links_config(&links);
    assert_eq!(settings.prefix, "/share");
    assert_eq!(settings.max_lifetime, 7 * 86_400);
    assert_eq!(settings.default_lifetime, 86_400);
    links.prefix = "/bad prefix".to_string();
    assert_eq!(LinkSettings::from_links_config(&links).prefix, "/s");
}

#[test]
fn minting_retries_collisions_a_bounded_number_of_times() {
    assert_eq!(mint_next(1, MintOutcome::Inserted), MintStep::Finish);
    assert_eq!(mint_next(1, MintOutcome::Failed), MintStep::Fail);
    assert_eq!(mint_next(1, MintOutcome::IdTaken), MintStep::Retry);
    assert_eq!(mint_next(7, MintOutcome::Collided), MintStep::Retry);
    assert_eq!(mint_next(8, MintOutcome::Collided), MintStep::GiveUp);
}

#[test]
fn minting_records_the_token_it_hands_back() {
    let recorded: RefCell<Vec<NewLink>> = RefCell::new(Vec::new());
    let token = mint(
        |_id: &String| Ok(false),
        |row: &NewLink| {
            recorded.borrow_mut().push(row.clone());
            InsertResult::Inserted
        },
        "/srv/vault/hr",
        "comp.md",
        1_700_086_400_000,
        1_700_000_000_000,
        "ana@corp.com",
    )
    .ok()
    .unwrap();
    let rows = recorded.borrow();
    assert_eq!(rows.len(), 1);
    assert_eq!(
        rows[0],
        NewLink {
            id: token.id(),
            token_hash: token.hash(),
            site: "/srv/vault/hr".to_string(),
            path: "comp.md".to_string(),
            expires_at: 1_700_086_400_000,
            created_at: 1_700_000_000_000,
            issued_by: "ana@corp.com".to_string(),
        }
    );
}

fn mint_with(
    id_taken: impl Fn(&String) -> Result<bool, String>,
    record: impl Fn(&NewLink) -> InsertResult,
) -> Result<mdshelf::links::LinkToken, MintError> {
    mint(id_taken, record, "/srv/vault/docs", "guide.md", 2_000, 1_000, "ops@corp.com")
}

#[test]
fn minting_gives_up_after_every_attempt_collides() {
    let lookups = Cell::new(0u32);
    let result = mint_with(
        |_id: &String| {
            lookups.set(lookups.get() + 1);
            Ok(true)
        },
        |_row: &NewLink| InsertResult::Inserted,
    );
    assert!(matches!(result, Err(MintError::Exhausted)));
    assert_eq!(lookups.get(), MINT_ATTEMPTS);
    let inserts = Cell::new(0u32);
    let result = mint_with(
        |_id: &String| Ok(false),
        |_row: &NewLink| {
            inserts.set(inserts.get() + 1);
            InsertResult::Duplicate
        },
    );
    assert!(matches!(result, Err(MintError::Exhausted)));
    assert_eq!(inserts.get(), MINT_ATTEMPTS);
    assert_eq!(
        MintError::Exhausted.message(),
        "could not allocate a unique link id after several attempts"
    );
}

#[test]
fn minting_reports_store_failures_without_the_token() {
    let result = mint_with(|_id: &String| Err("database is locked".to_string()), |_row: &NewLink| {
        InsertResult::Inserted
    });
    assert!(matches!(result, Err(MintError::Lookup(ref e)) if e == "database is locked"));
    let result = mint_with(|_id: &String| Ok(false), |_row: &NewLink| {
        InsertResult::Failed("disk full".to_string())
    });
    match result {
        Err(e) => {
            assert_eq!(e, MintError::Recording("disk full".to_string()));
            assert_eq!(e.message(), "recording the new link");
        },
        Ok(_) => panic!("a failed write must not hand out a token"),
    }
}

#[test]
fn a_generated_token_is_twenty_two_url_safe_characters() {
    for _ in 0..20 {
        let token = mdshelf::links::LinkToken::generate();
        let text = token.expose();
        assert_eq!(text.len(), 22);
        assert!(text.chars().all(|c| c.is_ascii_alphanumeric() || c == '-' || c == '_'));
    }
}
