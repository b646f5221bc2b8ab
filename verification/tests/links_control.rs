use mdshelf::auth::store::LinkRecord;
use mdshelf::links::control::{presets, render};
use mdshelf::links::{earliest_allowed_date, latest_allowed_date, LinkSettings};

fn settings(default_lifetime: u64) -> LinkSettings {
    LinkSettings {
        default_lifetime,
        ..LinkSettings::default()
    }
}

#[test]
fn every_preset_is_offered_as_a_chip() {
    let html = render(&LinkSettings::default(), "/docs/a", &[], 0);
    for (value, label, spoken) in presets() {
        assert!(
            html.contains(&format!("value=\"{value}\"")),
            "missing {value}"
        );
        assert!(
            html.contains(&format!("<span>{label}</span>")),
            "missing {label}"
        );
        assert!(
            html.contains(&format!("aria-label=\"{spoken}\"")),
            "missing {spoken}"
        );
    }
}

#[test]
fn the_custom_date_is_its_own_button_and_reveals_the_date_field() {
    let html = render(&LinkSettings::default(), "/docs/a", &[], 0);
    assert!(html.contains("id=\"mdshelf-share-custom\""), "got: {html}");
    assert!(html.contains("aria-controls=\"mdshelf-share-date\""));
    assert!(html.contains("data-idle=\"Custom date\""));
    assert!(html.contains("type=\"date\""), "the until field");
    assert!(
        html.contains("aria-label=\"Custom expiry date\" hidden"),
        "got: {html}"
    );
    assert!(!html.contains("value=\"until\""), "got: {html}");
}

#[test]
fn the_configured_default_is_the_preselected_option() {
    let html = render(&settings(3_600), "/docs/a", &[], 0);
    assert!(html.contains("value=\"1h\" checked"), "got: {html}");
    assert!(!html.contains("value=\"1d\" checked"));

    let html = render(&settings(7 * 86_400), "/docs/a", &[], 0);
    assert!(html.contains("value=\"1w\" checked"), "got: {html}");

    let html = render(&settings(900), "/docs/a", &[], 0);
    assert!(html.contains("value=\"15m\" checked"), "got: {html}");
}

#[test]
fn an_unusual_default_becomes_an_extra_chip() {
    let html = render(&settings(6 * 3_600), "/docs/a", &[], 0);
    assert!(html.contains("value=\"6h\" checked"), "got: {html}");
    assert!(html.contains("aria-label=\"6 hours\""));
    assert!(!html.contains("value=\"8h\" checked"));

    let html = render(&settings(600), "/docs/a", &[], 0);
    assert!(html.contains("value=\"10m\" checked"), "got: {html}");
    assert!(html.contains("aria-label=\"10 minutes\""));
}

#[test]
fn presets_beyond_the_cap_are_not_offered() {
    let capped = LinkSettings {
        max_lifetime: 7 * 86_400,
        ..LinkSettings::default()
    };
    let html = render(&capped, "/docs/a", &[], 0);
    assert!(
        html.contains("value=\"1w\""),
        "the cap itself stays: {html}"
    );
    assert!(!html.contains("value=\"2w\""), "got: {html}");
    assert!(!html.contains("value=\"30d\""), "got: {html}");
}

#[test]
fn an_unshared_page_renders_a_truly_empty_list() {
    let html = render(&LinkSettings::default(), "/docs/a", &[], 0);
    assert!(
        html.contains("id=\"mdshelf-share-list\"></ul>"),
        "got: {html}"
    );
    assert!(html.contains("id=\"mdshelf-share-empty\">"), "got: {html}");
}

#[test]
fn the_date_field_carries_the_bounds_the_server_enforces() {
    let settings = LinkSettings::default();
    let now = 1_787_000_000_000i64;
    let html = render(&settings, "/docs/a", &[], now);
    let latest = latest_allowed_date(&settings, now);
    let earliest = earliest_allowed_date(now);
    assert!(html.contains(&format!("max=\"{latest}\"")), "got: {html}");
    assert!(html.contains(&format!("min=\"{earliest}\"")), "got: {html}");
}

#[test]
fn existing_links_are_listed_with_a_revoke_control() {
    let now = 1_787_000_000_000i64;
    let record = LinkRecord {
        id: "ab12cd".into(),
        site: "/vault".into(),
        path: "a.md".into(),
        expires_at: now + 3_600_000,
        created_at: now,
        issued_by: "ana@corp.com".into(),
        revoked_at: None,
    };
    let html = render(&LinkSettings::default(), "/docs/a", &[record], now);
    assert!(html.contains("ab12cd"));
    assert!(html.contains("data-revoke=\"ab12cd\""));
    assert!(html.contains("expires in 1 hour"));
    assert!(
        html.contains("id=\"mdshelf-share-empty\" hidden"),
        "got: {html}"
    );
}

#[test]
fn the_page_url_is_escaped_into_the_markup() {
    let html = render(
        &LinkSettings::default(),
        "/docs/\"><script>alert(1)</script>",
        &[],
        0,
    );
    assert!(!html.contains("<script>alert(1)</script>"));
    assert!(html.contains("&lt;script&gt;"));
}
