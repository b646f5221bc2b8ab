use mdshelf::cli::format_timestamp;
use mdshelf::links::time::{
    civil_from_days, days_from_civil, format_instant, humanize_remaining, parse_until,
};

#[test]
fn civil_days_round_trip() {
    for (year, month, day) in [
        (1970, 1, 1),
        (2000, 2, 29),
        (2026, 9, 1),
        (2026, 12, 31),
        (2100, 3, 1),
    ] {
        let days = days_from_civil(year, month, day);
        assert_eq!(civil_from_days(days), (year, month, day));
    }
    assert_eq!(days_from_civil(1970, 1, 1), 0);
}

#[test]
fn a_bare_date_is_read_as_the_end_of_that_day_in_utc() {
    let ms = parse_until("2026-09-01").unwrap();
    assert_eq!(format_instant(ms), "2026-09-01 23:59:59Z");
}

#[test]
fn an_explicit_time_is_read_as_utc() {
    assert_eq!(
        format_instant(parse_until("2026-09-01T08:30").unwrap()),
        "2026-09-01 08:30:00Z"
    );
    assert_eq!(
        format_instant(parse_until("2026-09-01T08:30:15Z").unwrap()),
        "2026-09-01 08:30:15Z"
    );
}

#[test]
fn an_offset_is_honoured_rather_than_ignored() {
    assert_eq!(
        format_instant(parse_until("2026-09-01T08:30:00+02:00").unwrap()),
        "2026-09-01 06:30:00Z"
    );
    assert_eq!(
        format_instant(parse_until("2026-09-01T08:30:00-05:00").unwrap()),
        "2026-09-01 13:30:00Z"
    );
    assert_eq!(
        format_instant(parse_until("2026-09-01T08:30:00+0200").unwrap()),
        "2026-09-01 06:30:00Z"
    );
}

#[test]
fn nonsense_dates_are_refused_rather_than_rounded() {
    for bad in [
        "",
        "tomorrow",
        "2026-13-01",
        "2026-02-30",
        "2026-9-1",
        "26-09-01",
        "2026-09-01T25:00",
        "2026-09-01T08:60",
        "2026-09-01T08:30:00+99:00",
    ] {
        assert!(parse_until(bad).is_err(), "`{bad}` should be refused");
    }
    assert!(parse_until("2028-02-29").is_ok());
    assert!(parse_until("2026-02-29").is_err());
}

#[test]
fn remaining_time_rounds_down() {
    assert_eq!(humanize_remaining(0), "less than a minute");
    assert_eq!(humanize_remaining(59_000), "less than a minute");
    assert_eq!(humanize_remaining(60_000), "1 minute");
    assert_eq!(humanize_remaining(3_600_000), "1 hour");
    assert_eq!(humanize_remaining(20 * 3_600_000 + 59 * 60_000), "20 hours");
    assert_eq!(humanize_remaining(3 * 86_400_000 + 1), "3 days");
}

#[test]
fn the_epoch_and_negative_instants_format_exactly() {
    assert_eq!(format_instant(0), "1970-01-01 00:00:00Z");
    assert_eq!(format_instant(-1), "1969-12-31 23:59:59Z");
    assert_eq!(civil_from_days(-1), (1969, 12, 31));
    assert_eq!(days_from_civil(2000, 3, 1), 11_017);
}

#[test]
fn whitespace_and_lowercase_zulu_are_accepted() {
    assert_eq!(
        format_instant(parse_until("  2026-09-01 08:30z ").unwrap()),
        "2026-09-01 08:30:00Z"
    );
    assert!(parse_until("2026-09-01T08:30:00+2:00").is_ok());
    assert!(parse_until("2026-09-01T08:30:00+02").is_err());
}

#[test]
fn an_audit_timestamp_drops_milliseconds_toward_zero() {
    assert_eq!(format_timestamp(0), "1970-01-01 00:00:00Z");
    assert_eq!(format_timestamp(1_700_000_000_123), "2023-11-14 22:13:20Z");
    assert_eq!(format_timestamp(-1), "1970-01-01 00:00:00Z");
    assert_eq!(format_timestamp(-1_000), "1969-12-31 23:59:59Z");
}

#[test]
fn an_unreadable_expiry_is_refused_with_its_own_text() {
    assert_eq!(
        parse_until("tomorrow"),
        Err("`tomorrow` is not a valid expiry; expected YYYY-MM-DD, optionally with THH:MM or THH:MM:SS and Z or ±HH:MM".to_string())
    );
    assert_eq!(
        parse_until("   "),
        Err("--until is empty; expected a date such as 2026-09-01".to_string())
    );
}

#[test]
fn the_calendar_round_trip_holds_far_from_today() {
    for (year, month, day) in [(25_000_000_000_000_000i64, 2u32, 28u32), (-25_000_000_000_000_000, 3, 1), (2_000_000_000_000, 2, 29)] {
        assert_eq!(civil_from_days(days_from_civil(year, month, day)), (year, month, day));
    }
}
