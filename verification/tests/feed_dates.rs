use argus_core::feed::{
    days_from_civil, month_from_abbr, parse_date, parse_rfc3339, parse_rfc822, parse_tz_offset,
    rfc822_offset, to_timestamp,
};

#[test]
fn rfc3339_utc_epoch() {
    let ts = parse_date("2026-07-18T14:30:00Z").unwrap();
    assert_eq!(ts, to_timestamp(2026, 7, 18, 14, 30, 0));
}

#[test]
fn rfc3339_offset_applied() {
    let ts = parse_date("2026-07-17T09:00:00+02:00").unwrap();
    assert_eq!(ts, to_timestamp(2026, 7, 17, 7, 0, 0));
}

#[test]
fn rfc822_gmt() {
    let ts = parse_date("Sat, 18 Jul 2026 14:30:00 GMT").unwrap();
    assert_eq!(ts, to_timestamp(2026, 7, 18, 14, 30, 0));
}

#[test]
fn epoch_zero_sanity() {
    assert_eq!(to_timestamp(1970, 1, 1, 0, 0, 0), 0);
    assert_eq!(to_timestamp(2000, 1, 1, 0, 0, 0), 946_684_800);
}

#[test]
fn civil_days_known_values() {
    assert_eq!(days_from_civil(1970, 1, 1), 0);
    assert_eq!(days_from_civil(2024, 2, 29), 19_782);
    assert_eq!(days_from_civil(1969, 12, 31), -1);
}

#[test]
fn rfc822_named_zones_and_two_digit_years() {
    assert_eq!(
        parse_rfc822("18 Jul 26 14:30 EST"),
        Some(to_timestamp(2026, 7, 18, 19, 30, 0))
    );
    assert_eq!(rfc822_offset("PDT"), -7 * 3600);
    assert_eq!(rfc822_offset("+0130"), 5400);
    assert_eq!(month_from_abbr("Dec"), Some(12));
    assert_eq!(month_from_abbr("dec"), None);
}

#[test]
fn malformed_dates_are_none() {
    assert_eq!(parse_date("yesterday"), None);
    assert_eq!(parse_rfc3339("2026-13-18T14:30:00Z"), None);
    assert_eq!(parse_rfc3339("2026/07/18T14:30:00Z"), None);
    assert_eq!(parse_rfc822("Sat, 32 Jul 2026 14:30:00 GMT"), None);
    assert_eq!(parse_rfc822("Sat, 18 Jul 2026"), None);
}

#[test]
fn zone_offsets_skip_fractions_and_read_signs() {
    assert_eq!(parse_tz_offset(".123Z"), 0);
    assert_eq!(parse_tz_offset("-05:30"), -(5 * 3600 + 30 * 60));
    assert_eq!(parse_tz_offset("+1"), 0);
    assert_eq!(parse_tz_offset("+020"), 7200);
    assert_eq!(parse_date("  2026-07-18 14:30:00.5+01:00 "), Some(to_timestamp(2026, 7, 18, 13, 30, 0)));
}

#[test]
fn a_thirteenth_month_counts_on_into_the_next_year() {
    assert_eq!(days_from_civil(2025, 13, 1), 20_454);
    assert_eq!(days_from_civil(2025, 13, 1), days_from_civil(2026, 1, 1));
    assert_eq!(to_timestamp(2025, 13, 1, 0, 0, 0), 20_454 * 86_400);
}
