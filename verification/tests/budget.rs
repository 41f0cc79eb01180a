use argus_core::budget::{next_utc_day_start, seconds_until_next_day, utc_day};

#[test]
fn utc_day_matches_known_timestamps() {
    assert_eq!(utc_day(0), "1970-01-01");
    assert_eq!(utc_day(86_399), "1970-01-01");
    assert_eq!(utc_day(86_400), "1970-01-02");
    assert_eq!(utc_day(1_767_225_600), "2026-01-01");
    assert_eq!(utc_day(1_709_164_800), "2024-02-29");
    assert_eq!(utc_day(1_709_251_200), "2024-03-01");
}

#[test]
fn utc_day_handles_pre_epoch_timestamps() {
    assert_eq!(utc_day(-1), "1969-12-31");
    assert_eq!(utc_day(-86_400), "1969-12-31");
    assert_eq!(utc_day(-86_401), "1969-12-30");
}

#[test]
fn the_next_day_starts_at_midnight() {
    assert_eq!(next_utc_day_start(0), 86_400);
    assert_eq!(next_utc_day_start(86_399), 86_400);
    assert_eq!(next_utc_day_start(86_400), 172_800);
}

#[test]
fn the_pause_delay_is_the_rest_of_the_day_and_never_zero() {
    assert_eq!(seconds_until_next_day(0), 86_400);
    assert_eq!(seconds_until_next_day(86_399), 1);
    assert_eq!(seconds_until_next_day(86_400), 86_400);
}

#[test]
fn a_paused_job_lands_in_the_next_day() {
    let now = 1_767_225_600 + 3_600;
    let resumed = now + seconds_until_next_day(now);
    assert_eq!(utc_day(now), "2026-01-01");
    assert_eq!(utc_day(resumed), "2026-01-02");
}

#[test]
fn utc_day_pads_early_and_negative_years() {
    // Day -719162 is 0001-01-01; one day earlier is year 0.
    assert_eq!(utc_day(-719_162 * 86_400), "0001-01-01");
    assert_eq!(utc_day(-719_163 * 86_400), "0000-12-31");
    assert_eq!(utc_day(-719_529 * 86_400), "-001-12-31");
}

#[test]
fn the_day_label_turns_exactly_at_the_next_day_start() {
    for t in [0i64, 86_399, 86_400, 1_767_225_599, -1, -86_401, 951_782_400] {
        let next = next_utc_day_start(t);
        assert_ne!(utc_day(next), utc_day(t));
        assert_eq!(utc_day(next - 1), utc_day(t));
        assert_ne!(utc_day(t + seconds_until_next_day(t)), utc_day(t));
    }
}
