use argus_core::cluster::{is_stale, window_start, DEFAULT_INACTIVE_SECONDS, DEFAULT_WINDOW_SECONDS};

const DAY: i64 = 86_400;

#[test]
fn a_story_goes_stale_after_the_idle_period() {
    let now = 100 * DAY;
    assert!(!is_stale(Some(now - DAY), now, DEFAULT_INACTIVE_SECONDS));
    assert!(!is_stale(Some(now - DEFAULT_INACTIVE_SECONDS), now, DEFAULT_INACTIVE_SECONDS));
    assert!(is_stale(Some(now - DEFAULT_INACTIVE_SECONDS - 1), now, DEFAULT_INACTIVE_SECONDS));
}

#[test]
fn a_story_with_no_dated_member_is_not_stale() {
    assert!(!is_stale(None, 100 * DAY, DEFAULT_INACTIVE_SECONDS));
}

#[test]
fn window_start_is_the_window_before_now() {
    assert_eq!(window_start(100 * DAY, DEFAULT_WINDOW_SECONDS), 86 * DAY);
    assert_eq!(window_start(10, 100), -90);
    assert_eq!(window_start(i64::MIN, 100), i64::MIN);
    assert_eq!(window_start(i64::MAX, -1), i64::MAX);
}
