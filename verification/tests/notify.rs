use argus_core::json::Json;
use argus_core::notify::{
    all_delivered, classify_status, ntfy_tags, ntfy_url, truncate_chars, ChannelConfig,
    ChannelKind, ChannelOutcome, DeliveryState, EventKind, EventState, Notification,
    NotifyPriority, NtfyPriority,
};

fn channel(kind: ChannelKind, target: &str) -> ChannelConfig {
    ChannelConfig {
        id: "c1".into(),
        name: "test channel".into(),
        kind,
        target: target.into(),
        server: String::new(),
        headers: Vec::new(),
        min_priority: NotifyPriority::Normal,
        events: Vec::new(),
        ntfy_priority: None,
    }
}

fn note(kind: EventKind, priority: NotifyPriority) -> Notification {
    Notification {
        kind,
        priority,
        title: "Title".into(),
        body: "Body".into(),
        link: None,
        timestamp: 0,
        subject_id: None,
        data: Json::Null,
    }
}

#[test]
fn every_event_kind_round_trips_through_its_column_value() {
    for kind in EventKind::all() {
        assert_eq!(EventKind::from_column(kind.as_str()), Some(kind), "{kind:?} does not round-trip");
    }
    assert_eq!(EventKind::from_column("story.exploded"), None);
}

#[test]
fn event_column_values_are_unique() {
    let mut seen: Vec<&str> = EventKind::all().iter().map(|k| k.as_str()).collect();
    seen.sort_unstable();
    let before = seen.len();
    seen.dedup();
    assert_eq!(before, seen.len(), "two kinds share a column value");
}

#[test]
fn exactly_three_kinds_are_operator_alerts() {
    let alerts: Vec<&str> = EventKind::all()
        .iter()
        .filter(|k| k.is_operator_alert())
        .map(|k| k.as_str())
        .collect();
    assert_eq!(alerts, vec!["alert.feed_failing", "alert.budget_threshold", "alert.queue_stuck"]);
}

#[test]
fn every_ntfy_level_round_trips_and_has_its_documented_number() {
    for (level, n) in [
        (NtfyPriority::Min, 1),
        (NtfyPriority::Low, 2),
        (NtfyPriority::Default, 3),
        (NtfyPriority::High, 4),
        (NtfyPriority::Urgent, 5),
    ] {
        assert_eq!(level.as_i64(), n);
        assert_eq!(NtfyPriority::parse(level.as_str()), Some(level));
        assert_eq!(NtfyPriority::parse(&n.to_string()), Some(level));
    }
    assert_eq!(NtfyPriority::parse("loud"), None);
}

#[test]
fn the_ntfy_ladder_orders_alerts_above_stories_and_digests_below_them() {
    assert_eq!(NtfyPriority::for_event(EventKind::StoryNew, NotifyPriority::Normal), NtfyPriority::Default);
    assert_eq!(NtfyPriority::for_event(EventKind::StoryNew, NotifyPriority::High), NtfyPriority::High);
    assert_eq!(NtfyPriority::for_event(EventKind::StoryDigest, NotifyPriority::Normal), NtfyPriority::Low);
    assert_eq!(NtfyPriority::for_event(EventKind::QueueStuck, NotifyPriority::Normal), NtfyPriority::High);
    assert_eq!(NtfyPriority::for_event(EventKind::QueueStuck, NotifyPriority::High), NtfyPriority::Urgent);
}

#[test]
fn priority_parsing_is_lenient_and_defaults_to_normal() {
    assert_eq!(NotifyPriority::parse(" HIGH "), NotifyPriority::High);
    assert_eq!(NotifyPriority::parse("urgent"), NotifyPriority::High);
    assert_eq!(NotifyPriority::parse("nonsense"), NotifyPriority::Normal);
    assert_eq!(NotifyPriority::parse(""), NotifyPriority::Normal);
}

#[test]
fn channel_kind_round_trips_and_accepts_aliases() {
    for kind in ChannelKind::all() {
        assert_eq!(ChannelKind::parse(kind.as_str()), Some(kind));
    }
    assert_eq!(ChannelKind::parse("HTTP"), Some(ChannelKind::Webhook));
    assert_eq!(ChannelKind::parse("carrier pigeon"), None);
}

#[test]
fn event_states_round_trip() {
    for s in [EventState::Pending, EventState::Sent, EventState::Suppressed, EventState::Digested] {
        assert_eq!(EventState::from_column(s.as_str()), Some(s));
    }
    assert_eq!(EventState::from_column("Pending"), None);
}

#[test]
fn a_priority_floor_drops_normal_traffic() {
    let mut c = channel(ChannelKind::Ntfy, "argus");
    c.min_priority = NotifyPriority::High;
    assert!(!c.accepts(&note(EventKind::StoryNew, NotifyPriority::Normal)));
    assert!(c.accepts(&note(EventKind::StoryNew, NotifyPriority::High)));
}

#[test]
fn an_event_filter_drops_everything_it_does_not_name() {
    let mut c = channel(ChannelKind::Slack, "https://hooks.slack.test/x");
    c.events = vec![EventKind::FeedFailing];
    assert!(c.accepts(&note(EventKind::FeedFailing, NotifyPriority::Normal)));
    assert!(!c.accepts(&note(EventKind::StoryNew, NotifyPriority::Normal)));
    assert!(!c.accepts(&note(EventKind::StoryDigest, NotifyPriority::Normal)));
}

#[test]
fn a_digest_goes_wherever_story_events_go() {
    let mut c = channel(ChannelKind::Slack, "https://hooks.slack.test/x");
    c.events = vec![EventKind::StoryUpdated];
    assert!(c.accepts(&note(EventKind::StoryDigest, NotifyPriority::Normal)));
}

#[test]
fn status_classification() {
    assert_eq!(classify_status(204), (DeliveryState::Delivered, None));
    assert_eq!(classify_status(429), (DeliveryState::Failed, Some("rate limited (HTTP 429)".to_string())));
    assert_eq!(classify_status(503), (DeliveryState::Failed, Some("HTTP 503".to_string())));
    assert_eq!(classify_status(404), (DeliveryState::Blocked, Some("HTTP 404".to_string())));
    assert_eq!(classify_status(0), (DeliveryState::Blocked, Some("HTTP 0".to_string())));
    assert!(DeliveryState::Failed.is_retryable());
    assert!(!DeliveryState::Blocked.is_retryable());
    assert_eq!(DeliveryState::Skipped.as_str(), "skipped");
}

#[test]
fn truncation_is_character_safe_and_marks_the_cut() {
    assert_eq!(truncate_chars("short", 10), "short");
    assert_eq!(truncate_chars("héllo wörld", 7), "héllo\u{2026}");
    assert_eq!(truncate_chars("abcdef", 1), "\u{2026}");
    assert_eq!(truncate_chars("abcdef", 0), "\u{2026}");
    assert_eq!(note(EventKind::StoryNew, NotifyPriority::Normal).short_body(2), "B\u{2026}");
}

#[test]
fn ntfy_urls_join_server_and_topic() {
    assert_eq!(ntfy_url("", " argus "), "https://ntfy.sh/argus");
    assert_eq!(ntfy_url(" https://ntfy.example/// ", "news"), "https://ntfy.example/news");
    assert_eq!(ntfy_tags(EventKind::QueueStuck), vec!["rotating_light"]);
}

#[test]
fn skips_count_as_delivered_but_failures_do_not() {
    let o = |state| ChannelOutcome {
        channel_id: "c".into(),
        channel_name: "n".into(),
        state,
        http_status: None,
        error: None,
        request: None,
    };
    assert!(all_delivered(&[o(DeliveryState::Delivered), o(DeliveryState::Skipped)]));
    assert!(!all_delivered(&[o(DeliveryState::Delivered), o(DeliveryState::Failed)]));
    assert!(all_delivered(&[]));
}
