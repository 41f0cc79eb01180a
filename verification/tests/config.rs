use argus_core::config::{
    clamp_interval, clamp_threshold, coerce_channel, coerce_feed, coerce_topic, normalize_url,
    parse_channel, parse_feed, parse_topic, DEFAULT_FETCH_INTERVAL_SECONDS,
    MAX_FETCH_INTERVAL_SECONDS, MIN_FETCH_INTERVAL_SECONDS,
};
use argus_core::json::Json;
use argus_core::notify::{ChannelKind, EventKind, NotifyPriority, NtfyPriority};

fn to_json(v: serde_json::Value) -> Json {
    match v {
        serde_json::Value::Null => Json::Null,
        serde_json::Value::Bool(b) => Json::Bool(b),
        serde_json::Value::Number(n) => Json::Number(n.to_string()),
        serde_json::Value::String(s) => Json::Str(s),
        serde_json::Value::Array(a) => Json::Array(a.into_iter().map(to_json).collect()),
        serde_json::Value::Object(m) => Json::Object(m.into_iter().map(|(k, x)| (k, to_json(x))).collect()),
    }
}

fn parse_json(text: &str) -> Option<Json> {
    serde_json::from_str::<serde_json::Value>(text).ok().map(to_json)
}


fn json(text: &str) -> Json {
    parse_json(text).expect("test JSON parses")
}

#[test]
fn parses_a_feed_item() {
    let item = json(r#"{"id": "11111111-1111-4111-8111-111111111111", "title": "Ars Technica",
        "fields": {"field_url": "https://arstechnica.com/feed/",
                   "field_topic": "22222222-2222-4222-8222-222222222222",
                   "field_fetch_interval": 1800}}"#);
    let feed = parse_feed(&item).expect("feed parses");
    assert_eq!(feed.name, "Ars Technica");
    assert_eq!(feed.url, "https://arstechnica.com/feed/");
    assert_eq!(feed.interval_seconds, 1800);
}

#[test]
fn parses_an_integer_field_posted_as_a_string() {
    let item = json(r#"{"id": "x", "title": "Feed",
        "fields": {"field_url": "https://example.com/f", "field_fetch_interval": " 1800 "}}"#);
    assert_eq!(parse_feed(&item).expect("parses").interval_seconds, 1800);
}

#[test]
fn a_float_interval_truncates() {
    let item = json(r#"{"id": "x", "fields": {"field_fetch_interval": 1800.9}}"#);
    assert_eq!(parse_feed(&item).expect("parses").interval_seconds, 1800);
}

#[test]
fn feed_without_an_id_is_not_a_feed() {
    assert!(parse_feed(&json(r#"{"title": "orphan"}"#)).is_none());
    assert!(parse_feed(&Json::Null).is_none());
}

#[test]
fn missing_interval_falls_back_to_the_default() {
    let item = json(r#"{"id": "x", "fields": {"field_url": "https://example.com/f"}}"#);
    assert_eq!(parse_feed(&item).expect("parses").interval_seconds, DEFAULT_FETCH_INTERVAL_SECONDS);
}

#[test]
fn parses_a_topic_item_and_clamps_its_threshold() {
    let item = json(r#"{"id": "t", "title": "Infrastructure",
        "fields": {"field_relevance_prompt": "Datacentre and network operations",
                   "field_relevance_threshold": 140, "field_notify_priority": "HIGH"}}"#);
    let topic = parse_topic(&item).expect("topic parses");
    assert_eq!(topic.name, "Infrastructure");
    assert_eq!(topic.threshold, 100);
    assert_eq!(topic.notify_priority, NotifyPriority::High);
}

#[test]
fn normalizes_only_plausible_http_urls() {
    assert_eq!(normalize_url("  https://example.com/feed  ").as_deref(), Some("https://example.com/feed"));
    assert_eq!(normalize_url("http://example.com").as_deref(), Some("http://example.com"));
    assert!(normalize_url("").is_none());
    assert!(normalize_url("example.com/feed").is_none());
    assert!(normalize_url("ftp://example.com/feed").is_none());
    assert!(normalize_url("file:///etc/passwd").is_none());
    assert!(normalize_url("https://").is_none());
    assert!(normalize_url("https:///feed").is_none());
}

#[test]
fn clamps_the_interval_at_both_ends() {
    assert_eq!(clamp_interval(1), MIN_FETCH_INTERVAL_SECONDS);
    assert_eq!(clamp_interval(i64::MAX), MAX_FETCH_INTERVAL_SECONDS);
    assert_eq!(clamp_interval(-5), MIN_FETCH_INTERVAL_SECONDS);
    assert_eq!(clamp_interval(1800), 1800);
}

#[test]
fn clamps_the_threshold() {
    assert_eq!(clamp_threshold(-1), 0);
    assert_eq!(clamp_threshold(101), 100);
    assert_eq!(clamp_threshold(42), 42);
}

#[test]
fn coercion_clamps_an_impolite_interval_and_says_so() {
    let out = coerce_feed(&json(r#"{"field_url": "https://example.com/feed",
        "field_topic": "t", "field_fetch_interval": 5}"#));
    assert_eq!(out.interval_seconds, MIN_FETCH_INTERVAL_SECONDS);
    assert!(!out.disable);
    assert_eq!(out.note, "Fetch interval 5s is outside 300s..=604800s, so it was clamped to 300s.");
}

#[test]
fn coercion_disables_a_feed_whose_url_is_unusable() {
    let out = coerce_feed(&json(r#"{"field_url": "not a url", "field_topic": "t",
        "field_fetch_interval": 900}"#));
    assert!(out.disable);
    assert!(out.url.is_empty());
    assert_eq!(
        out.note,
        "URL \"not a url\" is not an absolute http(s) URL, so this feed was unpublished. Fix the URL and publish it again."
    );
}

#[test]
fn coercion_of_an_empty_feed_reports_every_gap() {
    let out = coerce_feed(&json("{}"));
    assert!(out.disable);
    assert_eq!(out.interval_seconds, DEFAULT_FETCH_INTERVAL_SECONDS);
    assert_eq!(
        out.note,
        "URL \"\" is not an absolute http(s) URL, so this feed was unpublished. Fix the URL and publish it again. \
         Fetch interval was unset, so it defaults to 900s. \
         No topic is set, so articles from this feed cannot be scored."
    );
}

#[test]
fn topic_coercion_clamps_and_normalizes() {
    let out = coerce_topic(&json(r#"{"field_relevance_threshold": -3, "field_notify_priority": "loud"}"#));
    assert_eq!(out.threshold, 0);
    assert_eq!(out.notify_priority, "normal");
    assert_eq!(
        out.note,
        "Relevance threshold -3 is outside 0..=100, so it was clamped to 0. \
         No relevance prompt is set, so every article scores against an empty brief. \
         Notification priority \"loud\" is not \"normal\" or \"high\", so it was read as \"normal\"."
    );
    let quiet = coerce_topic(&json(r#"{"field_relevance_threshold": "70", "field_relevance_prompt": "p",
        "field_notify_priority": "HIGH"}"#));
    assert_eq!(quiet.threshold, 70);
    assert_eq!(quiet.notify_priority, "high");
    assert_eq!(quiet.note, "");
}

#[test]
fn channel_coercion_blanks_what_cannot_be_used() {
    let out = coerce_channel(&json(r#"{"field_kind": "NTFY", "field_target": "https://ntfy.sh/x",
        "field_server": "nope", "field_headers": "[1]", "field_min_priority": "urgent",
        "field_events": "story.new, bogus,story.new ,alert.queue_stuck", "field_ntfy_priority": "9"}"#));
    assert_eq!(out.kind, "ntfy");
    assert_eq!(out.target, "");
    assert_eq!(out.server, "");
    assert_eq!(out.headers, "");
    assert_eq!(out.min_priority, "high");
    assert_eq!(out.events, "story.new,alert.queue_stuck");
    assert_eq!(out.ntfy_priority, "");
    assert_eq!(
        out.note,
        "ntfy target \"https://ntfy.sh/x\" looks like a URL. Put the server in the server field and only the topic name here; this channel will not be used. \
         Server \"nope\" is not an absolute http(s) URL, so the default ntfy server is used instead. \
         Headers must be a JSON object of string values, so they were cleared. \
         Minimum priority \"urgent\" is not \"normal\" or \"high\", so it was read as \"high\". \
         Dropped unrecognized event name(s) bogus. Legal names are story.new, story.updated, story.digest, alert.feed_failing, alert.budget_threshold, alert.queue_stuck. \
         ntfy priority \"9\" is not one of min, low, default, high, urgent, so the default mapping is used."
    );
}

#[test]
fn channel_coercion_reserializes_headers_sorted() {
    let out = coerce_channel(&json(r#"{"field_kind": "webhook", "field_target": " https://hooks.test/x ",
        "field_headers": "{\"X-B\": \"2\", \"X-A\": \"q\\\"t\", \"N\": 3}", "field_ntfy_priority": "max"}"#));
    assert_eq!(out.kind, "webhook");
    assert_eq!(out.target, "https://hooks.test/x");
    assert_eq!(out.headers, "{\"X-A\":\"q\\\"t\",\"X-B\":\"2\"}");
    assert_eq!(out.ntfy_priority, "urgent");
    assert_eq!(out.min_priority, "normal");
    assert_eq!(out.note, "");
}

#[test]
fn channel_coercion_names_an_unknown_kind() {
    let out = coerce_channel(&json(r#"{"field_kind": "pigeon", "field_target": "x"}"#));
    assert_eq!(out.kind, "");
    assert_eq!(out.target, "");
    assert_eq!(out.note, "Kind \"pigeon\" is not one of ntfy, slack, webhook, so this channel will not be used.");
}

#[test]
fn parses_a_channel_item() {
    let item = json(r#"{"id": "c", "title": "Phone", "fields": {"field_kind": "ntfy",
        "field_target": "argus", "field_headers": "{\"b\":\"1\",\"a\":\"2\"}",
        "field_events": "story.new,story.new", "field_ntfy_priority": "4"}}"#);
    let c = parse_channel(&item).expect("channel parses");
    assert_eq!(c.kind, ChannelKind::Ntfy);
    assert_eq!(c.target, "argus");
    assert_eq!(c.headers, vec![("a".to_string(), "2".to_string()), ("b".to_string(), "1".to_string())]);
    assert_eq!(c.events, vec![EventKind::StoryNew]);
    assert_eq!(c.ntfy_priority, Some(NtfyPriority::High));
    assert!(parse_channel(&json(r#"{"id": "c", "fields": {"field_kind": "ntfy"}}"#)).is_none());
    assert!(parse_channel(&json(r#"{"id": "c", "fields": {"field_kind": "fax", "field_target": "x"}}"#)).is_none());
}

#[test]
fn a_clean_feed_edit_is_left_alone() {
    let out = coerce_feed(&json(r#"{"field_url": "https://example.com/feed",
        "field_topic": "22222222-2222-4222-8222-222222222222", "field_fetch_interval": 1800}"#));
    assert_eq!(out.url, "https://example.com/feed");
    assert_eq!(out.interval_seconds, 1800);
    assert!(!out.disable);
    assert!(out.note.is_empty(), "note was {:?}", out.note);
}

#[test]
fn coercion_flags_a_feed_with_no_topic() {
    let out = coerce_feed(&json(r#"{"field_url": "https://example.com/feed", "field_fetch_interval": 900}"#));
    assert!(!out.disable, "a topicless feed is fetchable, just unscored");
    assert!(out.note.contains("No topic"), "note was {:?}", out.note);
}

#[test]
fn topic_coercion_clamps_and_reports() {
    let out = coerce_topic(&json(r#"{"field_relevance_prompt": "Anything about Rust",
        "field_relevance_threshold": -3}"#));
    assert_eq!(out.threshold, 0);
    assert!(out.note.contains("clamped"), "note was {:?}", out.note);
}

#[test]
fn a_clean_topic_edit_is_left_alone() {
    let out = coerce_topic(&json(r#"{"field_relevance_prompt": "Anything about Rust",
        "field_relevance_threshold": 60, "field_notify_priority": "normal"}"#));
    assert_eq!(out.threshold, 60);
    assert_eq!(out.notify_priority, "normal");
    assert!(out.note.is_empty(), "note was {:?}", out.note);
}

#[test]
fn a_topic_defaults_to_normal_notification_priority() {
    let topic = parse_topic(&json(r#"{"id": "22222222-2222-4222-8222-222222222222",
        "fields": {"field_relevance_prompt": "x"}}"#))
    .expect("parses");
    assert_eq!(topic.notify_priority, NotifyPriority::Normal);
}

#[test]
fn a_high_priority_topic_is_read_as_such() {
    let topic = parse_topic(&json(r#"{"id": "22222222-2222-4222-8222-222222222222",
        "fields": {"field_relevance_prompt": "x", "field_notify_priority": " High "}}"#))
    .expect("parses");
    assert_eq!(topic.notify_priority, NotifyPriority::High);
}

#[test]
fn an_unreadable_topic_priority_is_normalized_and_reported() {
    let out = coerce_topic(&json(r#"{"field_relevance_prompt": "x", "field_relevance_threshold": 60,
        "field_notify_priority": "VERY LOUD"}"#));
    assert_eq!(out.notify_priority, "normal");
    assert!(out.note.contains("VERY LOUD"), "note was {:?}", out.note);
}

fn channel_item(fields: &str) -> Json {
    json(&format!(
        r#"{{"id": "33333333-3333-4333-8333-333333333333", "title": "Ops webhook", "fields": {}}}"#,
        fields
    ))
}

#[test]
fn parses_a_webhook_channel_with_headers_and_a_filter() {
    let channel = parse_channel(&channel_item(
        r#"{"field_kind": "webhook", "field_target": "https://ops.example/hook",
            "field_headers": "{\"Authorization\": \"Bearer x\", \"X-Env\": \"prod\"}",
            "field_min_priority": "high", "field_events": "story.new, alert.queue_stuck"}"#,
    ))
    .expect("channel parses");
    assert_eq!(channel.name, "Ops webhook");
    assert_eq!(channel.kind, ChannelKind::Webhook);
    assert_eq!(channel.target, "https://ops.example/hook");
    assert_eq!(channel.min_priority, NotifyPriority::High);
    assert_eq!(channel.events, vec![EventKind::StoryNew, EventKind::QueueStuck]);
    assert_eq!(
        channel.headers,
        vec![
            ("Authorization".to_string(), "Bearer x".to_string()),
            ("X-Env".to_string(), "prod".to_string()),
        ]
    );
}

#[test]
fn parses_an_ntfy_channel_with_a_server_and_a_priority_override() {
    let channel = parse_channel(&channel_item(
        r#"{"field_kind": "ntfy", "field_target": "argus-news",
            "field_server": "https://push.example", "field_ntfy_priority": "urgent"}"#,
    ))
    .expect("channel parses");
    assert_eq!(channel.target, "argus-news");
    assert_eq!(channel.server, "https://push.example");
    assert_eq!(channel.ntfy_priority, Some(NtfyPriority::Urgent));
    assert!(channel.events.is_empty(), "no filter means every event");
}

#[test]
fn a_channel_with_no_kind_or_no_target_is_not_loaded() {
    assert!(parse_channel(&channel_item(
        r#"{"field_kind": "carrier pigeon", "field_target": "https://ops.example/hook"}"#
    ))
    .is_none());
    assert!(parse_channel(&channel_item(r#"{"field_kind": "webhook", "field_target": "  "}"#)).is_none());
    assert!(parse_channel(&json(r#"{"title": "orphan"}"#)).is_none());
}

#[test]
fn malformed_headers_are_ignored_rather_than_half_applied() {
    let channel = parse_channel(&channel_item(
        r#"{"field_kind": "webhook", "field_target": "https://ops.example/hook",
            "field_headers": "not json at all"}"#,
    ))
    .expect("channel parses");
    assert!(channel.headers.is_empty());
}

#[test]
fn a_clean_channel_edit_is_left_alone() {
    let out = coerce_channel(&json(r#"{"field_kind": "webhook", "field_target": "https://ops.example/hook",
        "field_min_priority": "normal"}"#));
    assert_eq!(out.kind, "webhook");
    assert_eq!(out.target, "https://ops.example/hook");
    assert_eq!(out.min_priority, "normal");
    assert!(out.note.is_empty(), "note was {:?}", out.note);
}

#[test]
fn an_unknown_channel_kind_is_blanked_and_explained() {
    let out = coerce_channel(&json(r#"{"field_kind": "telegram", "field_target": "https://api.telegram.test/x"}"#));
    assert!(out.kind.is_empty());
    assert!(out.target.is_empty(), "an unusable kind has no usable target");
    assert!(out.note.contains("telegram"), "note was {:?}", out.note);
    assert!(out.note.contains("will not be used"));
}

#[test]
fn a_webhook_target_that_is_not_a_url_is_blanked_and_explained() {
    let out = coerce_channel(&json(r#"{"field_kind": "slack", "field_target": "hooks.slack.com/services/x"}"#));
    assert!(out.target.is_empty());
    assert!(out.note.contains("absolute http(s) URL"));
}

#[test]
fn an_ntfy_topic_that_is_really_a_url_is_refused_with_the_fix_named() {
    let out = coerce_channel(&json(r#"{"field_kind": "ntfy", "field_target": "https://ntfy.sh/argus"}"#));
    assert!(out.target.is_empty());
    assert!(out.note.contains("server field"), "note was {:?}", out.note);
}

#[test]
fn channel_headers_are_normalized_and_a_bad_object_is_reported() {
    let out = coerce_channel(&json(r#"{"field_kind": "webhook", "field_target": "https://ops.example/hook",
        "field_headers": "{\"b\": \"2\", \"a\": \"1\"}"}"#));
    assert_eq!(out.headers, r#"{"a":"1","b":"2"}"#);
    assert!(out.note.is_empty());

    let bad = coerce_channel(&json(r#"{"field_kind": "webhook", "field_target": "https://ops.example/hook",
        "field_headers": "[1, 2, 3]"}"#));
    assert!(bad.headers.is_empty());
    assert!(bad.note.contains("JSON object"));
}

#[test]
fn an_unknown_event_name_is_dropped_and_the_legal_ones_are_listed() {
    let out = coerce_channel(&json(r#"{"field_kind": "webhook", "field_target": "https://ops.example/hook",
        "field_events": "story.new, story.exploded, alert.budget_threshold"}"#));
    assert_eq!(out.events, "story.new,alert.budget_threshold");
    assert!(out.note.contains("story.exploded"));
    assert!(out.note.contains("story.digest"), "note was {:?}", out.note);
}

#[test]
fn a_duplicated_event_name_is_listed_once() {
    let out = coerce_channel(&json(r#"{"field_kind": "webhook", "field_target": "https://ops.example/hook",
        "field_events": "story.new,story.new"}"#));
    assert_eq!(out.events, "story.new");
}

#[test]
fn a_bad_ntfy_priority_override_falls_back_to_the_default_ladder() {
    let out = coerce_channel(&json(r#"{"field_kind": "ntfy", "field_target": "argus",
        "field_ntfy_priority": "deafening"}"#));
    assert!(out.ntfy_priority.is_empty());
    assert!(out.note.contains("deafening"));
}

fn quoted(s: &str) -> String {
    serde_json::to_string(s).expect("a string serializes")
}

#[test]
fn a_coerced_channel_round_trips_back_through_the_parser() {
    let out = coerce_channel(&json(r#"{"field_kind": "NTFY", "field_target": "argus-news",
        "field_server": "  https://push.example/  ", "field_min_priority": "HIGH",
        "field_events": "story.new", "field_ntfy_priority": "5"}"#));
    let fields = format!(
        r#"{{"field_kind": {}, "field_target": {}, "field_server": {}, "field_headers": {},
            "field_min_priority": {}, "field_events": {}, "field_ntfy_priority": {}}}"#,
        quoted(&out.kind),
        quoted(&out.target),
        quoted(&out.server),
        quoted(&out.headers),
        quoted(&out.min_priority),
        quoted(&out.events),
        quoted(&out.ntfy_priority)
    );
    let channel = parse_channel(&channel_item(&fields)).expect("a coerced channel is a loadable channel");
    assert_eq!(channel.kind, ChannelKind::Ntfy);
    assert_eq!(channel.target, "argus-news");
    assert_eq!(channel.server, "https://push.example/");
    assert_eq!(channel.min_priority, NotifyPriority::High);
    assert_eq!(channel.events, vec![EventKind::StoryNew]);
    assert_eq!(channel.ntfy_priority, Some(NtfyPriority::Urgent));
}
