use std::cell::RefCell;

use argus_core::error::CoreError;
use argus_core::json::Json;
use argus_core::notify::{
    all_delivered, deliver, dispatch, render, ChannelConfig, ChannelKind, DeliveryState, EventKind,
    Notification, NotifyPriority, NtfyPriority, OutboundRequest, OutboundResponse, Transport,
    NTFY_BODY_CHARS, WEBHOOK_PAYLOAD_VERSION,
};
use argus_core::notify::digest_notification;
use serde_json::Value;

fn to_json(v: serde_json::Value) -> Json {
    match v {
        serde_json::Value::Null => Json::Null,
        serde_json::Value::Bool(b) => Json::Bool(b),
        serde_json::Value::Number(n) => Json::Number(n.to_string()),
        serde_json::Value::String(s) => Json::Str(s),
        serde_json::Value::Array(a) => Json::Array(a.into_iter().map(to_json).collect()),
        serde_json::Value::Object(m) => Json::Object(m.into_iter().map(|(k, x)| (k, to_json(x))).collect()),
    }
}

fn parse_json(text: &str) -> Option<Json> {
    serde_json::from_str::<serde_json::Value>(text).ok().map(to_json)
}


/// A transport that answers from a script (then 200s) and records what it
/// was sent.
struct Recorder {
    script: RefCell<Vec<Result<OutboundResponse, CoreError>>>,
    sent: RefCell<Vec<OutboundRequest>>,
}

impl Recorder {
    fn new(script: Vec<Result<OutboundResponse, CoreError>>) -> Recorder {
        Recorder { script: RefCell::new(script), sent: RefCell::new(Vec::new()) }
    }

    fn ok() -> Recorder {
        Recorder::new(Vec::new())
    }

    fn sent(&self) -> Vec<OutboundRequest> {
        self.sent.borrow().clone()
    }
}

impl Transport for Recorder {
    fn post(&self, req: &OutboundRequest) -> Result<OutboundResponse, CoreError> {
        self.sent.borrow_mut().push(req.clone());
        let mut script = self.script.borrow_mut();
        if script.is_empty() {
            return Ok(OutboundResponse { status: 200, body: String::new() });
        }
        script.remove(0)
    }
}

fn note(kind: EventKind, priority: NotifyPriority) -> Notification {
    Notification {
        kind,
        priority,
        title: "Chip maker posts record quarter".into(),
        body: "Reuters reported record revenue. Bloomberg disagreed on the margin.".into(),
        link: Some("https://news.example/stories/abc".into()),
        timestamp: 1_767_225_600,
        subject_id: Some("abc".into()),
        data: parse_json(r#"{"article_count": 3}"#).expect("data parses"),
    }
}

fn channel(kind: ChannelKind, target: &str) -> ChannelConfig {
    ChannelConfig {
        id: format!("chan-{}", kind.as_str()),
        name: format!("{} channel", kind.as_str()),
        kind,
        target: target.into(),
        server: String::new(),
        headers: Vec::new(),
        min_priority: NotifyPriority::Normal,
        events: Vec::new(),
        ntfy_priority: None,
    }
}

fn body_of(req: &OutboundRequest) -> Value {
    serde_json::from_str(&req.body).expect("the body is JSON")
}

#[test]
fn a_digest_is_accepted_by_a_channel_that_wanted_its_parts() {
    let mut c = channel(ChannelKind::Ntfy, "argus");
    c.events = vec![EventKind::StoryNew];
    assert!(c.accepts(&note(EventKind::StoryDigest, NotifyPriority::Normal)));

    c.events = vec![EventKind::BudgetThreshold];
    assert!(!c.accepts(&note(EventKind::StoryDigest, NotifyPriority::Normal)));
}

#[test]
fn an_empty_event_filter_accepts_every_kind() {
    let c = channel(ChannelKind::Webhook, "https://ops.example/hook");
    for kind in EventKind::all() {
        assert!(c.accepts(&note(kind, NotifyPriority::Normal)), "{kind:?}");
    }
}

#[test]
fn ntfy_renders_topic_url_title_message_priority_and_click() {
    let c = channel(ChannelKind::Ntfy, "argus-news");
    let req = render(&c, &note(EventKind::StoryNew, NotifyPriority::Normal)).unwrap();
    assert_eq!(req.url, "https://ntfy.sh/argus-news");
    let body = body_of(&req);
    assert_eq!(body["title"], "Chip maker posts record quarter");
    assert!(body["message"].as_str().unwrap().contains("Bloomberg"));
    assert_eq!(body["priority"], 3);
    assert_eq!(body["tags"], Value::Array(vec![Value::String("newspaper".into())]));
    assert_eq!(body["click"], "https://news.example/stories/abc");
}

#[test]
fn ntfy_uses_a_self_hosted_server_and_strips_its_trailing_slash() {
    let mut c = channel(ChannelKind::Ntfy, "argus");
    c.server = "https://push.internal.example/".into();
    let req = render(&c, &note(EventKind::StoryNew, NotifyPriority::Normal)).unwrap();
    assert_eq!(req.url, "https://push.internal.example/argus");
}

#[test]
fn an_explicit_ntfy_priority_overrides_the_ladder() {
    let mut c = channel(ChannelKind::Ntfy, "argus");
    c.ntfy_priority = Some(NtfyPriority::Min);
    let req = render(&c, &note(EventKind::QueueStuck, NotifyPriority::High)).unwrap();
    assert_eq!(body_of(&req)["priority"], 1, "the override wins over urgent");
}

#[test]
fn ntfy_truncates_a_long_body_on_a_character_boundary() {
    let mut n = note(EventKind::StoryNew, NotifyPriority::Normal);
    n.body = "é".repeat(4000);
    let req = render(&channel(ChannelKind::Ntfy, "argus"), &n).unwrap();
    let body = body_of(&req);
    let message = body["message"].as_str().unwrap();
    assert_eq!(message.chars().count(), NTFY_BODY_CHARS);
    assert!(message.ends_with('\u{2026}'));
}

#[test]
fn slack_renders_text_blocks_and_a_link() {
    let c = channel(ChannelKind::Slack, "https://hooks.slack.test/T/B/X");
    let req = render(&c, &note(EventKind::StoryNew, NotifyPriority::Normal)).unwrap();
    assert_eq!(req.url, "https://hooks.slack.test/T/B/X");
    let body = body_of(&req);
    let text = body["text"].as_str().unwrap();
    assert!(text.starts_with("*Chip maker posts record quarter*"));
    assert!(text.contains("<https://news.example/stories/abc|Read the story>"));
    assert_eq!(body["blocks"][0]["text"]["text"], body["text"]);
}

#[test]
fn the_webhook_envelope_is_the_documented_shape() {
    let c = channel(ChannelKind::Webhook, "https://ops.example/hook");
    let req = render(&c, &note(EventKind::StoryUpdated, NotifyPriority::High)).unwrap();
    let body = body_of(&req);
    assert_eq!(body["source"], "argus");
    assert_eq!(body["version"], WEBHOOK_PAYLOAD_VERSION);
    assert_eq!(body["event"], "story.updated");
    assert_eq!(body["priority"], "high");
    assert_eq!(body["timestamp"], 1_767_225_600);
    assert_eq!(body["subject_id"], "abc");
    assert_eq!(body["title"], "Chip maker posts record quarter");
    assert_eq!(body["link"], "https://news.example/stories/abc");
    assert_eq!(body["data"]["article_count"], 3);
    assert_eq!(req.headers, vec![("Content-Type".to_string(), "application/json".to_string())]);
}

#[test]
fn webhook_headers_are_applied_and_a_supplied_content_type_replaces_the_default() {
    let mut c = channel(ChannelKind::Webhook, "https://ops.example/hook");
    c.headers = vec![
        ("Authorization".into(), "Bearer sekrit".into()),
        ("content-type".into(), "application/vnd.argus+json".into()),
    ];
    let req = render(&c, &note(EventKind::StoryNew, NotifyPriority::Normal)).unwrap();
    assert_eq!(
        req.headers,
        vec![
            ("content-type".to_string(), "application/vnd.argus+json".to_string()),
            ("Authorization".to_string(), "Bearer sekrit".to_string()),
        ]
    );
}

#[test]
fn a_notification_with_no_link_omits_the_click_and_the_slack_footer() {
    let mut n = note(EventKind::BudgetThreshold, NotifyPriority::Normal);
    n.link = None;
    let ntfy = body_of(&render(&channel(ChannelKind::Ntfy, "argus"), &n).unwrap());
    assert!(ntfy.get("click").is_none());

    let slack = body_of(&render(&channel(ChannelKind::Slack, "https://hooks.slack.test/x"), &n).unwrap());
    assert!(!slack["text"].as_str().unwrap().contains("Read the story"));
}

#[test]
fn an_empty_target_cannot_be_rendered() {
    let err = render(&channel(ChannelKind::Ntfy, "   "), &note(EventKind::StoryNew, NotifyPriority::Normal))
        .unwrap_err();
    assert!(matches!(err, CoreError::Invalid(_)));
    assert!(!err.is_transient());
}

#[test]
fn a_delivered_channel_records_its_status_and_what_it_sent() {
    let t = Recorder::ok();
    let out = deliver(&t, &channel(ChannelKind::Ntfy, "argus"), &note(EventKind::StoryNew, NotifyPriority::Normal));
    assert_eq!(out.state, DeliveryState::Delivered);
    assert_eq!(out.http_status, Some(200));
    assert!(out.error.is_none());
    assert_eq!(out.request.unwrap().url, t.sent()[0].url);
}

#[test]
fn one_failing_channel_never_blocks_another() {
    let t = Recorder::new(vec![
        Ok(OutboundResponse { status: 200, body: String::new() }),
        Ok(OutboundResponse { status: 503, body: "upstream down".into() }),
        Err(CoreError::FetchRefused("blocked or invalid URL".into())),
        Ok(OutboundResponse { status: 204, body: String::new() }),
    ]);
    let channels = vec![
        channel(ChannelKind::Ntfy, "argus"),
        channel(ChannelKind::Slack, "https://hooks.slack.test/x"),
        channel(ChannelKind::Webhook, "http://127.0.0.1:9/hook"),
        channel(ChannelKind::Webhook, "https://ops.example/hook"),
    ];
    let outcomes = dispatch(&t, &channels, &note(EventKind::StoryNew, NotifyPriority::Normal));

    assert_eq!(outcomes.len(), 4);
    assert_eq!(outcomes[0].state, DeliveryState::Delivered);
    assert_eq!(outcomes[1].state, DeliveryState::Failed);
    assert!(outcomes[1].error.as_ref().unwrap().contains("upstream down"));
    assert_eq!(outcomes[2].state, DeliveryState::Blocked);
    assert_eq!(outcomes[3].state, DeliveryState::Delivered);
    assert!(!all_delivered(&outcomes));
    assert_eq!(t.sent().len(), 4, "every channel was attempted");
}

#[test]
fn an_ssrf_blocked_target_is_a_clean_per_channel_error_carrying_its_payload() {
    let t = Recorder::new(vec![Err(CoreError::FetchRefused("blocked or invalid URL (host -32)".into()))]);
    let out = deliver(
        &t,
        &channel(ChannelKind::Webhook, "http://localhost:8080/hook"),
        &note(EventKind::StoryNew, NotifyPriority::Normal),
    );
    assert_eq!(out.state, DeliveryState::Blocked);
    assert!(!out.state.is_retryable());
    assert!(out.error.as_ref().unwrap().contains("blocked"));
    let sent = body_of(&out.request.unwrap());
    assert_eq!(sent["event"], "story.new");
}

#[test]
fn a_rate_limit_and_a_5xx_are_retryable_but_a_404_is_not() {
    for (status, expected) in [
        (429, DeliveryState::Failed),
        (500, DeliveryState::Failed),
        (503, DeliveryState::Failed),
        (400, DeliveryState::Blocked),
        (403, DeliveryState::Blocked),
        (404, DeliveryState::Blocked),
        (200, DeliveryState::Delivered),
        (204, DeliveryState::Delivered),
    ] {
        let t = Recorder::new(vec![Ok(OutboundResponse { status, body: String::new() })]);
        let out = deliver(
            &t,
            &channel(ChannelKind::Webhook, "https://ops.example/hook"),
            &note(EventKind::StoryNew, NotifyPriority::Normal),
        );
        assert_eq!(out.state, expected, "status {status}");
    }
}

#[test]
fn a_transient_transport_error_is_failed_not_blocked() {
    let t = Recorder::new(vec![Err(CoreError::Fetch("connection reset".into()))]);
    let out = deliver(
        &t,
        &channel(ChannelKind::Slack, "https://hooks.slack.test/x"),
        &note(EventKind::StoryNew, NotifyPriority::Normal),
    );
    assert_eq!(out.state, DeliveryState::Failed);
    assert!(out.state.is_retryable());
}

#[test]
fn a_skipped_channel_is_never_posted_to_and_says_why() {
    let mut c = channel(ChannelKind::Ntfy, "argus");
    c.min_priority = NotifyPriority::High;
    let t = Recorder::ok();
    let out = deliver(&t, &c, &note(EventKind::StoryNew, NotifyPriority::Normal));
    assert_eq!(out.state, DeliveryState::Skipped);
    assert!(out.request.is_none());
    assert!(out.error.as_ref().unwrap().contains("does not accept"));
    assert!(t.sent().is_empty());
    assert!(all_delivered(&[out]));
}

#[test]
fn dispatching_to_no_channels_is_vacuously_delivered() {
    let t = Recorder::ok();
    let outcomes = dispatch(&t, &[], &note(EventKind::StoryNew, NotifyPriority::Normal));
    assert!(outcomes.is_empty());
    assert!(all_delivered(&outcomes));
}

#[test]
fn an_unconfigured_channel_blocks_without_a_network_call() {
    let t = Recorder::ok();
    let out = deliver(&t, &channel(ChannelKind::Webhook, ""), &note(EventKind::StoryNew, NotifyPriority::Normal));
    assert_eq!(out.state, DeliveryState::Blocked);
    assert!(t.sent().is_empty());
}

#[test]
fn a_webhook_body_carries_the_data_verbatim() {
    let mut n = note(EventKind::FeedFailing, NotifyPriority::Normal);
    n.data = Json::Null;
    n.subject_id = None;
    let req = render(&channel(ChannelKind::Webhook, "https://ops.example/hook"), &n).unwrap();
    let body = body_of(&req);
    assert!(body["data"].is_null());
    assert!(body["subject_id"].is_null());
    assert_eq!(body["event"], "alert.feed_failing");
}

fn stored(id: &str, priority: argus_core::notify::NotifyPriority, title: &str) -> argus_core::notify::StoredEvent {
    argus_core::notify::StoredEvent {
        id: id.into(),
        kind: argus_core::notify::EventKind::StoryNew,
        priority,
        subject_id: Some(format!("story-{id}")),
        state: argus_core::notify::EventState::Pending,
        scheduled_at: 0,
        created: 0,
        title: title.into(),
        body: String::new(),
        link: None,
        data: Json::Null,
    }
}

#[test]
fn a_digest_takes_the_lowest_priority_of_its_parts() {
    let head = stored("1", NotifyPriority::High, "One");
    let all_high = vec![stored("2", NotifyPriority::High, "Two")];
    let mixed = vec![stored("2", NotifyPriority::High, "Two"), stored("3", NotifyPriority::Normal, "Three")];
    assert_eq!(digest_notification(&head, &all_high, 7).priority, NotifyPriority::High);
    assert_eq!(digest_notification(&head, &mixed, 7).priority, NotifyPriority::Normal);
    let d = digest_notification(&stored("1", NotifyPriority::Normal, "One"), &all_high, 7);
    assert_eq!(d.priority, NotifyPriority::Normal);
    assert_eq!(d.title, "2 new stories");
    assert_eq!(d.body, "\u{2022} One\n\u{2022} Two");
}
