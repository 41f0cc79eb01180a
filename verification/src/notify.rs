//! Notification vocabulary and channel rules: priorities and the ntfy
//! ladder, event kinds and outbox states, channel kinds and their filters,
//! delivery states and the classification of a response status.
//!
//! One channel failing must never stop another, and the retry decision is
//! the distinction between a *blocked* delivery (the operator's
//! configuration is wrong; never retried) and a *failed* one (a timeout, a
//! 429 or a 5xx; retried later).

use vstd::prelude::*;
use crate::text::{chars_of, string_of, push_all, trim, trim_end, trim_chars, trim_end_chars,
    ascii_lower_seq, ascii_lowercase, is_text, slice_chars};
use crate::num::{decimal, u64_to_decimal};
use crate::json::{Json, json_text, json_quoted, push_json_quoted, write_json, json_clone, same_json,
    member, json_str, get_member, str_of};
use crate::error::{CoreError, error_message};
use crate::num::{padded_int, i64_to_padded};
use crate::config::same_ignoring_case;
use crate::text::{debug_quoted, debug_str_text, str_eq};

verus! {

// ---------------------------------------------------------------------------
// Priorities
// ---------------------------------------------------------------------------

/// How loud a notification is. `High` bypasses debounce, quiet hours and
/// digest collapse.
#[derive(Debug, Clone, Copy, PartialEq, Eq, Structural, PartialOrd, Ord, Hash)]
pub enum NotifyPriority {
    /// The ordinary case.
    Normal,
    /// A high-priority topic, or an operator alert.
    High,
}

/// The text a lenient parser compares: trimmed and ASCII-lowercased.
pub open spec fn folded(raw: Seq<char>) -> Seq<char> {
    ascii_lower_seq(trim(raw))
}

/// The text a lenient parser compares.
fn folded_chars(raw: &str) -> (r: Vec<char>)
    ensures
        r@ == folded(raw@),
{
    ascii_lowercase(&trim_chars(&chars_of(raw)))
}

/// The value persisted in the `priority` column.
pub open spec fn priority_name(p: NotifyPriority) -> Seq<char> {
    match p {
        NotifyPriority::Normal => "normal"@,
        NotifyPriority::High => "high"@,
    }
}

/// The priority an admin-entered string names; anything unrecognized is
/// `Normal`.
pub open spec fn parse_priority(raw: Seq<char>) -> NotifyPriority {
    let k = folded(raw);
    if k == "high"@ || k == "urgent"@ || k == "critical"@ {
        NotifyPriority::High
    } else {
        NotifyPriority::Normal
    }
}

/// The order of priorities: `Normal` below `High`.
pub open spec fn priority_rank(p: NotifyPriority) -> int {
    match p {
        NotifyPriority::Normal => 0,
        NotifyPriority::High => 1,
    }
}

impl NotifyPriority {
    /// The lowercase value persisted in the `priority` column.
    pub fn as_str(self) -> (r: &'static str)
        ensures
            r@ == priority_name(self),
    {
        match self {
            NotifyPriority::Normal => "normal",
            NotifyPriority::High => "high",
        }
    }

    /// Parse a persisted or admin-entered priority, trimmed and
    /// case-insensitively; `high`, `urgent` and `critical` are `High`, and
    /// anything else defaults to `Normal`.
    pub fn parse(raw: &str) -> (r: NotifyPriority)
        ensures
            r == parse_priority(raw@),
    {
        let k = folded_chars(raw);
        if is_text(&k, "high") || is_text(&k, "urgent") || is_text(&k, "critical") {
            NotifyPriority::High
        } else {
            NotifyPriority::Normal
        }
    }
}

/// ntfy's five-level priority ladder.
#[derive(Debug, Clone, Copy, PartialEq, Eq, Structural, PartialOrd, Ord, Hash)]
pub enum NtfyPriority {
    /// 1: no sound, not in the drawer.
    Min,
    /// 2: no sound or vibration.
    Low,
    /// 3: the ordinary notification.
    Default,
    /// 4: long vibration.
    High,
    /// 5: as loud as ntfy gets.
    Urgent,
}

/// The wire number of an ntfy level.
pub open spec fn ntfy_number(p: NtfyPriority) -> i64 {
    match p {
        NtfyPriority::Min => 1,
        NtfyPriority::Low => 2,
        NtfyPriority::Default => 3,
        NtfyPriority::High => 4,
        NtfyPriority::Urgent => 5,
    }
}

/// The name of an ntfy level.
pub open spec fn ntfy_name(p: NtfyPriority) -> Seq<char> {
    match p {
        NtfyPriority::Min => "min"@,
        NtfyPriority::Low => "low"@,
        NtfyPriority::Default => "default"@,
        NtfyPriority::High => "high"@,
        NtfyPriority::Urgent => "urgent"@,
    }
}

/// The ntfy level an admin-entered override names, trimmed and
/// case-insensitively, by name or number (`max` is `urgent`).
pub open spec fn parse_ntfy(raw: Seq<char>) -> Option<NtfyPriority> {
    let k = folded(raw);
    if k == "min"@ || k == "1"@ {
        Some(NtfyPriority::Min)
    } else if k == "low"@ || k == "2"@ {
        Some(NtfyPriority::Low)
    } else if k == "default"@ || k == "3"@ {
        Some(NtfyPriority::Default)
    } else if k == "high"@ || k == "4"@ {
        Some(NtfyPriority::High)
    } else if k == "urgent"@ || k == "max"@ || k == "5"@ {
        Some(NtfyPriority::Urgent)
    } else {
        None
    }
}

/// The default ladder position for an event: operator alerts a rung above
/// stories of the same priority, digests below them.
pub open spec fn ntfy_for_event(kind: EventKind, priority: NotifyPriority) -> NtfyPriority {
    if is_operator_alert(kind) {
        match priority {
            NotifyPriority::High => NtfyPriority::Urgent,
            NotifyPriority::Normal => NtfyPriority::High,
        }
    } else if kind == EventKind::StoryDigest {
        NtfyPriority::Low
    } else {
        match priority {
            NotifyPriority::High => NtfyPriority::High,
            NotifyPriority::Normal => NtfyPriority::Default,
        }
    }
}

impl NtfyPriority {
    /// The wire value ntfy expects.
    pub fn as_i64(self) -> (r: i64)
        ensures
            r == ntfy_number(self),
    {
        match self {
            NtfyPriority::Min => 1,
            NtfyPriority::Low => 2,
            NtfyPriority::Default => 3,
            NtfyPriority::High => 4,
            NtfyPriority::Urgent => 5,
        }
    }

    /// The name an admin types into a channel's override field.
    pub fn as_str(self) -> (r: &'static str)
        ensures
            r@ == ntfy_name(self),
    {
        match self {
            NtfyPriority::Min => "min",
            NtfyPriority::Low => "low",
            NtfyPriority::Default => "default",
            NtfyPriority::High => "high",
            NtfyPriority::Urgent => "urgent",
        }
    }

    /// Parse an admin-entered override, or `None` when it names no level.
    pub fn parse(raw: &str) -> (r: Option<NtfyPriority>)
        ensures
            r == parse_ntfy(raw@),
    {
        let k = folded_chars(raw);
        if is_text(&k, "min") || is_text(&k, "1") {
            Some(NtfyPriority::Min)
        } else if is_text(&k, "low") || is_text(&k, "2") {
            Some(NtfyPriority::Low)
        } else if is_text(&k, "default") || is_text(&k, "3") {
            Some(NtfyPriority::Default)
        } else if is_text(&k, "high") || is_text(&k, "4") {
            Some(NtfyPriority::High)
        } else if is_text(&k, "urgent") || is_text(&k, "max") || is_text(&k, "5") {
            Some(NtfyPriority::Urgent)
        } else {
            None
        }
    }

    /// The default ladder position for an event.
    pub fn for_event(kind: EventKind, priority: NotifyPriority) -> (r: NtfyPriority)
        ensures
            r == ntfy_for_event(kind, priority),
    {
        if kind.is_operator_alert() {
            match priority {
                NotifyPriority::High => NtfyPriority::Urgent,
                NotifyPriority::Normal => NtfyPriority::High,
            }
        } else if kind == EventKind::StoryDigest {
            NtfyPriority::Low
        } else {
            match priority {
                NotifyPriority::High => NtfyPriority::High,
                NotifyPriority::Normal => NtfyPriority::Default,
            }
        }
    }
}

// ---------------------------------------------------------------------------
// Events
// ---------------------------------------------------------------------------

/// What happened, as the outbox records it.
#[derive(Debug, Clone, Copy, PartialEq, Eq, Structural, Hash)]
pub enum EventKind {
    /// A story was summarized for the first time.
    StoryNew,
    /// A story's synthesis materially changed.
    StoryUpdated,
    /// Several story events collapsed into one message.
    StoryDigest,
    /// A feed has failed N consecutive fetches.
    FeedFailing,
    /// The day's AI spend crossed the alert threshold or the daily limit.
    BudgetThreshold,
    /// The oldest claimable queue job is older than the configured bound.
    QueueStuck,
}

/// The value persisted in the `event_type` column and sent as the payload's
/// `event` key.
pub open spec fn event_name(k: EventKind) -> Seq<char> {
    match k {
        EventKind::StoryNew => "story.new"@,
        EventKind::StoryUpdated => "story.updated"@,
        EventKind::StoryDigest => "story.digest"@,
        EventKind::FeedFailing => "alert.feed_failing"@,
        EventKind::BudgetThreshold => "alert.budget_threshold"@,
        EventKind::QueueStuck => "alert.queue_stuck"@,
    }
}

/// The kind a persisted `event_type` names.
pub open spec fn event_from_name(raw: Seq<char>) -> Option<EventKind> {
    if raw == "story.new"@ {
        Some(EventKind::StoryNew)
    } else if raw == "story.updated"@ {
        Some(EventKind::StoryUpdated)
    } else if raw == "story.digest"@ {
        Some(EventKind::StoryDigest)
    } else if raw == "alert.feed_failing"@ {
        Some(EventKind::FeedFailing)
    } else if raw == "alert.budget_threshold"@ {
        Some(EventKind::BudgetThreshold)
    } else if raw == "alert.queue_stuck"@ {
        Some(EventKind::QueueStuck)
    } else {
        None
    }
}

/// Every event kind, in declaration order.
pub open spec fn all_event_kinds() -> Seq<EventKind> {
    seq![
        EventKind::StoryNew,
        EventKind::StoryUpdated,
        EventKind::StoryDigest,
        EventKind::FeedFailing,
        EventKind::BudgetThreshold,
        EventKind::QueueStuck,
    ]
}

/// Whether a kind is an operator alert rather than reader-facing news.
pub open spec fn is_operator_alert(k: EventKind) -> bool {
    k == EventKind::FeedFailing || k == EventKind::BudgetThreshold || k == EventKind::QueueStuck
}

/// Whether a kind participates in digest collapse.
pub open spec fn is_digestible(k: EventKind) -> bool {
    k == EventKind::StoryNew || k == EventKind::StoryUpdated
}

impl EventKind {
    /// The value persisted in the `event_type` column.
    pub fn as_str(self) -> (r: &'static str)
        ensures
            r@ == event_name(self),
    {
        match self {
            EventKind::StoryNew => "story.new",
            EventKind::StoryUpdated => "story.updated",
            EventKind::StoryDigest => "story.digest",
            EventKind::FeedFailing => "alert.feed_failing",
            EventKind::BudgetThreshold => "alert.budget_threshold",
            EventKind::QueueStuck => "alert.queue_stuck",
        }
    }

    /// Parse a persisted `event_type` (exact match).
    pub fn from_column(raw: &str) -> (r: Option<EventKind>)
        ensures
            r == event_from_name(raw@),
    {
        let k = chars_of(raw);
        if is_text(&k, "story.new") {
            Some(EventKind::StoryNew)
        } else if is_text(&k, "story.updated") {
            Some(EventKind::StoryUpdated)
        } else if is_text(&k, "story.digest") {
            Some(EventKind::StoryDigest)
        } else if is_text(&k, "alert.feed_failing") {
            Some(EventKind::FeedFailing)
        } else if is_text(&k, "alert.budget_threshold") {
            Some(EventKind::BudgetThreshold)
        } else if is_text(&k, "alert.queue_stuck") {
            Some(EventKind::QueueStuck)
        } else {
            None
        }
    }

    /// Every kind, so a filter or a round trip cannot silently miss one.
    pub fn all() -> (r: [EventKind; 6])
        ensures
            r@ == all_event_kinds(),
    {
        [
            EventKind::StoryNew,
            EventKind::StoryUpdated,
            EventKind::StoryDigest,
            EventKind::FeedFailing,
            EventKind::BudgetThreshold,
            EventKind::QueueStuck,
        ]
    }

    /// Whether this is an operator alert rather than reader-facing news.
    pub fn is_operator_alert(self) -> (r: bool)
        ensures
            r == is_operator_alert(self),
    {
        match self {
            EventKind::FeedFailing | EventKind::BudgetThreshold | EventKind::QueueStuck => true,
            _ => false,
        }
    }

    /// Whether this kind participates in digest collapse.
    pub fn is_digestible(self) -> (r: bool)
        ensures
            r == is_digestible(self),
    {
        match self {
            EventKind::StoryNew | EventKind::StoryUpdated => true,
            _ => false,
        }
    }
}

/// Where an outbox row is in its life.
#[derive(Debug, Clone, Copy, PartialEq, Eq, Structural, Hash)]
pub enum EventState {
    /// Recorded, not yet dispatched.
    Pending,
    /// Dispatched (whatever the individual channels made of it).
    Sent,
    /// Deliberately not sent: debounced, or judged immaterial.
    Suppressed,
    /// Folded into another event's digest.
    Digested,
}

/// The value persisted in the `state` column.
pub open spec fn event_state_name(s: EventState) -> Seq<char> {
    match s {
        EventState::Pending => "pending"@,
        EventState::Sent => "sent"@,
        EventState::Suppressed => "suppressed"@,
        EventState::Digested => "digested"@,
    }
}

/// The state a persisted `state` value names.
pub open spec fn event_state_from_name(raw: Seq<char>) -> Option<EventState> {
    if raw == "pending"@ {
        Some(EventState::Pending)
    } else if raw == "sent"@ {
        Some(EventState::Sent)
    } else if raw == "suppressed"@ {
        Some(EventState::Suppressed)
    } else if raw == "digested"@ {
        Some(EventState::Digested)
    } else {
        None
    }
}

impl EventState {
    /// The value persisted in the `state` column.
    pub fn as_str(self) -> (r: &'static str)
        ensures
            r@ == event_state_name(self),
    {
        match self {
            EventState::Pending => "pending",
            EventState::Sent => "sent",
            EventState::Suppressed => "suppressed",
            EventState::Digested => "digested",
        }
    }

    /// Parse a persisted state (exact match).
    pub fn from_column(raw: &str) -> (r: Option<EventState>)
        ensures
            r == event_state_from_name(raw@),
    {
        let k = chars_of(raw);
        if is_text(&k, "pending") {
            Some(EventState::Pending)
        } else if is_text(&k, "sent") {
            Some(EventState::Sent)
        } else if is_text(&k, "suppressed") {
            Some(EventState::Suppressed)
        } else if is_text(&k, "digested") {
            Some(EventState::Digested)
        } else {
            None
        }
    }
}

/// The `data` key carrying the summary a story event is about.
pub const DATA_SUMMARY: &'static str = "summary";

/// The `data` key carrying the summary a story had before an update.
pub const DATA_PREVIOUS_SUMMARY: &'static str = "previous_summary";

/// A notification, before any channel has shaped it.
#[derive(Debug, PartialEq)]
pub struct Notification {
    /// What happened.
    pub kind: EventKind,
    /// How loud.
    pub priority: NotifyPriority,
    /// One-line headline.
    pub title: String,
    /// The prose body.
    pub body: String,
    /// A deep link to the story or admin page, when one exists.
    pub link: Option<String>,
    /// When the event was recorded (unix seconds).
    pub timestamp: i64,
    /// The story or feed this is about, when it is about one.
    pub subject_id: Option<String>,
    /// Event-specific structured data, carried verbatim into the webhook
    /// envelope.
    pub data: Json,
}

/// `t` cut to `max` characters: unchanged when it fits, otherwise its first
/// `max - 1` characters with trailing whitespace removed and an ellipsis
/// appended.
pub open spec fn truncated(t: Seq<char>, max: nat) -> Seq<char> {
    if t.len() <= max {
        t
    } else {
        trim_end(t.take(if max >= 1 { max - 1 } else { 0 })) + seq!['\u{2026}']
    }
}

/// Truncate to `max` characters, appending a single-character ellipsis when
/// the input was longer. Character-safe on multibyte input.
pub fn truncate_chars(text: &str, max: usize) -> (r: String)
    ensures
        r@ == truncated(text@, max as nat),
{
    let c = chars_of(text);
    if c.len() <= max {
        return string_of(&c);
    }
    let keep: usize = if max >= 1 { max - 1 } else { 0 };
    let mut out = trim_end_chars(&slice_chars(&c, 0, keep));
    out.push('\u{2026}');
    string_of(&out)
}

impl Notification {
    /// The body, truncated to `max` characters with an ellipsis when cut.
    pub fn short_body(&self, max: usize) -> (r: String)
        ensures
            r@ == truncated(self.body@, max as nat),
    {
        truncate_chars(self.body.as_str(), max)
    }
}

// ---------------------------------------------------------------------------
// Channels
// ---------------------------------------------------------------------------

/// The transport a channel speaks.
#[derive(Debug, Clone, Copy, PartialEq, Eq, Structural, Hash)]
pub enum ChannelKind {
    /// ntfy.sh (or a self-hosted ntfy server).
    Ntfy,
    /// A Slack incoming webhook.
    Slack,
    /// A generic JSON webhook.
    Webhook,
}

/// The value persisted in the channel Item's kind field.
pub open spec fn channel_kind_name(k: ChannelKind) -> Seq<char> {
    match k {
        ChannelKind::Ntfy => "ntfy"@,
        ChannelKind::Slack => "slack"@,
        ChannelKind::Webhook => "webhook"@,
    }
}

/// The kind an admin-entered string names, trimmed and case-insensitively
/// (`http` and `generic` are webhooks).
pub open spec fn parse_channel_kind(raw: Seq<char>) -> Option<ChannelKind> {
    let k = folded(raw);
    if k == "ntfy"@ {
        Some(ChannelKind::Ntfy)
    } else if k == "slack"@ {
        Some(ChannelKind::Slack)
    } else if k == "webhook"@ || k == "http"@ || k == "generic"@ {
        Some(ChannelKind::Webhook)
    } else {
        None
    }
}

/// Every channel kind, in declaration order.
pub open spec fn all_channel_kinds() -> Seq<ChannelKind> {
    seq![ChannelKind::Ntfy, ChannelKind::Slack, ChannelKind::Webhook]
}

impl ChannelKind {
    /// The value persisted in the channel Item's kind field.
    pub fn as_str(self) -> (r: &'static str)
        ensures
            r@ == channel_kind_name(self),
    {
        match self {
            ChannelKind::Ntfy => "ntfy",
            ChannelKind::Slack => "slack",
            ChannelKind::Webhook => "webhook",
        }
    }

    /// Parse an admin-entered kind.
    pub fn parse(raw: &str) -> (r: Option<ChannelKind>)
        ensures
            r == parse_channel_kind(raw@),
    {
        let k = folded_chars(raw);
        if is_text(&k, "ntfy") {
            Some(ChannelKind::Ntfy)
        } else if is_text(&k, "slack") {
            Some(ChannelKind::Slack)
        } else if is_text(&k, "webhook") || is_text(&k, "http") || is_text(&k, "generic") {
            Some(ChannelKind::Webhook)
        } else {
            None
        }
    }

    /// Every kind, for the admin-facing list of legal values.
    pub fn all() -> (r: [ChannelKind; 3])
        ensures
            r@ == all_channel_kinds(),
    {
        [ChannelKind::Ntfy, ChannelKind::Slack, ChannelKind::Webhook]
    }
}

/// The default ntfy server when a channel names none.
pub const DEFAULT_NTFY_SERVER: &'static str = "https://ntfy.sh";

/// One configured notification channel, as read from its Item.
#[derive(Debug, Clone, PartialEq)]
pub struct ChannelConfig {
    /// The channel Item's id.
    pub id: String,
    /// The Item's title, used in logs and per-channel error reporting.
    pub name: String,
    /// Which transport.
    pub kind: ChannelKind,
    /// ntfy topic name, or the Slack/webhook URL.
    pub target: String,
    /// ntfy server base URL; ignored by the other kinds.
    pub server: String,
    /// Extra request headers (webhook only).
    pub headers: Vec<(String, String)>,
    /// The lowest priority this channel accepts.
    pub min_priority: NotifyPriority,
    /// Event kinds this channel accepts; empty means every kind.
    pub events: Vec<EventKind>,
    /// An explicit ntfy ladder position overriding the default map.
    pub ntfy_priority: Option<NtfyPriority>,
}

/// Whether a channel with the priority floor `min` and the event allowlist
/// `events` wants a notification of `kind` at `priority`: at or above the
/// floor, and listed (an empty list lists everything; a digest is listed
/// wherever a story event is).
pub open spec fn channel_accepts(
    min: NotifyPriority,
    events: Seq<EventKind>,
    kind: EventKind,
    priority: NotifyPriority,
) -> bool {
    &&& priority_rank(priority) >= priority_rank(min)
    &&& (events.len() == 0 || events.contains(kind) || (kind == EventKind::StoryDigest && (
    events.contains(EventKind::StoryNew) || events.contains(EventKind::StoryUpdated))))
}

/// Whether `events` lists `kind`.
fn lists(events: &Vec<EventKind>, kind: EventKind) -> (r: bool)
    ensures
        r == events@.contains(kind),
{
    let mut i: usize = 0;
    while i < events.len()
        invariant
            i <= events.len(),
            forall|k: int| 0 <= k < i ==> events@[k] != kind,
        decreases events.len() - i,
    {
        if events[i] == kind {
            return true;
        }
        i += 1;
    }
    false
}

impl ChannelConfig {
    /// Whether this channel wants `notification`: a priority floor and an
    /// event allowlist, both set per channel.
    pub fn accepts(&self, notification: &Notification) -> (r: bool)
        ensures
            r == channel_accepts(self.min_priority, self.events@, notification.kind, notification.priority),
    {
        if notification.priority == NotifyPriority::Normal && self.min_priority == NotifyPriority::High {
            return false;
        }
        if self.events.len() == 0 {
            return true;
        }
        if lists(&self.events, notification.kind) {
            return true;
        }
        notification.kind == EventKind::StoryDigest && (lists(&self.events, EventKind::StoryNew)
            || lists(&self.events, EventKind::StoryUpdated))
    }
}

// ---------------------------------------------------------------------------
// Transport
// ---------------------------------------------------------------------------

/// One outbound HTTP POST, fully rendered.
#[derive(Debug, Clone, PartialEq, Eq)]
pub struct OutboundRequest {
    /// Absolute URL to POST to.
    pub url: String,
    /// Request headers, including the content type.
    pub headers: Vec<(String, String)>,
    /// Request body.
    pub body: String,
}

/// What a transport got back.
#[derive(Debug, Clone, PartialEq, Eq)]
pub struct OutboundResponse {
    /// HTTP status code.
    pub status: u16,
    /// Response body, retained only for the error message on a failure.
    pub body: String,
}

/// The outbound side of a notification channel: implemented over the host's
/// HTTP client, and by an in-memory recorder in tests.
pub trait Transport {
    /// Whether `res` is an answer this transport gives to the request `req`.
    /// An implementation may narrow it; left as it is, every answer is
    /// possible.
    open spec fn post_answer(&self, req: RequestView, res: Result<OutboundResponse, CoreError>) -> bool {
        true
    }

    /// POST `req` and return the response; `FetchRefused` for a permanently
    /// unusable target, `Fetch` for anything worth retrying.
    fn post(&self, req: &OutboundRequest) -> (res: Result<OutboundResponse, CoreError>)
        ensures
            self.post_answer(request_view(*req), res),
    ;
}

/// `s` with every trailing `c` removed (`trim_end_matches`).
pub open spec fn strip_trailing(s: Seq<char>, c: char) -> Seq<char>
    decreases s.len(),
{
    if s.len() > 0 && s.last() == c {
        strip_trailing(s.drop_last(), c)
    } else {
        s
    }
}

/// The ntfy publish URL for a server base and a topic: the trimmed server
/// (the default server when blank) without trailing slashes, a slash, and
/// the trimmed topic.
pub open spec fn ntfy_publish_url(server: Seq<char>, topic: Seq<char>) -> Seq<char> {
    let base = if trim(server).len() == 0 { DEFAULT_NTFY_SERVER@ } else { trim(server) };
    strip_trailing(base, '/') + "/"@ + trim(topic)
}

/// Join a server base and an ntfy topic into a publish URL.
pub fn ntfy_url(server: &str, topic: &str) -> (r: String)
    ensures
        r@ == ntfy_publish_url(server@, topic@),
{
    let t = trim_chars(&chars_of(server));
    let base = if t.len() == 0 { chars_of(DEFAULT_NTFY_SERVER) } else { t };
    let mut n: usize = base.len();
    assert(base@.take(base@.len() as int) == base@);
    while n > 0 && base[n - 1] == '/'
        invariant
            n <= base.len(),
            strip_trailing(base@, '/') == strip_trailing(base@.take(n as int), '/'),
        decreases n,
    {
        assert(base@.take(n as int).drop_last() == base@.take(n as int - 1));
        assert(base@.take(n as int).last() == base@[n - 1]);
        n -= 1;
    }
    if n > 0 {
        assert(base@.take(n as int).last() == base@[n - 1]);
    }
    let mut out = slice_chars(&base, 0, n);
    assert(out@ == base@.take(n as int));
    push_all(&mut out, &chars_of("/"));
    push_all(&mut out, &trim_chars(&chars_of(topic)));
    string_of(&out)
}

/// The ntfy tag (emoji shortcode) for an event kind.
pub open spec fn ntfy_tag(kind: EventKind) -> Seq<char> {
    match kind {
        EventKind::StoryNew => "newspaper"@,
        EventKind::StoryUpdated => "pencil2"@,
        EventKind::StoryDigest => "books"@,
        EventKind::FeedFailing => "warning"@,
        EventKind::BudgetThreshold => "moneybag"@,
        EventKind::QueueStuck => "rotating_light"@,
    }
}

/// The ntfy tags for an event kind: one cosmetic shortcode.
pub fn ntfy_tags(kind: EventKind) -> (r: Vec<&'static str>)
    ensures
        r@.len() == 1,
        r@[0]@ == ntfy_tag(kind),
{
    let tag = match kind {
        EventKind::StoryNew => "newspaper",
        EventKind::StoryUpdated => "pencil2",
        EventKind::StoryDigest => "books",
        EventKind::FeedFailing => "warning",
        EventKind::BudgetThreshold => "moneybag",
        EventKind::QueueStuck => "rotating_light",
    };
    let mut v: Vec<&'static str> = Vec::new();
    v.push(tag);
    v
}

// ---------------------------------------------------------------------------
// Delivery
// ---------------------------------------------------------------------------

/// What happened to one channel's delivery.
#[derive(Debug, Clone, Copy, PartialEq, Eq, Structural, Hash)]
pub enum DeliveryState {
    /// The channel accepted it (2xx).
    Delivered,
    /// A transient failure worth retrying (timeout, 429, 5xx).
    Failed,
    /// A permanent refusal; never retried.
    Blocked,
    /// The channel did not want this notification.
    Skipped,
}

/// The value persisted in the delivery `state` column.
pub open spec fn delivery_state_name(s: DeliveryState) -> Seq<char> {
    match s {
        DeliveryState::Delivered => "delivered"@,
        DeliveryState::Failed => "failed"@,
        DeliveryState::Blocked => "blocked"@,
        DeliveryState::Skipped => "skipped"@,
    }
}

impl DeliveryState {
    /// The value persisted in the `state` column.
    pub fn as_str(self) -> (r: &'static str)
        ensures
            r@ == delivery_state_name(self),
    {
        match self {
            DeliveryState::Delivered => "delivered",
            DeliveryState::Failed => "failed",
            DeliveryState::Blocked => "blocked",
            DeliveryState::Skipped => "skipped",
        }
    }

    /// Whether a delivery in this state earns a delayed re-enqueue: only a
    /// failed one.
    pub fn is_retryable(self) -> (r: bool)
        ensures
            r == (self == DeliveryState::Failed),
    {
        self == DeliveryState::Failed
    }
}

/// One channel's result.
#[derive(Debug, Clone, PartialEq)]
pub struct ChannelOutcome {
    /// The channel Item's id.
    pub channel_id: String,
    /// The channel's name, for the operator-facing error.
    pub channel_name: String,
    /// What happened.
    pub state: DeliveryState,
    /// The status code, when a response was received.
    pub http_status: Option<u16>,
    /// The failure, in an operator's terms.
    pub error: Option<String>,
    /// Exactly what was sent (or would have been); `None` only for a skip.
    pub request: Option<OutboundRequest>,
}

/// How a response status classifies: 2xx delivered; 429 and 5xx failed
/// (retryable); anything else blocked, with the error an operator reads.
pub open spec fn status_class(status: u16) -> (DeliveryState, Option<Seq<char>>) {
    if 200 <= status <= 299 {
        (DeliveryState::Delivered, None)
    } else if status == 429 {
        (DeliveryState::Failed, Some("rate limited (HTTP 429)"@))
    } else if 500 <= status <= 599 {
        (DeliveryState::Failed, Some("HTTP "@ + decimal(status as nat)))
    } else {
        (DeliveryState::Blocked, Some("HTTP "@ + decimal(status as nat)))
    }
}

/// Classify a response status.
pub fn classify_status(status: u16) -> (r: (DeliveryState, Option<String>))
    ensures
        r.0 == status_class(status).0,
        match r.1 {
            Some(e) => status_class(status).1 == Some(e@),
            None => status_class(status).1 is None,
        },
{
    if 200 <= status && status <= 299 {
        (DeliveryState::Delivered, None)
    } else if status == 429 {
        (DeliveryState::Failed, Some("rate limited (HTTP 429)".to_owned()))
    } else {
        let mut text = chars_of("HTTP ");
        push_all(&mut text, &u64_to_decimal(status as u64));
        let state = if 500 <= status && status <= 599 { DeliveryState::Failed } else { DeliveryState::Blocked };
        (state, Some(string_of(&text)))
    }
}

/// Whether every channel that wanted a notification took it: every outcome
/// delivered or skipped.
pub open spec fn every_delivered(outcomes: Seq<ChannelOutcome>) -> bool {
    forall|i: int| 0 <= i < outcomes.len() ==> (#[trigger] outcomes[i].state == DeliveryState::Delivered
        || outcomes[i].state == DeliveryState::Skipped)
}

/// Whether every channel that wanted this notification took it. A skip is
/// not a failure: the channel was asked and declined.
pub fn all_delivered(outcomes: &[ChannelOutcome]) -> (r: bool)
    ensures
        r == every_delivered(outcomes@),
{
    let mut i: usize = 0;
    while i < outcomes.len()
        invariant
            i <= outcomes.len(),
            forall|k: int| 0 <= k < i ==> (#[trigger] outcomes@[k].state == DeliveryState::Delivered
                || outcomes@[k].state == DeliveryState::Skipped),
        decreases outcomes.len() - i,
    {
        match outcomes[i].state {
            DeliveryState::Delivered | DeliveryState::Skipped => {},
            _ => {
                return false;
            },
        }
        i += 1;
    }
    true
}

// ---------------------------------------------------------------------------
// The outbox rows
// ---------------------------------------------------------------------------

/// A notification the pipeline has decided to make, before it is recorded.
#[derive(Debug, PartialEq)]
pub struct NewEvent {
    /// What happened.
    pub kind: EventKind,
    /// How loud.
    pub priority: NotifyPriority,
    /// The story or feed this is about.
    pub subject_id: Option<String>,
    /// The idempotency key, unique with `kind`: what makes a redelivered job
    /// record one event rather than one per delivery.
    pub dedup_key: String,
    /// Headline.
    pub title: String,
    /// Body prose.
    pub body: String,
    /// Deep link.
    pub link: Option<String>,
    /// Structured payload data.
    pub data: Json,
}

/// A new event's fields as plain values, its data as compact JSON text.
pub struct NewEventView {
    /// What happened.
    pub kind: EventKind,
    /// How loud.
    pub priority: NotifyPriority,
    /// The story or feed this is about.
    pub subject_id: Option<Seq<char>>,
    /// The idempotency key.
    pub dedup_key: Seq<char>,
    /// Headline.
    pub title: Seq<char>,
    /// Body prose.
    pub body: Seq<char>,
    /// Deep link.
    pub link: Option<Seq<char>>,
    /// Structured payload data, written as compact JSON.
    pub data: Seq<char>,
}

/// The plain-value view of a new event.
pub open spec fn event_view(e: NewEvent) -> NewEventView {
    NewEventView {
        kind: e.kind,
        priority: e.priority,
        subject_id: opt_view(e.subject_id),
        dedup_key: e.dedup_key@,
        title: e.title@,
        body: e.body@,
        link: opt_view(e.link),
        data: json_text(e.data),
    }
}

/// An outbox row as the notify worker reads it back.
#[derive(Debug, PartialEq)]
pub struct StoredEvent {
    /// The event row id, which is also the notify job's payload id.
    pub id: String,
    /// What happened.
    pub kind: EventKind,
    /// How loud.
    pub priority: NotifyPriority,
    /// The story or feed this is about.
    pub subject_id: Option<String>,
    /// Where the row is in its life.
    pub state: EventState,
    /// The earliest instant this may be sent.
    pub scheduled_at: i64,
    /// When the event was recorded.
    pub created: i64,
    /// Headline.
    pub title: String,
    /// Body prose.
    pub body: String,
    /// Deep link.
    pub link: Option<String>,
    /// Structured payload data.
    pub data: Json,
}

impl StoredEvent {
    /// The notification this row renders to: its kind, priority, text, link,
    /// subject and data, stamped with the row's creation time.
    pub fn notification(&self) -> (r: Notification)
        ensures
            r.kind == self.kind,
            r.priority == self.priority,
            r.title == self.title,
            r.body == self.body,
            r.link == self.link,
            r.timestamp == self.created,
            r.subject_id == self.subject_id,
            same_json(self.data, r.data),
    {
        Notification {
            kind: self.kind,
            priority: self.priority,
            title: self.title.clone(),
            body: self.body.clone(),
            link: crate::pipeline::clone_opt_string(&self.link),
            timestamp: self.created,
            subject_id: crate::pipeline::clone_opt_string(&self.subject_id),
            data: json_clone(&self.data),
        }
    }

    /// A string from the row's `data`, or empty.
    pub fn data_str(&self, key: &str) -> (r: &str)
        ensures
            r@ == match self.data {
                Json::Object(ms) => match json_str(member(ms@, key@)) {
                    Some(v) => v,
                    None => seq![],
                },
                _ => seq![],
            },
    {
        proof {
            reveal_strlit("");
        }
        match &self.data {
            Json::Object(ms) => match str_of(get_member(ms, key)) {
                Some(v) => v.as_str(),
                None => "",
            },
            _ => "",
        }
    }
}

// ---------------------------------------------------------------------------
// Rendering
// ---------------------------------------------------------------------------

/// Longest ntfy message body, in characters.
pub const NTFY_BODY_CHARS: usize = 900;

/// Longest Slack text block, in characters.
pub const SLACK_BODY_CHARS: usize = 2800;

/// The wire version of the generic webhook envelope.
pub const WEBHOOK_PAYLOAD_VERSION: u32 = 1;

/// The decimal numeral of an integer.
pub open spec fn int_text(v: int) -> Seq<char> {
    padded_int(v, 0)
}

/// An optional string as JSON: quoted, or `null`.
pub open spec fn opt_json(o: Option<String>) -> Seq<char> {
    match o {
        Some(s) => json_quoted(s@),
        None => "null"@,
    }
}

/// The standardized generic-webhook envelope as JSON text, members in key
/// order: `body`, `data`, `event`, `link`, `priority`, `source`, `subject_id`,
/// `timestamp`, `title`, `version`.
pub open spec fn webhook_text(n: Notification) -> Seq<char> {
    "{\"body\":"@ + json_quoted(n.body@) + ",\"data\":"@ + json_text(n.data) + ",\"event\":"@
        + json_quoted(event_name(n.kind)) + ",\"link\":"@ + opt_json(n.link) + ",\"priority\":"@
        + json_quoted(priority_name(n.priority)) + ",\"source\":\"argus\",\"subject_id\":"@ + opt_json(
        n.subject_id,
    ) + ",\"timestamp\":"@ + int_text(n.timestamp as int) + ",\"title\":"@ + json_quoted(n.title@)
        + ",\"version\":1}"@
}

/// Append a literal.
fn put(out: &mut Vec<char>, s: &str)
    ensures
        final(out)@ == old(out)@ + s@,
{
    push_all(out, &chars_of(s));
}

/// Append a string as a JSON string literal.
fn put_quoted(out: &mut Vec<char>, s: &str)
    ensures
        final(out)@ == old(out)@ + json_quoted(s@),
{
    push_json_quoted(out, &chars_of(s));
}

/// Append an optional string as JSON.
fn put_opt(out: &mut Vec<char>, o: &Option<String>)
    ensures
        final(out)@ == old(out)@ + opt_json(*o),
{
    match o {
        Some(s) => put_quoted(out, s.as_str()),
        None => put(out, "null"),
    }
}

/// The standardized generic-webhook envelope, written as JSON: stable by
/// contract, so a consumer can route on `event`, `priority` and `data` and
/// branch on `version`.
pub fn webhook_payload(n: &Notification) -> (r: String)
    ensures
        r@ == webhook_text(*n),
{
    let mut out: Vec<char> = Vec::new();
    put(&mut out, "{\"body\":");
    put_quoted(&mut out, n.body.as_str());
    put(&mut out, ",\"data\":");
    write_json(&n.data, &mut out);
    put(&mut out, ",\"event\":");
    put_quoted(&mut out, n.kind.as_str());
    put(&mut out, ",\"link\":");
    put_opt(&mut out, &n.link);
    put(&mut out, ",\"priority\":");
    put_quoted(&mut out, n.priority.as_str());
    put(&mut out, ",\"source\":\"argus\",\"subject_id\":");
    put_opt(&mut out, &n.subject_id);
    put(&mut out, ",\"timestamp\":");
    push_all(&mut out, &i64_to_padded(n.timestamp, 0));
    put(&mut out, ",\"title\":");
    put_quoted(&mut out, n.title.as_str());
    put(&mut out, ",\"version\":1}");
    string_of(&out)
}

/// A request header as plain values.
pub type HeaderPair = (Seq<char>, Seq<char>);

/// An outbound request as plain values: URL, headers, body.
pub type RequestView = (Seq<char>, Seq<HeaderPair>, Seq<char>);

/// The plain-value view of header pairs.
pub open spec fn pair_views(hs: Seq<(String, String)>) -> Seq<HeaderPair> {
    hs.map_values(|h: (String, String)| (h.0@, h.1@))
}

/// The plain-value view of a request.
pub open spec fn request_view(r: OutboundRequest) -> RequestView {
    (r.url@, pair_views(r.headers@), r.body@)
}

/// The JSON content-type header every channel sends.
pub open spec fn json_header() -> HeaderPair {
    ("Content-Type"@, "application/json"@)
}

/// The ntfy publish body: `click` (when linked), the truncated `message`,
/// the ladder `priority`, the event's `tags` and the `title`.
pub open spec fn ntfy_body_text(n: Notification, p: NtfyPriority) -> Seq<char> {
    "{"@ + match n.link {
        Some(l) => "\"click\":"@ + json_quoted(l@) + ","@,
        None => seq![],
    } + "\"message\":"@ + json_quoted(truncated(n.body@, NTFY_BODY_CHARS as nat)) + ",\"priority\":"@
        + int_text(ntfy_number(p) as int) + ",\"tags\":["@ + json_quoted(ntfy_tag(n.kind))
        + "],\"title\":"@ + json_quoted(n.title@) + "}"@
}

/// The ntfy level a channel sends a notification at: its override, else the
/// default ladder.
pub open spec fn ntfy_level(c: ChannelConfig, n: Notification) -> NtfyPriority {
    match c.ntfy_priority {
        Some(p) => p,
        None => ntfy_for_event(n.kind, n.priority),
    }
}

/// The Slack message text: the bold title, the truncated body, and a link
/// line when linked.
pub open spec fn slack_text(n: Notification) -> Seq<char> {
    "*"@ + n.title@ + "*\n"@ + truncated(n.body@, SLACK_BODY_CHARS as nat) + match n.link {
        Some(l) => "\n<"@ + l@ + "|Read the story>"@,
        None => seq![],
    }
}

/// The Slack post body: `blocks` holding one markdown section, and `text`.
pub open spec fn slack_body_text(n: Notification) -> Seq<char> {
    "{\"blocks\":[{\"text\":{\"text\":"@ + json_quoted(slack_text(n))
        + ",\"type\":\"mrkdwn\"},\"type\":\"section\"}],\"text\":"@ + json_quoted(slack_text(n)) + "}"@
}

/// The webhook headers: the JSON content type, then the channel's headers in
/// order, where a content type (any case) replaces the default.
pub open spec fn webhook_headers(hs: Seq<HeaderPair>) -> Seq<HeaderPair>
    decreases hs.len(),
{
    if hs.len() == 0 {
        seq![json_header()]
    } else {
        let prev = webhook_headers(hs.drop_last());
        if same_ignoring_case(hs.last().0, "content-type"@) {
            prev.update(0, hs.last())
        } else {
            prev.push(hs.last())
        }
    }
}

/// The request a channel sends for a notification, or the reason it cannot
/// address anything (a blank target).
pub open spec fn rendered(c: ChannelConfig, n: Notification) -> Result<RequestView, Seq<char>> {
    if crate::text::trim(c.target@).len() == 0 {
        Err(
            "channel "@ + debug_str_text(c.name@) + " ("@ + channel_kind_name(c.kind)
                + ") has no target configured"@,
        )
    } else {
        Ok(
            match c.kind {
                ChannelKind::Ntfy => (
                    ntfy_publish_url(c.server@, c.target@),
                    seq![json_header()],
                    ntfy_body_text(n, ntfy_level(c, n)),
                ),
                ChannelKind::Slack => (crate::text::trim(c.target@), seq![json_header()], slack_body_text(n)),
                ChannelKind::Webhook => (
                    crate::text::trim(c.target@),
                    webhook_headers(pair_views(c.headers@)),
                    webhook_text(n),
                ),
            },
        )
    }
}

/// The JSON content-type header.
fn json_content_type() -> (r: Vec<(String, String)>)
    ensures
        pair_views(r@) == seq![json_header()],
{
    let mut v: Vec<(String, String)> = Vec::new();
    v.push(("Content-Type".to_owned(), "application/json".to_owned()));
    assert(pair_views(v@) == seq![json_header()]);
    v
}

/// The ntfy publish body for a notification at level `p`.
fn ntfy_body(n: &Notification, p: NtfyPriority) -> (r: Vec<char>)
    ensures
        r@ == ntfy_body_text(*n, p),
{
    let mut out: Vec<char> = Vec::new();
    put(&mut out, "{");
    match &n.link {
        Some(l) => {
            put(&mut out, "\"click\":");
            put_quoted(&mut out, l.as_str());
            put(&mut out, ",");
        },
        None => {},
    }
    put(&mut out, "\"message\":");
    let short = n.short_body(NTFY_BODY_CHARS);
    put_quoted(&mut out, short.as_str());
    put(&mut out, ",\"priority\":");
    push_all(&mut out, &i64_to_padded(p.as_i64(), 0));
    put(&mut out, ",\"tags\":[");
    put_quoted(&mut out, ntfy_tags(n.kind)[0]);
    put(&mut out, "],\"title\":");
    put_quoted(&mut out, n.title.as_str());
    put(&mut out, "}");
    out
}

/// Render an ntfy publish.
fn render_ntfy(c: &ChannelConfig, n: &Notification) -> (r: OutboundRequest)
    ensures
        request_view(r) == (ntfy_publish_url(c.server@, c.target@), seq![json_header()], ntfy_body_text(*n, ntfy_level(*c, *n))),
{
    let p = match c.ntfy_priority {
        Some(p) => p,
        None => NtfyPriority::for_event(n.kind, n.priority),
    };
    let out = ntfy_body(n, p);
    OutboundRequest {
        url: ntfy_url(c.server.as_str(), c.target.as_str()),
        headers: json_content_type(),
        body: string_of(&out),
    }
}

/// Render a Slack incoming-webhook post.
fn render_slack(c: &ChannelConfig, n: &Notification) -> (r: OutboundRequest)
    ensures
        request_view(r) == (crate::text::trim(c.target@), seq![json_header()], slack_body_text(*n)),
{
    let mut text: Vec<char> = chars_of("*");
    push_all(&mut text, &chars_of(n.title.as_str()));
    put(&mut text, "*\n");
    let short = n.short_body(SLACK_BODY_CHARS);
    push_all(&mut text, &chars_of(short.as_str()));
    match &n.link {
        Some(l) => {
            put(&mut text, "\n<");
            push_all(&mut text, &chars_of(l.as_str()));
            put(&mut text, "|Read the story>");
        },
        None => {},
    }
    assert(text@ == slack_text(*n));
    let mut out: Vec<char> = Vec::new();
    put(&mut out, "{\"blocks\":[{\"text\":{\"text\":");
    push_json_quoted(&mut out, &text);
    put(&mut out, ",\"type\":\"mrkdwn\"},\"type\":\"section\"}],\"text\":");
    push_json_quoted(&mut out, &text);
    put(&mut out, "}");
    OutboundRequest {
        url: string_of(&trim_chars(&chars_of(c.target.as_str()))),
        headers: json_content_type(),
        body: string_of(&out),
    }
}

/// Taking nothing of a header list leaves the default header alone.
proof fn lemma_no_headers(hv: Seq<HeaderPair>)
    ensures
        webhook_headers(hv.take(0)) == seq![json_header()],
{
    assert(hv.take(0).len() == 0);
}

/// Render a generic webhook post, applying the channel's configured headers.
fn render_webhook(c: &ChannelConfig, n: &Notification) -> (r: OutboundRequest)
    ensures
        request_view(r) == (crate::text::trim(c.target@), webhook_headers(pair_views(c.headers@)), webhook_text(*n)),
{
    let mut headers = json_content_type();
    assert(headers@.len() == pair_views(headers@).len());
    proof {
        lemma_no_headers(pair_views(c.headers@));
    }
    let ghost hv = pair_views(c.headers@);
    let mut i: usize = 0;
    while i < c.headers.len()
        invariant
            i <= c.headers.len(),
            hv == pair_views(c.headers@),
            pair_views(headers@) == webhook_headers(hv.take(i as int)),
            headers@.len() >= 1,
        decreases c.headers.len() - i,
    {
        assert(hv.take(i as int + 1).drop_last() == hv.take(i as int));
        assert(hv.take(i as int + 1).last() == (c.headers@[i as int].0@, c.headers@[i as int].1@));
        let k = c.headers[i].0.clone();
        let v = c.headers[i].1.clone();
        let ghost before = headers@;
        if crate::config::eq_ignore_case_pub(k.as_str(), "content-type") {
            headers.set(0, (k, v));
            assert(pair_views(headers@) == pair_views(before).update(0, (c.headers@[i as int].0@, c.headers@[i as int].1@)));
        } else {
            headers.push((k, v));
            assert(pair_views(headers@) == pair_views(before).push((c.headers@[i as int].0@, c.headers@[i as int].1@)));
        }
        i += 1;
    }
    assert(hv.take(hv.len() as int) == hv);
    OutboundRequest {
        url: string_of(&trim_chars(&chars_of(c.target.as_str()))),
        headers,
        body: webhook_payload(n),
    }
}

/// Render one notification for one channel: the ntfy publish, the Slack
/// post or the webhook post; `Invalid` when the channel has no target.
pub fn render(channel: &ChannelConfig, notification: &Notification) -> (r: Result<OutboundRequest, CoreError>)
    ensures
        match r {
            Ok(req) => rendered(*channel, *notification) == Ok::<RequestView, Seq<char>>(request_view(req)),
            Err(e) => e matches CoreError::Invalid(m) && rendered(*channel, *notification) == Err::<RequestView, Seq<char>>(m@),
        },
{
    let t = trim_chars(&chars_of(channel.target.as_str()));
    if t.len() == 0 {
        let q = debug_quoted(channel.name.as_str());
        let mut m = chars_of("channel ");
        push_all(&mut m, &chars_of(q.as_str()));
        put(&mut m, " (");
        push_all(&mut m, &chars_of(channel.kind.as_str()));
        put(&mut m, ") has no target configured");
        return Err(CoreError::Invalid(string_of(&m)));
    }
    Ok(match channel.kind {
        ChannelKind::Ntfy => render_ntfy(channel, notification),
        ChannelKind::Slack => render_slack(channel, notification),
        ChannelKind::Webhook => render_webhook(channel, notification),
    })
}

// ---------------------------------------------------------------------------
// Delivery
// ---------------------------------------------------------------------------

/// What a channel's delivery records once the transport answered `res`: the
/// classified status (with up to 200 characters of the trimmed response
/// body appended to an error), or, for a transport error, `Blocked` when
/// the target was refused or invalid and `Failed` otherwise, with the error.
pub open spec fn post_outcome(res: Result<OutboundResponse, CoreError>) -> (DeliveryState, Option<u16>, Option<Seq<char>>) {
    match res {
        Ok(resp) => {
            let (state, error) = status_class(resp.status);
            let detail = truncated(crate::text::trim(resp.body@), 200);
            (
                state,
                Some(resp.status),
                match error {
                    Some(e) => Some(if detail.len() == 0 { e } else { e + ": "@ + detail }),
                    None => None,
                },
            )
        },
        Err(e) => (
            match e {
                CoreError::FetchRefused(_) | CoreError::Invalid(_) => DeliveryState::Blocked,
                _ => DeliveryState::Failed,
            },
            None,
            Some(error_message(e)),
        ),
    }
}

/// The plain-value view of an optional string.
pub open spec fn opt_view(o: Option<String>) -> Option<Seq<char>> {
    match o {
        Some(s) => Some(s@),
        None => None,
    }
}

/// The outcome a transport's answer `res` to `request` gives on `channel`.
pub fn outcome_of(
    channel: &ChannelConfig,
    request: OutboundRequest,
    res: Result<OutboundResponse, CoreError>,
) -> (r: ChannelOutcome)
    ensures
        r.channel_id == channel.id,
        r.channel_name == channel.name,
        r.request == Some(request),
        (r.state, r.http_status, opt_view(r.error)) == post_outcome(res),
{
    match res {
        Ok(resp) => {
            let (state, error) = classify_status(resp.status);
            let error = match error {
                Some(e) => {
                    let detail = truncate_chars(string_of(&trim_chars(&chars_of(resp.body.as_str()))).as_str(), 200);
                    if detail.as_str().is_empty() {
                        Some(e)
                    } else {
                        let mut t = chars_of(e.as_str());
                        put(&mut t, ": ");
                        push_all(&mut t, &chars_of(detail.as_str()));
                        Some(string_of(&t))
                    }
                },
                None => None,
            };
            ChannelOutcome {
                channel_id: channel.id.clone(),
                channel_name: channel.name.clone(),
                state,
                http_status: Some(resp.status),
                error,
                request: Some(request),
            }
        },
        Err(e) => {
            let state = match e {
                CoreError::FetchRefused(_) | CoreError::Invalid(_) => DeliveryState::Blocked,
                _ => DeliveryState::Failed,
            };
            ChannelOutcome {
                channel_id: channel.id.clone(),
                channel_name: channel.name.clone(),
                state,
                http_status: None,
                error: Some(e.message()),
                request: Some(request),
            }
        },
    }
}

/// What `deliver` makes of one channel: its identity carried over; a
/// channel that does not accept the notification skipped with the reason; a
/// request that cannot be rendered blocked with the error; otherwise the
/// rendered request recorded and posted once, and the outcome classified from
/// the transport's answer to it.
pub open spec fn delivered_as<T: Transport + ?Sized>(
    transport: &T,
    r: ChannelOutcome,
    channel: ChannelConfig,
    notification: Notification,
) -> bool {
    &&& r.channel_id == channel.id
    &&& r.channel_name == channel.name
    &&& !channel_accepts(channel.min_priority, channel.events@, notification.kind, notification.priority) ==> {
        &&& r.state == DeliveryState::Skipped
        &&& r.http_status is None
        &&& r.request is None
        &&& opt_view(r.error) == Some(
            "channel does not accept "@ + event_name(notification.kind) + " at priority "@
                + priority_name(notification.priority),
        )
    }
    &&& channel_accepts(channel.min_priority, channel.events@, notification.kind, notification.priority) ==> match rendered(channel, notification) {
        Err(m) => r.state == DeliveryState::Blocked && r.http_status is None && r.request is None
            && opt_view(r.error) == Some("invalid input: "@ + m),
        Ok(req) => r.request matches Some(sent) && request_view(sent) == req && exists|res: Result<OutboundResponse, CoreError>|
            #[trigger] transport.post_answer(req, res) && (r.state, r.http_status, opt_view(r.error)) == post_outcome(res),
    }
}

/// Send one notification to one channel. Never fails: a channel that does
/// not want it is skipped, one that cannot be addressed is blocked, and
/// otherwise the transport's answer is classified.
pub fn deliver<T: Transport + ?Sized>(transport: &T, channel: &ChannelConfig, notification: &Notification) -> (r: ChannelOutcome)
    ensures
        delivered_as(transport, r, *channel, *notification),
{
    if !channel.accepts(notification) {
        let mut m = chars_of("channel does not accept ");
        push_all(&mut m, &chars_of(notification.kind.as_str()));
        put(&mut m, " at priority ");
        push_all(&mut m, &chars_of(notification.priority.as_str()));
        return ChannelOutcome {
            channel_id: channel.id.clone(),
            channel_name: channel.name.clone(),
            state: DeliveryState::Skipped,
            http_status: None,
            error: Some(string_of(&m)),
            request: None,
        };
    }
    let request = match render(channel, notification) {
        Ok(r) => r,
        Err(e) => {
            return ChannelOutcome {
                channel_id: channel.id.clone(),
                channel_name: channel.name.clone(),
                state: DeliveryState::Blocked,
                http_status: None,
                error: Some(e.message()),
                request: None,
            };
        },
    };
    let res = transport.post(&request);
    let ghost answered = res;
    let out = outcome_of(channel, request, res);
    assert((out.state, out.http_status, opt_view(out.error)) == post_outcome(answered));
    out
}

/// Send one notification to every channel, isolating each from the others:
/// one outcome per channel, in the order given.
pub fn dispatch<T: Transport + ?Sized>(transport: &T, channels: &[ChannelConfig], notification: &Notification) -> (r: Vec<ChannelOutcome>)
    ensures
        r@.len() == channels@.len(),
        forall|i: int| 0 <= i < r@.len() ==> delivered_as(transport, #[trigger] r@[i], channels@[i], *notification),
{
    let mut out: Vec<ChannelOutcome> = Vec::new();
    let mut i: usize = 0;
    while i < channels.len()
        invariant
            i <= channels.len(),
            out@.len() == i,
            forall|k: int| 0 <= k < i ==> delivered_as(transport, #[trigger] out@[k], channels@[k], *notification),
        decreases channels.len() - i,
    {
        out.push(deliver(transport, &channels[i], notification));
        i += 1;
    }
    out
}

// ---------------------------------------------------------------------------
// Digests
// ---------------------------------------------------------------------------

/// Most stories named in a digest body; the rest are counted.
pub const MAX_DIGEST_TITLES: usize = 8;

/// The titles of a digest's events, the head's first.
pub open spec fn digest_titles(head: StoredEvent, folded: Seq<StoredEvent>) -> Seq<Seq<char>> {
    seq![head.title@] + folded.map_values(|e: StoredEvent| e.title@)
}

/// The subjects of a digest's events that have one, the head's first.
pub open spec fn subjects_of(es: Seq<StoredEvent>) -> Seq<Seq<char>>
    decreases es.len(),
{
    if es.len() == 0 {
        seq![]
    } else {
        match es.last().subject_id {
            Some(s) => subjects_of(es.drop_last()).push(s@),
            None => subjects_of(es.drop_last()),
        }
    }
}

/// Strings written as a JSON array of strings.
pub open spec fn string_array_text(ss: Seq<Seq<char>>) -> Seq<char> {
    seq!['['] + crate::text::join(ss.map_values(|t: Seq<char>| json_quoted(t)), ","@) + seq![']']
}

/// A bullet line.
pub open spec fn bullet(t: Seq<char>) -> Seq<char> {
    "\u{2022} "@ + t
}

/// The body of a digest: one bullet per shown title (at most
/// `MAX_DIGEST_TITLES`), and a line counting the rest.
pub open spec fn digest_body(titles: Seq<Seq<char>>) -> Seq<char> {
    let shown = titles.take(if titles.len() <= MAX_DIGEST_TITLES { titles.len() as int } else { MAX_DIGEST_TITLES as int });
    let overflow = titles.len() - shown.len();
    crate::text::join(shown.map_values(|t: Seq<char>| bullet(t)), "\n"@) + if overflow > 0 {
        "\n\u{2022} and "@ + crate::num::decimal(overflow as nat) + " more"@
    } else {
        seq![]
    }
}

/// The data of a digest as JSON text: the event count, the subjects and the
/// shown titles.
pub open spec fn digest_data_text(count: nat, subjects: Seq<Seq<char>>, shown: Seq<Seq<char>>) -> Seq<char> {
    seq!['{'] + json_quoted("count"@) + seq![':'] + crate::num::decimal(count) + seq![','] + json_quoted(
        "story_ids"@,
    ) + seq![':'] + string_array_text(subjects) + seq![','] + json_quoted("titles"@) + seq![':']
        + string_array_text(shown) + seq!['}']
}

/// Strings as JSON string values.
pub open spec fn str_values(ss: Seq<String>) -> Seq<Json> {
    ss.map_values(|s: String| Json::Str(s))
}

/// JSON strings written as an array's elements are the quoted strings
/// joined by commas.
proof fn lemma_string_items(ss: Seq<String>)
    ensures
        crate::json::items_text(str_values(ss)) == crate::text::join(
            ss.map_values(|s: String| s@).map_values(|t: Seq<char>| json_quoted(t)),
            ","@,
        ),
    decreases ss.len(),
{
    let q = ss.map_values(|s: String| s@).map_values(|t: Seq<char>| json_quoted(t));
    let sv = str_values(ss);
    reveal_strlit(",");
    if ss.len() == 1 {
        assert(sv[0] == Json::Str(ss[0]));
        assert(q[0] == json_quoted(ss[0]@));
        assert(crate::json::items_text(sv) == json_text(sv[0]));
        assert(crate::text::join(q, ","@) == q[0]);
    } else if ss.len() > 1 {
        assert(crate::json::items_text(sv) == crate::json::items_text(sv.drop_last()) + seq![','] + json_text(sv.last()));
        assert(crate::text::join(q, ","@) == crate::text::join(q.drop_last(), ","@) + ","@ + q.last());
        lemma_string_items(ss.drop_last());
        assert(str_values(ss).drop_last() == str_values(ss.drop_last()));
        assert(q.drop_last() == ss.drop_last().map_values(|s: String| s@).map_values(|t: Seq<char>| json_quoted(t)));
        assert(str_values(ss).last() == Json::Str(ss.last()));
        assert(q.last() == json_quoted(ss.last()@));
    }
}

/// A JSON array of strings.
fn string_array(ss: &Vec<String>) -> (r: Json)
    ensures
        json_text(r) == string_array_text(ss@.map_values(|s: String| s@)),
{
    let mut items: Vec<Json> = Vec::new();
    let mut i: usize = 0;
    while i < ss.len()
        invariant
            i <= ss.len(),
            items@ == str_values(ss@.take(i as int)),
        decreases ss.len() - i,
    {
        items.push(Json::Str(ss[i].clone()));
        assert(str_values(ss@.take(i as int + 1)) == str_values(ss@.take(i as int)).push(Json::Str(ss@[i as int])));
        i += 1;
    }
    assert(ss@.take(ss@.len() as int) == ss@);
    proof {
        lemma_string_items(ss@);
    }
    Json::Array(items)
}

/// The titles of a digest's events and the subjects they have.
fn digest_parts(head: &StoredEvent, folded: &[StoredEvent]) -> (r: (Vec<String>, Vec<String>))
    ensures
        r.0@.map_values(|s: String| s@) == digest_titles(*head, folded@),
        r.1@.map_values(|s: String| s@) == subjects_of(seq![*head] + folded@),
{
    let ghost all = digest_titles(*head, folded@);
    let ghost events = seq![*head] + folded@;
    let mut titles: Vec<String> = Vec::new();
    titles.push(head.title.clone());
    let mut subjects: Vec<String> = Vec::new();
    match &head.subject_id {
        Some(s) => subjects.push(s.clone()),
        None => {},
    }
    assert(events.take(1).drop_last().len() == 0);
    assert(events.take(1).last() == *head);
    assert(subjects_of(events.take(1).drop_last()) == Seq::<Seq<char>>::empty());
    assert(subjects@.map_values(|s: String| s@) == subjects_of(events.take(1)));
    assert(titles@.map_values(|s: String| s@) == all.take(1));
    let mut i: usize = 0;
    while i < folded.len()
        invariant
            i <= folded.len(),
            all == digest_titles(*head, folded@),
            events == seq![*head] + folded@,
            titles@.map_values(|s: String| s@) == all.take(i as int + 1),
            subjects@.map_values(|s: String| s@) == subjects_of(events.take(i as int + 1)),
        decreases folded.len() - i,
    {
        titles.push(folded[i].title.clone());
        assert(all.take(i as int + 2) == all.take(i as int + 1).push(folded@[i as int].title@));
        assert(events.take(i as int + 2).drop_last() == events.take(i as int + 1));
        assert(events.take(i as int + 2).last() == folded@[i as int]);
        match &folded[i].subject_id {
            Some(s) => {
                let ghost before = subjects@;
                subjects.push(s.clone());
                assert(subjects@.map_values(|s: String| s@) == before.map_values(|s: String| s@).push(s@));
            },
            None => {},
        }
        i += 1;
    }
    assert(all.take((folded@.len() + 1) as int) == all);
    assert(events.take((folded@.len() + 1) as int) == events);
    (titles, subjects)
}

/// The body of a digest naming `titles`.
fn digest_body_text(titles: &Vec<String>) -> (r: Vec<char>)
    ensures
        r@ == digest_body(titles@.map_values(|s: String| s@)),
{
    let ghost all = titles@.map_values(|s: String| s@);
    let total = titles.len();
    let shown_len: usize = if total <= MAX_DIGEST_TITLES { total } else { MAX_DIGEST_TITLES };
    let ghost shown = all.take(shown_len as int);
    let mut lines: Vec<Vec<char>> = Vec::new();
    let mut k: usize = 0;
    while k < shown_len
        invariant
            k <= shown_len <= titles.len(),
            all == titles@.map_values(|s: String| s@),
            lines@.map_values(|w: Vec<char>| w@) == all.map_values(|t: Seq<char>| bullet(t)).take(k as int),
        decreases shown_len - k,
    {
        let mut line = chars_of("\u{2022} ");
        push_all(&mut line, &chars_of(titles[k].as_str()));
        let ghost before = lines@;
        lines.push(line);
        assert(lines@.map_values(|w: Vec<char>| w@) == before.map_values(|w: Vec<char>| w@).push(line@));
        k += 1;
    }
    assert(all.map_values(|t: Seq<char>| bullet(t)).take(shown_len as int) == shown.map_values(|t: Seq<char>| bullet(t)));
    let mut body = crate::text::join_first(&lines, lines.len(), &chars_of("\n"));
    assert(lines@.map_values(|w: Vec<char>| w@).take(lines@.len() as int) == lines@.map_values(|w: Vec<char>| w@));
    if total > shown_len {
        put(&mut body, "\n\u{2022} and ");
        push_all(&mut body, &crate::num::u64_to_decimal((total - shown_len) as u64));
        put(&mut body, " more");
    }
    body
}

/// The data of a digest.
fn digest_data(total: usize, subjects: &Vec<String>, titles: &Vec<String>) -> (r: Json)
    ensures
        json_text(r) == digest_data_text(
            total as nat,
            subjects@.map_values(|s: String| s@),
            titles@.map_values(|s: String| s@),
        ),
{
    let story_ids = string_array(subjects);
    let shown_titles = string_array(titles);
    let k0 = "count".to_owned();
    let v0 = Json::Number(string_of(&crate::num::u64_to_decimal(total as u64)));
    assert(json_text(v0) == crate::num::decimal(total as nat));
    let mut ms: Vec<(String, Json)> = Vec::new();
    ms.push((k0, v0));
    ms.push(("story_ids".to_owned(), story_ids));
    ms.push(("titles".to_owned(), shown_titles));
    let ghost m = ms@;
    let data = Json::Object(ms);
    proof {
        assert(m.drop_last().drop_last().len() == 1);
        assert(m.drop_last().drop_last()[0] == m[0]);
        assert(m.drop_last().last() == m[1]);
        assert(m.last() == m[2]);
        assert(m[0].0@ == "count"@);
        assert(crate::json::members_text(m.drop_last().drop_last()) == json_quoted("count"@) + seq![':']
            + crate::num::decimal(total as nat));
        assert(crate::json::members_text(m.drop_last()) == crate::json::members_text(m.drop_last().drop_last())
            + seq![','] + json_quoted("story_ids"@) + seq![':'] + json_text(m[1].1));
        assert(crate::json::members_text(m) == crate::json::members_text(m.drop_last())
            + seq![','] + json_quoted("titles"@) + seq![':'] + json_text(m[2].1));
    }
    data
}

/// The lowest priority among `head` and `folded`: `High` exactly when every
/// one of them is `High`.
pub open spec fn lowest_priority(head: StoredEvent, folded: Seq<StoredEvent>) -> NotifyPriority {
    if head.priority == NotifyPriority::High && forall|i: int|
        0 <= i < folded.len() ==> (#[trigger] folded[i]).priority == NotifyPriority::High {
        NotifyPriority::High
    } else {
        NotifyPriority::Normal
    }
}

/// The lowest priority among `head` and `folded`.
fn digest_priority(head: &StoredEvent, folded: &[StoredEvent]) -> (r: NotifyPriority)
    ensures
        r == lowest_priority(*head, folded@),
{
    let mut all_high = match head.priority {
        NotifyPriority::High => true,
        NotifyPriority::Normal => false,
    };
    let mut i: usize = 0;
    while i < folded.len()
        invariant
            i <= folded@.len(),
            all_high == (head.priority == NotifyPriority::High && forall|j: int|
                0 <= j < i ==> (#[trigger] folded@[j]).priority == NotifyPriority::High),
        decreases folded@.len() - i,
    {
        if let NotifyPriority::Normal = folded[i].priority {
            all_high = false;
        }
        i += 1;
    }
    if all_high {
        NotifyPriority::High
    } else {
        NotifyPriority::Normal
    }
}

/// Build the notification for a digest: `head` is the due event that
/// becomes the digest, `folded` the others collapsed into it. It takes the
/// lowest priority of its parts, names at most `MAX_DIGEST_TITLES` stories and counts
/// the rest, and carries the count, the subjects and the shown titles.
pub fn digest_notification(head: &StoredEvent, folded: &[StoredEvent], now: i64) -> (r: Notification)
    requires
        folded@.len() < usize::MAX,
    ensures
        r.kind == EventKind::StoryDigest,
        r.priority == lowest_priority(*head, folded@),
        r.title@ == crate::num::decimal((folded@.len() + 1) as nat) + " new stories"@,
        r.body@ == digest_body(digest_titles(*head, folded@)),
        r.link is None,
        r.timestamp == now,
        r.subject_id is None,
        json_text(r.data) == digest_data_text(
            (folded@.len() + 1) as nat,
            subjects_of(seq![*head] + folded@),
            digest_titles(*head, folded@).take(
                if folded@.len() + 1 <= MAX_DIGEST_TITLES { (folded@.len() + 1) as int } else { MAX_DIGEST_TITLES as int },
            ),
        ),
{
    let total: usize = folded.len() + 1;
    let priority = digest_priority(head, folded);
    let (mut titles, subjects) = digest_parts(head, folded);
    let body = digest_body_text(&titles);
    let ghost all = titles@.map_values(|s: String| s@);
    titles.truncate(MAX_DIGEST_TITLES);
    assert(titles@.map_values(|s: String| s@) == all.take(
        if total <= MAX_DIGEST_TITLES { total as int } else { MAX_DIGEST_TITLES as int },
    ));
    let data = digest_data(total, &subjects, &titles);
    let mut title = crate::num::u64_to_decimal(total as u64);
    put(&mut title, " new stories");
    Notification {
        kind: EventKind::StoryDigest,
        priority,
        title: string_of(&title),
        body: string_of(&body),
        link: None,
        timestamp: now,
        subject_id: None,
        data,
    }
}

// ---------------------------------------------------------------------------
// Laws
// ---------------------------------------------------------------------------

/// A lowercase word of letters, digits, dots and underscores folds to itself.
proof fn lemma_folded_plain(s: Seq<char>)
    requires
        s.len() > 0,
        forall|i: int| 0 <= i < s.len() ==> ('a' <= #[trigger] s[i] <= 'z' || '0' <= s[i] <= '9' || s[i]
            == '.' || s[i] == '_'),
    ensures
        folded(s) == s,
        trim(s) == s,
{
    assert(trim(s) == s) by {
        assert(!crate::text::unicode_whitespace(s[0]));
        assert(crate::text::trim_start(s) == s);
        assert(!crate::text::unicode_whitespace(s.last()));
    }
    assert(ascii_lower_seq(s) =~= s);
}

/// The notification priority vocabulary, as data.
pub open spec fn priority_words_table() -> Seq<(Seq<char>, NotifyPriority)> {
    seq![
        ("high"@, NotifyPriority::High),
        ("urgent"@, NotifyPriority::High),
        ("critical"@, NotifyPriority::High),
        ("normal"@, NotifyPriority::Normal),
    ]
}

/// Each word of the priority vocabulary reads as its priority.
pub proof fn law_priority_words(i: int)
    requires
        0 <= i < priority_words_table().len(),
    ensures
        parse_priority(priority_words_table()[i].0) == priority_words_table()[i].1,
{
    reveal_strlit("critical");
    reveal_strlit("high");
    reveal_strlit("normal");
    reveal_strlit("urgent");
    assert("critical"@.len() == 8 && "critical"@[0] == 'c' && "critical"@[1] == 'r' && "critical"@[2] == 'i' && "critical"@[3] == 't' && "critical"@[4] == 'i' && "critical"@[5] == 'c' && "critical"@[6] == 'a' && "critical"@[7] == 'l');
    assert("high"@.len() == 4 && "high"@[0] == 'h' && "high"@[1] == 'i' && "high"@[2] == 'g' && "high"@[3] == 'h');
    assert("normal"@.len() == 6 && "normal"@[0] == 'n' && "normal"@[1] == 'o' && "normal"@[2] == 'r' && "normal"@[3] == 'm' && "normal"@[4] == 'a' && "normal"@[5] == 'l');
    assert("urgent"@.len() == 6 && "urgent"@[0] == 'u' && "urgent"@[1] == 'r' && "urgent"@[2] == 'g' && "urgent"@[3] == 'e' && "urgent"@[4] == 'n' && "urgent"@[5] == 't');
    let t = priority_words_table();
    if i == 0 {
        lemma_folded_plain("high"@);
        assert(t[0] == ("high"@, NotifyPriority::High));
    }
    if i == 1 {
        lemma_folded_plain("urgent"@);
        assert(t[1] == ("urgent"@, NotifyPriority::High));
    }
    if i == 2 {
        lemma_folded_plain("critical"@);
        assert(t[2] == ("critical"@, NotifyPriority::High));
    }
    if i == 3 {
        lemma_folded_plain("normal"@);
        assert(t[3] == ("normal"@, NotifyPriority::Normal));
    }
}

/// The ntfy level vocabulary, names and numbers, as data.
pub open spec fn ntfy_words_table() -> Seq<(Seq<char>, NtfyPriority)> {
    seq![
        ("min"@, NtfyPriority::Min),
        ("1"@, NtfyPriority::Min),
        ("low"@, NtfyPriority::Low),
        ("2"@, NtfyPriority::Low),
        ("default"@, NtfyPriority::Default),
        ("3"@, NtfyPriority::Default),
        ("high"@, NtfyPriority::High),
        ("4"@, NtfyPriority::High),
        ("urgent"@, NtfyPriority::Urgent),
        ("max"@, NtfyPriority::Urgent),
        ("5"@, NtfyPriority::Urgent),
    ]
}

/// Each ntfy level name or number reads as its level.
pub proof fn law_ntfy_words(i: int)
    requires
        0 <= i < ntfy_words_table().len(),
    ensures
        parse_ntfy(ntfy_words_table()[i].0) == Some(ntfy_words_table()[i].1),
{
    reveal_strlit("1");
    reveal_strlit("2");
    reveal_strlit("3");
    reveal_strlit("4");
    reveal_strlit("5");
    reveal_strlit("default");
    reveal_strlit("high");
    reveal_strlit("low");
    reveal_strlit("max");
    reveal_strlit("min");
    reveal_strlit("urgent");
    assert("1"@.len() == 1 && "1"@[0] == '1');
    assert("2"@.len() == 1 && "2"@[0] == '2');
    assert("3"@.len() == 1 && "3"@[0] == '3');
    assert("4"@.len() == 1 && "4"@[0] == '4');
    assert("5"@.len() == 1 && "5"@[0] == '5');
    assert("default"@.len() == 7 && "default"@[0] == 'd' && "default"@[1] == 'e' && "default"@[2] == 'f' && "default"@[3] == 'a' && "default"@[4] == 'u' && "default"@[5] == 'l' && "default"@[6] == 't');
    assert("high"@.len() == 4 && "high"@[0] == 'h' && "high"@[1] == 'i' && "high"@[2] == 'g' && "high"@[3] == 'h');
    assert("low"@.len() == 3 && "low"@[0] == 'l' && "low"@[1] == 'o' && "low"@[2] == 'w');
    assert("max"@.len() == 3 && "max"@[0] == 'm' && "max"@[1] == 'a' && "max"@[2] == 'x');
    assert("min"@.len() == 3 && "min"@[0] == 'm' && "min"@[1] == 'i' && "min"@[2] == 'n');
    assert("urgent"@.len() == 6 && "urgent"@[0] == 'u' && "urgent"@[1] == 'r' && "urgent"@[2] == 'g' && "urgent"@[3] == 'e' && "urgent"@[4] == 'n' && "urgent"@[5] == 't');
    let t = ntfy_words_table();
    if i == 0 {
        lemma_folded_plain("min"@);
        assert(t[0] == ("min"@, NtfyPriority::Min));
    }
    if i == 1 {
        lemma_folded_plain("1"@);
        assert(t[1] == ("1"@, NtfyPriority::Min));
    }
    if i == 2 {
        lemma_folded_plain("low"@);
        assert(t[2] == ("low"@, NtfyPriority::Low));
    }
    if i == 3 {
        lemma_folded_plain("2"@);
        assert(t[3] == ("2"@, NtfyPriority::Low));
    }
    if i == 4 {
        lemma_folded_plain("default"@);
        assert(t[4] == ("default"@, NtfyPriority::Default));
    }
    if i == 5 {
        lemma_folded_plain("3"@);
        assert(t[5] == ("3"@, NtfyPriority::Default));
    }
    if i == 6 {
        lemma_folded_plain("high"@);
        assert(t[6] == ("high"@, NtfyPriority::High));
    }
    if i == 7 {
        lemma_folded_plain("4"@);
        assert(t[7] == ("4"@, NtfyPriority::High));
    }
    if i == 8 {
        lemma_folded_plain("urgent"@);
        assert(t[8] == ("urgent"@, NtfyPriority::Urgent));
    }
    if i == 9 {
        lemma_folded_plain("max"@);
        assert(t[9] == ("max"@, NtfyPriority::Urgent));
    }
    if i == 10 {
        lemma_folded_plain("5"@);
        assert(t[10] == ("5"@, NtfyPriority::Urgent));
    }
}

/// The channel kind vocabulary, as data.
pub open spec fn channel_words_table() -> Seq<(Seq<char>, ChannelKind)> {
    seq![
        ("ntfy"@, ChannelKind::Ntfy),
        ("slack"@, ChannelKind::Slack),
        ("webhook"@, ChannelKind::Webhook),
        ("http"@, ChannelKind::Webhook),
        ("generic"@, ChannelKind::Webhook),
    ]
}

/// Each channel kind word reads as its kind.
pub proof fn law_channel_words(i: int)
    requires
        0 <= i < channel_words_table().len(),
    ensures
        parse_channel_kind(channel_words_table()[i].0) == Some(channel_words_table()[i].1),
{
    reveal_strlit("generic");
    reveal_strlit("http");
    reveal_strlit("ntfy");
    reveal_strlit("slack");
    reveal_strlit("webhook");
    assert("generic"@.len() == 7 && "generic"@[0] == 'g' && "generic"@[1] == 'e' && "generic"@[2] == 'n' && "generic"@[3] == 'e' && "generic"@[4] == 'r' && "generic"@[5] == 'i' && "generic"@[6] == 'c');
    assert("http"@.len() == 4 && "http"@[0] == 'h' && "http"@[1] == 't' && "http"@[2] == 't' && "http"@[3] == 'p');
    assert("ntfy"@.len() == 4 && "ntfy"@[0] == 'n' && "ntfy"@[1] == 't' && "ntfy"@[2] == 'f' && "ntfy"@[3] == 'y');
    assert("slack"@.len() == 5 && "slack"@[0] == 's' && "slack"@[1] == 'l' && "slack"@[2] == 'a' && "slack"@[3] == 'c' && "slack"@[4] == 'k');
    assert("webhook"@.len() == 7 && "webhook"@[0] == 'w' && "webhook"@[1] == 'e' && "webhook"@[2] == 'b' && "webhook"@[3] == 'h' && "webhook"@[4] == 'o' && "webhook"@[5] == 'o' && "webhook"@[6] == 'k');
    let t = channel_words_table();
    if i == 0 {
        lemma_folded_plain("ntfy"@);
        assert(t[0] == ("ntfy"@, ChannelKind::Ntfy));
    }
    if i == 1 {
        lemma_folded_plain("slack"@);
        assert(t[1] == ("slack"@, ChannelKind::Slack));
    }
    if i == 2 {
        lemma_folded_plain("webhook"@);
        assert(t[2] == ("webhook"@, ChannelKind::Webhook));
    }
    if i == 3 {
        lemma_folded_plain("http"@);
        assert(t[3] == ("http"@, ChannelKind::Webhook));
    }
    if i == 4 {
        lemma_folded_plain("generic"@);
        assert(t[4] == ("generic"@, ChannelKind::Webhook));
    }
}

/// Every event kind reads back from its column value.
pub proof fn lemma_event_kind_round_trip(k: EventKind)
    ensures
        event_from_name(event_name(k)) == Some(k),
        event_name(k).len() > 0,
        trim(event_name(k)) == event_name(k),
        !event_name(k).contains(','),
{
    reveal_strlit("story.new");
    reveal_strlit("story.updated");
    reveal_strlit("story.digest");
    reveal_strlit("alert.feed_failing");
    reveal_strlit("alert.budget_threshold");
    reveal_strlit("alert.queue_stuck");
    assert("story.new"@.len() == 9);
    assert("story.updated"@.len() == 13);
    assert("story.digest"@.len() == 12);
    assert("alert.feed_failing"@.len() == 18);
    assert("alert.budget_threshold"@.len() == 22);
    assert("alert.queue_stuck"@.len() == 17);
    lemma_folded_plain(event_name(k));
}

/// No two event kinds share a column value.
pub proof fn lemma_event_names_distinct(a: EventKind, b: EventKind)
    ensures
        a != b ==> event_name(a) != event_name(b),
{
    lemma_event_kind_round_trip(a);
    lemma_event_kind_round_trip(b);
}

/// Every outbox state reads back from its column value, and no two share one.
pub proof fn lemma_event_state_round_trip(a: EventState, b: EventState)
    ensures
        event_state_from_name(event_state_name(a)) == Some(a),
        a != b ==> event_state_name(a) != event_state_name(b),
{
    reveal_strlit("pending");
    reveal_strlit("sent");
    reveal_strlit("suppressed");
    reveal_strlit("digested");
    assert("pending"@.len() == 7);
    assert("sent"@.len() == 4);
    assert("suppressed"@.len() == 10);
    assert("digested"@.len() == 8);
}

/// Every ntfy level reads back from its name and from its number.
pub proof fn lemma_ntfy_round_trip(p: NtfyPriority)
    ensures
        parse_ntfy(ntfy_name(p)) == Some(p),
        1 <= ntfy_number(p) <= 5,
        trim(ntfy_name(p)) == ntfy_name(p),
{
    reveal_strlit("min");
    reveal_strlit("low");
    reveal_strlit("default");
    reveal_strlit("high");
    reveal_strlit("urgent");
    reveal_strlit("max");
    reveal_strlit("1");
    reveal_strlit("2");
    reveal_strlit("3");
    reveal_strlit("4");
    reveal_strlit("5");
    lemma_folded_plain(ntfy_name(p));
}

/// A notification priority reads back from its column value.
pub proof fn lemma_priority_round_trip(p: NotifyPriority)
    ensures
        parse_priority(priority_name(p)) == p,
        trim(priority_name(p)) == priority_name(p),
{
    reveal_strlit("normal");
    reveal_strlit("high");
    reveal_strlit("urgent");
    reveal_strlit("critical");
    lemma_folded_plain(priority_name(p));
}

/// Every channel kind reads back from its persisted value.
pub proof fn lemma_channel_kind_round_trip(k: ChannelKind)
    ensures
        parse_channel_kind(channel_kind_name(k)) == Some(k),
        trim(channel_kind_name(k)) == channel_kind_name(k),
{
    reveal_strlit("ntfy");
    reveal_strlit("slack");
    reveal_strlit("webhook");
    reveal_strlit("http");
    reveal_strlit("generic");
    lemma_folded_plain(channel_kind_name(k));
}

/// The ntfy ladder: at either priority, an operator alert is louder than a
/// story event, which is louder than a digest; and a high priority is never
/// quieter than a normal one.
pub proof fn lemma_ntfy_ladder(alert: EventKind, story: EventKind, p: NotifyPriority)
    requires
        is_operator_alert(alert),
        is_digestible(story),
    ensures
        ntfy_number(ntfy_for_event(alert, p)) > ntfy_number(ntfy_for_event(story, p)),
        ntfy_number(ntfy_for_event(story, p)) > ntfy_number(ntfy_for_event(EventKind::StoryDigest, p)),
        ntfy_number(ntfy_for_event(alert, NotifyPriority::High)) >= ntfy_number(
            ntfy_for_event(alert, p),
        ),
        ntfy_number(ntfy_for_event(story, NotifyPriority::High)) >= ntfy_number(
            ntfy_for_event(story, p),
        ),
{
}

/// A channel with no event filter and a `Normal` floor accepts everything;
/// a `High` floor drops every `Normal` notification.
pub proof fn lemma_channel_floor(events: Seq<EventKind>, kind: EventKind, p: NotifyPriority)
    ensures
        channel_accepts(NotifyPriority::Normal, seq![], kind, p),
        !channel_accepts(NotifyPriority::High, events, kind, NotifyPriority::Normal),
{
}

/// A digest goes wherever a story event goes.
pub proof fn lemma_digest_follows_stories(min: NotifyPriority, events: Seq<EventKind>, story: EventKind, p: NotifyPriority)
    requires
        is_digestible(story),
        channel_accepts(min, events, story, p),
    ensures
        channel_accepts(min, events, EventKind::StoryDigest, p),
{
}

} // verus!
