//! Feed, topic and notification-channel configuration: the field contract,
//! the parsing of an Item's `fields` object, and the coercion an admin edit
//! passes through.
//!
//! The host merges whatever fields a presave hook returns and saves
//! unconditionally, so validation is coercion: what can be clamped is
//! clamped, what cannot (a URL that is not a URL) disables the feed, and
//! every adjustment is written into a note the admin can read.

use vstd::prelude::*;
use crate::text::{chars_of, string_of, push_all, trim, trim_chars, is_text, unicode_alphanumeric,
    is_alphanumeric, slice_chars, chars_eq, join, join_first, pieces, split_on, ascii_lower_seq,
    ascii_lowercase, debug_quoted, debug_str_text, lemma_trim_idempotent, lemma_split_join,
    lemma_join_ends, lemma_trimmed_ends, lemma_trim_fixed};
use crate::num::{parse_i64, parse_i64_spec, padded_int, i64_to_padded};
use crate::decimal::{truncated_i64, number_to_i64};
use crate::json::{Json, member, json_str, found, get_member, str_of, parse_json, json_text_value,
    json_quoted, push_json_quoted};
use crate::notify::{ChannelConfig, ChannelKind, EventKind, NotifyPriority, NtfyPriority,
    parse_channel_kind, parse_priority, parse_ntfy, event_from_name, event_name, priority_name,
    channel_kind_name, ntfy_name, lemma_event_kind_round_trip, lemma_channel_kind_round_trip,
    lemma_priority_round_trip, lemma_ntfy_round_trip};

verus! {

// ---------------------------------------------------------------------------
// Field contract
// ---------------------------------------------------------------------------

/// Machine name of the feed content type.
pub const FEED_TYPE: &'static str = "argus_feed";
/// Machine name of the topic content type.
pub const TOPIC_TYPE: &'static str = "argus_topic";
/// Feed field: the URL to fetch.
pub const FIELD_URL: &'static str = "field_url";
/// Feed field: the owning topic's Item id, as a uuid string.
pub const FIELD_TOPIC: &'static str = "field_topic";
/// Feed field: seconds between fetches.
pub const FIELD_FETCH_INTERVAL: &'static str = "field_fetch_interval";
/// Feed field: what the last presave coercion changed, for the admin to read.
pub const FIELD_CONFIG_NOTE: &'static str = "field_config_note";
/// Topic field: the prompt the decide stage scores an article against.
pub const FIELD_RELEVANCE_PROMPT: &'static str = "field_relevance_prompt";
/// Topic field: the score at or above which an article is kept (`0..=100`).
pub const FIELD_RELEVANCE_THRESHOLD: &'static str = "field_relevance_threshold";
/// Topic field: `normal` or `high`.
pub const FIELD_TOPIC_PRIORITY: &'static str = "field_notify_priority";
/// Machine name of the notification channel content type.
pub const CHANNEL_TYPE: &'static str = "argus_notify_channel";
/// Channel field: `ntfy`, `slack` or `webhook`.
pub const FIELD_CHANNEL_KIND: &'static str = "field_kind";
/// Channel field: the ntfy topic name, or the Slack/webhook URL.
pub const FIELD_CHANNEL_TARGET: &'static str = "field_target";
/// Channel field: the ntfy server base URL; blank means the default server.
pub const FIELD_CHANNEL_SERVER: &'static str = "field_server";
/// Channel field: a JSON object of extra request headers (webhook only).
pub const FIELD_CHANNEL_HEADERS: &'static str = "field_headers";
/// Channel field: the lowest priority this channel accepts.
pub const FIELD_CHANNEL_MIN_PRIORITY: &'static str = "field_min_priority";
/// Channel field: a comma-separated event filter; blank means every event.
pub const FIELD_CHANNEL_EVENTS: &'static str = "field_events";
/// Channel field: an explicit ntfy ladder position overriding the default map.
pub const FIELD_CHANNEL_NTFY_PRIORITY: &'static str = "field_ntfy_priority";

/// Floor on a feed's fetch interval: a publisher is entitled not to be
/// polled harder than every five minutes.
pub const MIN_FETCH_INTERVAL_SECONDS: i64 = 300;
/// Ceiling on a feed's fetch interval (one week).
pub const MAX_FETCH_INTERVAL_SECONDS: i64 = 7 * 24 * 60 * 60;
/// Interval used when a feed declares none.
pub const DEFAULT_FETCH_INTERVAL_SECONDS: i64 = 900;
/// Relevance threshold used when a topic declares none.
pub const DEFAULT_RELEVANCE_THRESHOLD: u8 = 50;

// ---------------------------------------------------------------------------
// Parsed configuration
// ---------------------------------------------------------------------------

/// A feed's admin-owned configuration, read from its Item.
#[derive(Debug, Clone, PartialEq, Eq)]
pub struct FeedConfig {
    /// The feed Item's id (uuid string), also the key of its state row.
    pub id: String,
    /// Display name (the Item's title).
    pub name: String,
    /// URL to fetch.
    pub url: String,
    /// Owning topic's Item id (uuid string); empty when unset.
    pub topic_id: String,
    /// Seconds between fetches, already clamped.
    pub interval_seconds: i64,
}

/// A topic's admin-owned configuration, read from its Item.
#[derive(Debug, Clone, PartialEq, Eq)]
pub struct TopicConfig {
    /// The topic Item's id (uuid string).
    pub id: String,
    /// Display name (the Item's title).
    pub name: String,
    /// The prompt an article is scored against.
    pub relevance_prompt: String,
    /// Keep threshold, already clamped to `0..=100`.
    pub threshold: u8,
    /// Notification priority for stories on this topic.
    pub notify_priority: NotifyPriority,
}

/// The value of the field `name` of an optional `fields` object.
pub open spec fn field(fields: Option<Json>, name: Seq<char>) -> Option<Json> {
    match fields {
        Some(Json::Object(ms)) => member(ms@, name),
        _ => None,
    }
}

/// A string field, trimmed; empty when absent, null or not a string.
pub open spec fn field_text(fields: Option<Json>, name: Seq<char>) -> Seq<char> {
    match json_str(field(fields, name)) {
        Some(s) => trim(s),
        None => seq![],
    }
}

/// An integer field: a JSON number (truncated toward zero and saturated when
/// it is not an `i64`), or a string holding an `i64` after trimming.
pub open spec fn field_int(fields: Option<Json>, name: Seq<char>) -> Option<i64> {
    match field(fields, name) {
        Some(Json::Number(t)) => truncated_i64(t@),
        Some(Json::Str(s)) => parse_i64_spec(trim(s@)),
        _ => None,
    }
}

/// The optional value view of an optional reference.
pub open spec fn deref_opt(v: Option<&Json>) -> Option<Json> {
    match v {
        Some(j) => Some(*j),
        None => None,
    }
}

/// The field `name` of an optional `fields` object.
fn field_of<'a>(fields: Option<&'a Json>, name: &str) -> (r: Option<&'a Json>)
    ensures
        found(r, field(deref_opt(fields), name@)),
{
    match fields {
        Some(Json::Object(ms)) => get_member(ms, name),
        _ => None,
    }
}

/// Read a string field, trimmed; tolerates the field being absent, null or
/// not a string.
fn field_str(fields: Option<&Json>, name: &str) -> (r: String)
    ensures
        r@ == field_text(deref_opt(fields), name@),
{
    match str_of(field_of(fields, name)) {
        Some(s) => string_of(&trim_chars(&chars_of(s.as_str()))),
        None => String::new(),
    }
}

/// Read an integer field: a JSON number, or a numeric string (the item form
/// posts every text input as a string).
fn field_i64(fields: Option<&Json>, name: &str) -> (r: Option<i64>)
    ensures
        r == field_int(deref_opt(fields), name@),
{
    match field_of(fields, name) {
        Some(Json::Number(t)) => number_to_i64(&chars_of(t.as_str())),
        Some(Json::Str(s)) => parse_i64(&trim_chars(&chars_of(s.as_str()))),
        _ => None,
    }
}

/// A string member of an Item, untrimmed.
pub open spec fn item_text(item: Json, key: Seq<char>) -> Option<Seq<char>> {
    json_str(field(Some(item), key))
}

/// A string member of an Item, as given.
fn item_str(item: &Json, key: &str) -> (r: Option<String>)
    ensures
        match r {
            Some(s) => item_text(*item, key@) == Some(s@),
            None => item_text(*item, key@) is None,
        },
{
    match str_of(field_of(Some(item), key)) {
        Some(s) => Some(s.clone()),
        None => None,
    }
}

/// The `fields` object of an Item.
pub open spec fn item_fields(item: Json) -> Option<Json> {
    field(Some(item), "fields"@)
}

/// A fetch interval clamped into `[MIN, MAX]`.
pub open spec fn clamped_interval(seconds: i64) -> i64 {
    if seconds < MIN_FETCH_INTERVAL_SECONDS {
        MIN_FETCH_INTERVAL_SECONDS
    } else if seconds > MAX_FETCH_INTERVAL_SECONDS {
        MAX_FETCH_INTERVAL_SECONDS
    } else {
        seconds
    }
}

/// A relevance threshold clamped into `0..=100`.
pub open spec fn clamped_threshold(value: i64) -> u8 {
    if value < 0 {
        0
    } else if value > 100 {
        100
    } else {
        value as u8
    }
}

/// Clamp a fetch interval into `[MIN_FETCH_INTERVAL_SECONDS, MAX_FETCH_INTERVAL_SECONDS]`.
pub fn clamp_interval(seconds: i64) -> (r: i64)
    ensures
        r == clamped_interval(seconds),
{
    if seconds < MIN_FETCH_INTERVAL_SECONDS {
        MIN_FETCH_INTERVAL_SECONDS
    } else if seconds > MAX_FETCH_INTERVAL_SECONDS {
        MAX_FETCH_INTERVAL_SECONDS
    } else {
        seconds
    }
}

/// Clamp a relevance threshold into `0..=100`.
pub fn clamp_threshold(value: i64) -> (r: u8)
    ensures
        r == clamped_threshold(value),
{
    if value < 0 {
        0
    } else if value > 100 {
        100
    } else {
        value as u8
    }
}

/// The configuration a feed Item carries: its id, title, trimmed URL and
/// topic, and its clamped interval (the default when unset). `None` without
/// a string `id`.
pub open spec fn feed_config_of(item: Json) -> Option<(Seq<char>, Seq<char>, Seq<char>, Seq<char>, i64)> {
    match item_text(item, "id"@) {
        None => None,
        Some(id) => {
            let f = item_fields(item);
            Some(
                (
                    id,
                    match item_text(item, "title"@) {
                        Some(t) => t,
                        None => seq![],
                    },
                    field_text(f, FIELD_URL@),
                    field_text(f, FIELD_TOPIC@),
                    clamped_interval(
                        match field_int(f, FIELD_FETCH_INTERVAL@) {
                            Some(v) => v,
                            None => DEFAULT_FETCH_INTERVAL_SECONDS,
                        },
                    ),
                ),
            )
        },
    }
}

/// Parse a feed Item into its configuration; `None` when it is not an Item
/// object with a string id.
pub fn parse_feed(item: &Json) -> (r: Option<FeedConfig>)
    ensures
        match r {
            Some(c) => feed_config_of(*item) == Some(
                (c.id@, c.name@, c.url@, c.topic_id@, c.interval_seconds),
            ),
            None => feed_config_of(*item) is None,
        },
{
    let id = match item_str(item, "id") {
        Some(id) => id,
        None => return None,
    };
    let fields = field_of(Some(item), "fields");
    let name = match item_str(item, "title") {
        Some(t) => t,
        None => String::new(),
    };
    let interval = match field_i64(fields, FIELD_FETCH_INTERVAL) {
        Some(v) => v,
        None => DEFAULT_FETCH_INTERVAL_SECONDS,
    };
    Some(FeedConfig {
        id,
        name,
        url: field_str(fields, FIELD_URL),
        topic_id: field_str(fields, FIELD_TOPIC),
        interval_seconds: clamp_interval(interval),
    })
}

/// The configuration a topic Item carries: id, title, trimmed prompt,
/// clamped threshold (the default when unset) and notify priority. `None`
/// without a string `id`.
pub open spec fn topic_config_of(item: Json) -> Option<(Seq<char>, Seq<char>, Seq<char>, u8, NotifyPriority)> {
    match item_text(item, "id"@) {
        None => None,
        Some(id) => {
            let f = item_fields(item);
            Some(
                (
                    id,
                    match item_text(item, "title"@) {
                        Some(t) => t,
                        None => seq![],
                    },
                    field_text(f, FIELD_RELEVANCE_PROMPT@),
                    clamped_threshold(
                        match field_int(f, FIELD_RELEVANCE_THRESHOLD@) {
                            Some(v) => v,
                            None => DEFAULT_RELEVANCE_THRESHOLD as i64,
                        },
                    ),
                    parse_priority(field_text(f, FIELD_TOPIC_PRIORITY@)),
                ),
            )
        },
    }
}

/// Parse a topic Item into its configuration; `None` on the same terms as
/// `parse_feed`.
pub fn parse_topic(item: &Json) -> (r: Option<TopicConfig>)
    ensures
        match r {
            Some(c) => topic_config_of(*item) == Some(
                (c.id@, c.name@, c.relevance_prompt@, c.threshold, c.notify_priority),
            ),
            None => topic_config_of(*item) is None,
        },
{
    let id = match item_str(item, "id") {
        Some(id) => id,
        None => return None,
    };
    let fields = field_of(Some(item), "fields");
    let name = match item_str(item, "title") {
        Some(t) => t,
        None => String::new(),
    };
    let threshold = match field_i64(fields, FIELD_RELEVANCE_THRESHOLD) {
        Some(v) => v,
        None => DEFAULT_RELEVANCE_THRESHOLD as i64,
    };
    let priority = field_str(fields, FIELD_TOPIC_PRIORITY);
    Some(TopicConfig {
        id,
        name,
        relevance_prompt: field_str(fields, FIELD_RELEVANCE_PROMPT),
        threshold: clamp_threshold(threshold),
        notify_priority: NotifyPriority::parse(priority.as_str()),
    })
}

// ---------------------------------------------------------------------------
// URLs
// ---------------------------------------------------------------------------

/// What follows the `https://` (else `http://`) scheme prefix of `t`.
pub open spec fn after_scheme(t: Seq<char>) -> Option<Seq<char>> {
    if t.len() >= 8 && t.take(8) == "https://"@ {
        Some(t.skip(8))
    } else if t.len() >= 7 && t.take(7) == "http://"@ {
        Some(t.skip(7))
    } else {
        None
    }
}

/// The index of the first `/`, `?` or `#` in `s` at or after `i`, or its length.
pub open spec fn host_end(s: Seq<char>, i: int) -> int
    decreases s.len() - i,
{
    if i < 0 || i >= s.len() {
        s.len() as int
    } else if s[i] == '/' || s[i] == '?' || s[i] == '#' {
        i
    } else {
        host_end(s, i + 1)
    }
}

/// Whether some character of `s` is alphanumeric.
pub open spec fn has_alphanumeric(s: Seq<char>) -> bool {
    exists|i: int| 0 <= i < s.len() && unicode_alphanumeric(#[trigger] s[i])
}

/// The URL `raw` normalizes to: trimmed, when it is an absolute http(s) URL
/// whose host (up to the first `/`, `?` or `#`) is non-empty, does not start
/// with a dot, and holds an alphanumeric character.
pub open spec fn normalized_url(raw: Seq<char>) -> Option<Seq<char>> {
    let t = trim(raw);
    match after_scheme(t) {
        None => None,
        Some(rest) => {
            let host = rest.take(host_end(rest, 0));
            if host.len() == 0 || host[0] == '.' || !has_alphanumeric(host) {
                None
            } else {
                Some(t)
            }
        },
    }
}

/// Normalize a feed URL, or `None` when it is not usable as one. Deliberately
/// shallow: the fetch stage and the host's own fence decide whether a host
/// may be reached.
pub fn normalize_url(raw: &str) -> (r: Option<String>)
    ensures
        match r {
            Some(u) => normalized_url(raw@) == Some(u@),
            None => normalized_url(raw@) is None,
        },
{
    let t = trim_chars(&chars_of(raw));
    let n = t.len();
    let skip: usize = if n >= 8 && is_text(&slice_chars(&t, 0, 8), "https://") {
        8
    } else if n >= 7 && is_text(&slice_chars(&t, 0, 7), "http://") {
        7
    } else {
        return None;
    };
    assert(t@.subrange(0, skip as int) == t@.take(skip as int));
    let rest = slice_chars(&t, skip, n);
    assert(rest@ == t@.skip(skip as int));
    let mut e: usize = 0;
    while e < rest.len() && rest[e] != '/' && rest[e] != '?' && rest[e] != '#'
        invariant
            e <= rest.len(),
            host_end(rest@, 0) == host_end(rest@, e as int),
        decreases rest.len() - e,
    {
        e += 1;
    }
    let host = slice_chars(&rest, 0, e);
    assert(host@ == rest@.take(e as int));
    if host.len() == 0 || host[0] == '.' {
        return None;
    }
    let mut i: usize = 0;
    let mut any = false;
    while i < host.len() && !any
        invariant
            i <= host.len(),
            any ==> has_alphanumeric(host@),
            !any ==> forall|k: int| 0 <= k < i ==> !unicode_alphanumeric(#[trigger] host@[k]),
        decreases host.len() - i,
    {
        if is_alphanumeric(host[i]) {
            any = true;
        }
        i += 1;
    }
    if !any {
        return None;
    }
    Some(string_of(&t))
}

// ---------------------------------------------------------------------------
// Headers and event filters
// ---------------------------------------------------------------------------

/// Whether `a` sorts before or equal to `b`, character by character (the
/// order of `str::cmp`, which on UTF-8 is code-point order).
pub open spec fn text_le(a: Seq<char>, b: Seq<char>) -> bool
    decreases a.len(),
{
    if a.len() == 0 {
        true
    } else if b.len() == 0 {
        false
    } else if a[0] != b[0] {
        a[0] < b[0]
    } else {
        text_le(a.drop_first(), b.drop_first())
    }
}

/// The text order is reflexive.
pub proof fn lemma_text_le_refl(a: Seq<char>)
    ensures
        text_le(a, a),
    decreases a.len(),
{
    if a.len() > 0 {
        lemma_text_le_refl(a.drop_first());
    }
}

/// The text order is total.
pub proof fn lemma_text_le_total(a: Seq<char>, b: Seq<char>)
    ensures
        text_le(a, b) || text_le(b, a),
    decreases a.len(),
{
    if a.len() > 0 && b.len() > 0 && a[0] == b[0] {
        lemma_text_le_total(a.drop_first(), b.drop_first());
    }
}

/// The text order is antisymmetric.
pub proof fn lemma_text_le_antisym(a: Seq<char>, b: Seq<char>)
    requires
        text_le(a, b),
        text_le(b, a),
    ensures
        a == b,
    decreases a.len(),
{
    if a.len() == 0 {
        assert(b.len() == 0);
        assert(a =~= b);
    } else {
        lemma_text_le_antisym(a.drop_first(), b.drop_first());
        assert(a =~= b) by {
            assert forall|i: int| 0 <= i < a.len() implies a[i] == b[i] by {
                if i > 0 {
                    assert(a[i] == a.drop_first()[i - 1]);
                    assert(b[i] == b.drop_first()[i - 1]);
                }
            }
        }
    }
}

/// The text order is transitive.
pub proof fn lemma_text_le_trans(a: Seq<char>, b: Seq<char>, c: Seq<char>)
    requires
        text_le(a, b),
        text_le(b, c),
    ensures
        text_le(a, c),
    decreases a.len(),
{
    if a.len() > 0 && a[0] == b[0] && b[0] == c[0] {
        lemma_text_le_trans(a.drop_first(), b.drop_first(), c.drop_first());
    }
}

/// Whether `a` sorts before or equal to `b`.
fn chars_le(a: &Vec<char>, b: &Vec<char>) -> (r: bool)
    ensures
        r == text_le(a@, b@),
{
    let mut i: usize = 0;
    assert(a@.skip(0) == a@ && b@.skip(0) == b@);
    while i < a.len() && i < b.len() && a[i] == b[i]
        invariant
            i <= a.len(),
            i <= b.len(),
            text_le(a@, b@) == text_le(a@.skip(i as int), b@.skip(i as int)),
        decreases a.len() - i,
    {
        assert(a@.skip(i as int).drop_first() == a@.skip(i as int + 1));
        assert(b@.skip(i as int).drop_first() == b@.skip(i as int + 1));
        i += 1;
    }
    if i == a.len() {
        true
    } else if i == b.len() {
        false
    } else {
        assert(a@.skip(i as int)[0] == a@[i as int] && b@.skip(i as int)[0] == b@[i as int]);
        a[i] < b[i]
    }
}

/// A header pair as plain values.
pub type HeaderView = (Seq<char>, Seq<char>);

/// The plain-value view of header pairs.
pub open spec fn header_views(hs: Seq<(String, String)>) -> Seq<HeaderView> {
    hs.map_values(|h: (String, String)| (h.0@, h.1@))
}

/// Where a stable insertion puts a pair with key `k`: after every pair from
/// `i` on whose key sorts before or equal to it.
pub open spec fn insert_at(v: Seq<HeaderView>, k: Seq<char>, i: int) -> int
    decreases v.len() - i,
{
    if i < 0 || i >= v.len() {
        v.len() as int
    } else if !text_le(v[i].0, k) {
        i
    } else {
        insert_at(v, k, i + 1)
    }
}

/// Pairs sorted by key, stably (`sort_by` on the key): each pair in turn is
/// inserted after the pairs already placed whose keys do not sort after it.
pub open spec fn sorted_by_key(s: Seq<HeaderView>) -> Seq<HeaderView>
    decreases s.len(),
{
    if s.len() == 0 {
        seq![]
    } else {
        let v = sorted_by_key(s.drop_last());
        v.insert(insert_at(v, s.last().0, 0), s.last())
    }
}

/// The members of a JSON object whose values are strings, as pairs.
pub open spec fn string_members(ms: Seq<(String, Json)>) -> Seq<HeaderView>
    decreases ms.len(),
{
    if ms.len() == 0 {
        seq![]
    } else {
        let prev = string_members(ms.drop_last());
        match ms.last().1 {
            Json::Str(v) => prev.push((ms.last().0@, v@)),
            _ => prev,
        }
    }
}

/// The headers a JSON object text gives: its string-valued members sorted
/// by name; none when the text is not a JSON object.
pub open spec fn headers_of(raw: Seq<char>) -> Seq<HeaderView> {
    match json_text_value(raw) {
        Some(Json::Object(ms)) => sorted_by_key(string_members(ms@)),
        _ => seq![],
    }
}

/// Insert a pair into headers kept sorted by key, after the equal keys.
fn insert_sorted(v: &mut Vec<(String, String)>, k: String, val: String)
    ensures
        header_views(final(v)@) == header_views(old(v)@).insert(
            insert_at(header_views(old(v)@), k@, 0),
            (k@, val@),
        ),
{
    let ghost hv = header_views(v@);
    let kc = chars_of(k.as_str());
    let mut i: usize = 0;
    while i < v.len() && chars_le(&chars_of(v[i].0.as_str()), &kc)
        invariant
            i <= v.len(),
            hv == header_views(v@),
            insert_at(hv, k@, 0) == insert_at(hv, k@, i as int),
            kc@ == k@,
        decreases v.len() - i,
    {
        i += 1;
    }
    let ghost before = v@;
    v.insert(i, (k, val));
    assert(header_views(v@) =~= header_views(before).insert(i as int, (k@, val@)));
}

/// Parse a JSON object of request headers, ignoring anything that is not a
/// string-to-string pair, sorted by name so a rendered request is
/// byte-stable.
fn parse_headers(raw: &str) -> (r: Vec<(String, String)>)
    ensures
        header_views(r@) == headers_of(raw@),
{
    let ms = match parse_json(raw) {
        Some(Json::Object(ms)) => ms,
        _ => return Vec::new(),
    };
    let mut out: Vec<(String, String)> = Vec::new();
    let mut i: usize = 0;
    while i < ms.len()
        invariant
            i <= ms.len(),
            header_views(out@) == sorted_by_key(string_members(ms@.take(i as int))),
        decreases ms.len() - i,
    {
        assert(ms@.take(i as int + 1).drop_last() == ms@.take(i as int));
        assert(ms@.take(i as int + 1).last() == ms@[i as int]);
        if let Json::Str(v) = &ms[i].1 {
            let ghost sm = string_members(ms@.take(i as int + 1));
            assert(sm.drop_last() == string_members(ms@.take(i as int)));
            insert_sorted(&mut out, ms[i].0.clone(), v.clone());
        }
        i += 1;
    }
    assert(ms@.take(ms@.len() as int) == ms@);
    out
}

/// The recognized event kinds of a filter, first mention kept, and its
/// unrecognized names, from its comma-separated tokens.
pub open spec fn events_fold(ts: Seq<Seq<char>>) -> (Seq<EventKind>, Seq<Seq<char>>)
    decreases ts.len(),
{
    if ts.len() == 0 {
        (seq![], seq![])
    } else {
        let (ks, us) = events_fold(ts.drop_last());
        match event_from_name(ts.last()) {
            Some(k) => if ks.contains(k) {
                (ks, us)
            } else {
                (ks.push(k), us)
            },
            None => (ks, us.push(ts.last())),
        }
    }
}

/// An event filter's `(recognized, unrecognized)` names: its comma-separated
/// tokens, trimmed, blanks skipped.
pub open spec fn events_of(raw: Seq<char>) -> (Seq<EventKind>, Seq<Seq<char>>) {
    events_fold(crate::pipeline::nonblank_trimmed(pieces(raw, ',')))
}

/// The string views of strings.
pub open spec fn string_views(v: Seq<String>) -> Seq<Seq<char>> {
    v.map_values(|s: String| s@)
}

/// Whether `v` lists `k`.
fn has_kind(v: &Vec<EventKind>, k: EventKind) -> (r: bool)
    ensures
        r == v@.contains(k),
{
    let mut i: usize = 0;
    while i < v.len()
        invariant
            i <= v.len(),
            forall|j: int| 0 <= j < i ==> v@[j] != k,
        decreases v.len() - i,
    {
        if v[i] == k {
            return true;
        }
        i += 1;
    }
    false
}

/// Parse a comma-separated event filter into `(recognized, unrecognized)`.
fn parse_events(raw: &str) -> (r: (Vec<EventKind>, Vec<String>))
    ensures
        (r.0@, string_views(r.1@)) == events_of(raw@),
{
    let parts = split_on(&chars_of(raw), ',');
    let ghost ps = parts@.map_values(|w: Vec<char>| w@);
    let mut ts: Vec<Vec<char>> = Vec::new();
    let mut i: usize = 0;
    while i < parts.len()
        invariant
            i <= parts.len(),
            ps == parts@.map_values(|w: Vec<char>| w@),
            ts@.map_values(|w: Vec<char>| w@) == crate::pipeline::nonblank_trimmed(ps.take(i as int)),
        decreases parts.len() - i,
    {
        assert(ps.take(i as int + 1).drop_last() == ps.take(i as int));
        assert(ps.take(i as int + 1).last() == parts@[i as int]@);
        let t = trim_chars(&parts[i]);
        if t.len() > 0 {
            let ghost before = ts@;
            ts.push(t);
            assert(ts@.map_values(|w: Vec<char>| w@) == before.map_values(|w: Vec<char>| w@).push(t@));
        }
        i += 1;
    }
    assert(ps.take(ps.len() as int) == ps);
    let ghost tv = ts@.map_values(|w: Vec<char>| w@);
    let mut kinds: Vec<EventKind> = Vec::new();
    let mut unknown: Vec<String> = Vec::new();
    let mut j: usize = 0;
    while j < ts.len()
        invariant
            j <= ts.len(),
            tv == ts@.map_values(|w: Vec<char>| w@),
            (kinds@, string_views(unknown@)) == events_fold(tv.take(j as int)),
        decreases ts.len() - j,
    {
        assert(tv.take(j as int + 1).drop_last() == tv.take(j as int));
        assert(tv.take(j as int + 1).last() == ts@[j as int]@);
        let token = string_of(&ts[j]);
        match EventKind::from_column(token.as_str()) {
            Some(kind) => {
                if !has_kind(&kinds, kind) {
                    kinds.push(kind);
                }
            },
            None => {
                let ghost before = unknown@;
                unknown.push(token);
                assert(string_views(unknown@) == string_views(before).push(ts@[j as int]@));
            },
        }
        j += 1;
    }
    assert(tv.take(tv.len() as int) == tv);
    (kinds, unknown)
}

/// The plain-value view of a channel configuration.
pub type ChannelView = (Seq<char>, Seq<char>, ChannelKind, Seq<char>, Seq<char>, Seq<HeaderView>,
    NotifyPriority, Seq<EventKind>, Option<NtfyPriority>);

/// The plain-value view of a channel configuration.
pub open spec fn channel_view(c: ChannelConfig) -> ChannelView {
    (c.id@, c.name@, c.kind, c.target@, c.server@, header_views(c.headers@), c.min_priority, c.events@, c.ntfy_priority)
}

/// The configuration a channel Item carries; `None` without a string `id`,
/// with an unrecognized kind, or with an empty target.
pub open spec fn channel_config_of(item: Json) -> Option<ChannelView> {
    match item_text(item, "id"@) {
        None => None,
        Some(id) => {
            let f = item_fields(item);
            match parse_channel_kind(field_text(f, FIELD_CHANNEL_KIND@)) {
                None => None,
                Some(kind) => {
                    let target = field_text(f, FIELD_CHANNEL_TARGET@);
                    if target.len() == 0 {
                        None
                    } else {
                        Some(
                            (
                                id,
                                match item_text(item, "title"@) {
                                    Some(t) => t,
                                    None => seq![],
                                },
                                kind,
                                target,
                                field_text(f, FIELD_CHANNEL_SERVER@),
                                headers_of(field_text(f, FIELD_CHANNEL_HEADERS@)),
                                parse_priority(field_text(f, FIELD_CHANNEL_MIN_PRIORITY@)),
                                events_of(field_text(f, FIELD_CHANNEL_EVENTS@)).0,
                                parse_ntfy(field_text(f, FIELD_CHANNEL_NTFY_PRIORITY@)),
                            ),
                        )
                    }
                },
            }
        },
    }
}

/// Parse a notification channel Item into its configuration; `None` on the
/// same terms as `parse_feed`, and when the channel cannot address anything
/// (an unrecognized kind or an empty target).
pub fn parse_channel(item: &Json) -> (r: Option<ChannelConfig>)
    ensures
        match r {
            Some(c) => channel_config_of(*item) == Some(channel_view(c)),
            None => channel_config_of(*item) is None,
        },
{
    let id = match item_str(item, "id") {
        Some(id) => id,
        None => return None,
    };
    let fields = field_of(Some(item), "fields");
    let kind = match ChannelKind::parse(field_str(fields, FIELD_CHANNEL_KIND).as_str()) {
        Some(k) => k,
        None => return None,
    };
    let target = field_str(fields, FIELD_CHANNEL_TARGET);
    if target.as_str().is_empty() {
        return None;
    }
    let name = match item_str(item, "title") {
        Some(t) => t,
        None => String::new(),
    };
    let (events, _unknown) = parse_events(field_str(fields, FIELD_CHANNEL_EVENTS).as_str());
    Some(ChannelConfig {
        id,
        name,
        kind,
        target,
        server: field_str(fields, FIELD_CHANNEL_SERVER),
        headers: parse_headers(field_str(fields, FIELD_CHANNEL_HEADERS).as_str()),
        min_priority: NotifyPriority::parse(field_str(fields, FIELD_CHANNEL_MIN_PRIORITY).as_str()),
        events,
        ntfy_priority: NtfyPriority::parse(field_str(fields, FIELD_CHANNEL_NTFY_PRIORITY).as_str()),
    })
}

// ---------------------------------------------------------------------------
// Coercion
// ---------------------------------------------------------------------------

/// A note when `cond` holds, else none.
pub open spec fn note_if(cond: bool, text: Seq<char>) -> Seq<Seq<char>> {
    if cond {
        seq![text]
    } else {
        seq![]
    }
}

/// The string views of character vectors.
pub open spec fn char_views(v: Seq<Vec<char>>) -> Seq<Seq<char>> {
    v.map_values(|w: Vec<char>| w@)
}

/// Append a note.
fn push_note(notes: &mut Vec<Vec<char>>, note: Vec<char>)
    ensures
        char_views(final(notes)@) == char_views(old(notes)@).push(note@),
{
    let ghost before = notes@;
    notes.push(note);
    assert(char_views(notes@) == char_views(before).push(note@));
}

/// The notes joined by single spaces.
fn join_notes(notes: &Vec<Vec<char>>) -> (r: String)
    ensures
        r@ == join(char_views(notes@), " "@),
{
    let joined = join_first(notes, notes.len(), &chars_of(" "));
    assert(char_views(notes@).take(notes@.len() as int) == char_views(notes@));
    string_of(&joined)
}

/// `a`, `b` and `c` one after the other.
fn concat3(a: &str, b: &Vec<char>, c: &str) -> (r: Vec<char>)
    ensures
        r@ == a@ + b@ + c@,
{
    let mut out = chars_of(a);
    push_all(&mut out, b);
    push_all(&mut out, &chars_of(c));
    out
}

/// The decimal numeral of an `i64`.
pub open spec fn int_text(v: i64) -> Seq<char> {
    padded_int(v as int, 0)
}

/// What a presave coercion decided about one feed edit.
#[derive(Debug, Clone, PartialEq, Eq)]
pub struct FeedCoercion {
    /// The URL to persist (normalized), or empty when it was unusable.
    pub url: String,
    /// The interval to persist.
    pub interval_seconds: i64,
    /// Whether the feed must be force-unpublished because its configuration
    /// cannot be fetched.
    pub disable: bool,
    /// Human-readable account of what changed; empty when nothing was.
    pub note: String,
}

/// The note for an unusable feed URL.
pub open spec fn bad_feed_url_note(raw: Seq<char>) -> Seq<char> {
    "URL "@ + debug_str_text(raw)
        + " is not an absolute http(s) URL, so this feed was unpublished. Fix the URL and publish it again."@
}

/// The note for a clamped fetch interval.
pub open spec fn interval_clamped_note(v: i64, clamped: i64) -> Seq<char> {
    "Fetch interval "@ + int_text(v) + "s is outside 300s..=604800s, so it was clamped to "@
        + int_text(clamped) + "s."@
}

/// What coercing a feed's fields decides: the normalized URL (empty when
/// unusable), the clamped interval (the default when unset), whether to
/// disable the feed (exactly when the URL is unusable), and the notes on the
/// URL, the interval and a missing topic, joined by spaces.
pub open spec fn feed_coercion_of(fields: Json) -> (Seq<char>, i64, bool, Seq<char>) {
    let f = Some(fields);
    let raw_url = field_text(f, FIELD_URL@);
    let raw_interval = field_int(f, FIELD_FETCH_INTERVAL@);
    let interval = clamped_interval(
        match raw_interval {
            Some(v) => v,
            None => DEFAULT_FETCH_INTERVAL_SECONDS,
        },
    );
    let url_notes = match normalized_url(raw_url) {
        Some(u) => note_if(u != raw_url, "URL was trimmed."@),
        None => seq![bad_feed_url_note(raw_url)],
    };
    let interval_notes = match raw_interval {
        None => seq!["Fetch interval was unset, so it defaults to 900s."@],
        Some(v) => note_if(v != interval, interval_clamped_note(v, interval)),
    };
    let topic_notes = note_if(
        field_text(f, FIELD_TOPIC@).len() == 0,
        "No topic is set, so articles from this feed cannot be scored."@,
    );
    (
        match normalized_url(raw_url) {
            Some(u) => u,
            None => seq![],
        },
        interval,
        normalized_url(raw_url) is None,
        join(url_notes + interval_notes + topic_notes, " "@),
    )
}

/// Coerce a feed's submitted fields into a fetchable configuration, every
/// adjustment reported in the note.
pub fn coerce_feed(fields: &Json) -> (r: FeedCoercion)
    ensures
        feed_coercion_of(*fields) == (r.url@, r.interval_seconds, r.disable, r.note@),
{
    let f = Some(fields);
    let mut notes: Vec<Vec<char>> = Vec::new();
    let raw_url = field_str(f, FIELD_URL);
    let (url, disable) = match normalize_url(raw_url.as_str()) {
        Some(u) => {
            if !chars_eq(&chars_of(u.as_str()), &chars_of(raw_url.as_str())) {
                push_note(&mut notes, chars_of("URL was trimmed."));
            }
            (u, false)
        },
        None => {
            let q = debug_quoted(raw_url.as_str());
            push_note(
                &mut notes,
                concat3(
                    "URL ",
                    &chars_of(q.as_str()),
                    " is not an absolute http(s) URL, so this feed was unpublished. Fix the URL and publish it again.",
                ),
            );
            (String::new(), true)
        },
    };
    let ghost n1 = char_views(notes@);
    let raw_interval = field_i64(f, FIELD_FETCH_INTERVAL);
    let interval = clamp_interval(
        match raw_interval {
            Some(v) => v,
            None => DEFAULT_FETCH_INTERVAL_SECONDS,
        },
    );
    match raw_interval {
        None => push_note(&mut notes, chars_of("Fetch interval was unset, so it defaults to 900s.")),
        Some(v) => {
            if v != interval {
                let mut t = concat3("Fetch interval ", &i64_to_padded(v, 0), "s is outside 300s..=604800s, so it was clamped to ");
                push_all(&mut t, &i64_to_padded(interval, 0));
                push_all(&mut t, &chars_of("s."));
                push_note(&mut notes, t);
            }
        },
    }
    let ghost n2 = char_views(notes@);
    if field_str(f, FIELD_TOPIC).as_str().is_empty() {
        push_note(&mut notes, chars_of("No topic is set, so articles from this feed cannot be scored."));
    }
    proof {
        let spec_f = Some(*fields);
        let raw_i = field_int(spec_f, FIELD_FETCH_INTERVAL@);
        let iv = clamped_interval(match raw_i { Some(v) => v, None => DEFAULT_FETCH_INTERVAL_SECONDS });
        let un = match normalized_url(raw_url@) {
            Some(u) => note_if(u != raw_url@, "URL was trimmed."@),
            None => seq![bad_feed_url_note(raw_url@)],
        };
        let inn = match raw_i {
            None => seq!["Fetch interval was unset, so it defaults to 900s."@],
            Some(v) => note_if(v != iv, interval_clamped_note(v, iv)),
        };
        let tn = note_if(
            field_text(spec_f, FIELD_TOPIC@).len() == 0,
            "No topic is set, so articles from this feed cannot be scored."@,
        );
        assert(n1 == un);
        assert(n2 == un + inn);
        assert(char_views(notes@) == un + inn + tn);
    }
    FeedCoercion { url, interval_seconds: interval, disable, note: join_notes(&notes) }
}

/// What a presave coercion decided about one topic edit.
#[derive(Debug, Clone, PartialEq, Eq)]
pub struct TopicCoercion {
    /// The threshold to persist.
    pub threshold: u8,
    /// The notification priority to persist, normalized to `normal` or `high`.
    pub notify_priority: String,
    /// Account of what changed; empty when nothing was altered.
    pub note: String,
}

/// Whether two strings are equal ignoring ASCII case (`eq_ignore_ascii_case`).
pub open spec fn same_ignoring_case(a: Seq<char>, b: Seq<char>) -> bool {
    ascii_lower_seq(a) == ascii_lower_seq(b)
}

/// Whether two strings are equal ignoring ASCII case (`eq_ignore_ascii_case`).
pub fn eq_ignore_case_pub(a: &str, b: &str) -> (r: bool)
    ensures
        r == same_ignoring_case(a@, b@),
{
    eq_ignore_case(a, b)
}

/// Whether two strings are equal ignoring ASCII case.
fn eq_ignore_case(a: &str, b: &str) -> (r: bool)
    ensures
        r == same_ignoring_case(a@, b@),
{
    chars_eq(&ascii_lowercase(&chars_of(a)), &ascii_lowercase(&chars_of(b)))
}

/// The note for a priority that names neither level.
pub open spec fn priority_note(label: Seq<char>, raw: Seq<char>, read: NotifyPriority) -> Seq<char> {
    label + debug_str_text(raw) + " is not \"normal\" or \"high\", so it was read as "@ + debug_str_text(
        priority_name(read),
    ) + "."@
}

/// What coercing a topic's fields decides: the clamped threshold (the
/// default when unset), the normalized priority, and the notes on the
/// threshold, a missing prompt and an unrecognized priority.
pub open spec fn topic_coercion_of(fields: Json) -> (u8, Seq<char>, Seq<char>) {
    let f = Some(fields);
    let raw = field_int(f, FIELD_RELEVANCE_THRESHOLD@);
    let threshold = clamped_threshold(
        match raw {
            Some(v) => v,
            None => DEFAULT_RELEVANCE_THRESHOLD as i64,
        },
    );
    let threshold_notes = match raw {
        None => seq!["Relevance threshold was unset, so it defaults to 50."@],
        Some(v) => note_if(
            v != threshold as i64,
            "Relevance threshold "@ + int_text(v) + " is outside 0..=100, so it was clamped to "@
                + int_text(threshold as i64) + "."@,
        ),
    };
    let prompt_notes = note_if(
        field_text(f, FIELD_RELEVANCE_PROMPT@).len() == 0,
        "No relevance prompt is set, so every article scores against an empty brief."@,
    );
    let raw_priority = field_text(f, FIELD_TOPIC_PRIORITY@);
    let p = parse_priority(raw_priority);
    let priority_notes = note_if(
        raw_priority.len() > 0 && !same_ignoring_case(raw_priority, priority_name(p)),
        priority_note("Notification priority "@, raw_priority, p),
    );
    (threshold, priority_name(p), join(threshold_notes + prompt_notes + priority_notes, " "@))
}

/// The note for an unrecognized priority.
fn priority_note_text(label: &str, raw: &str, read: NotifyPriority) -> (r: Vec<char>)
    ensures
        r@ == priority_note(label@, raw@, read),
{
    let q = debug_quoted(raw);
    let mut t = concat3(label, &chars_of(q.as_str()), " is not \"normal\" or \"high\", so it was read as ");
    let rq = debug_quoted(read.as_str());
    push_all(&mut t, &chars_of(rq.as_str()));
    push_all(&mut t, &chars_of("."));
    t
}

/// Coerce a topic's submitted fields into a usable configuration.
pub fn coerce_topic(fields: &Json) -> (r: TopicCoercion)
    ensures
        topic_coercion_of(*fields) == (r.threshold, r.notify_priority@, r.note@),
{
    let f = Some(fields);
    let mut notes: Vec<Vec<char>> = Vec::new();
    let raw = field_i64(f, FIELD_RELEVANCE_THRESHOLD);
    let threshold = clamp_threshold(
        match raw {
            Some(v) => v,
            None => DEFAULT_RELEVANCE_THRESHOLD as i64,
        },
    );
    match raw {
        None => push_note(&mut notes, chars_of("Relevance threshold was unset, so it defaults to 50.")),
        Some(v) => {
            if v != threshold as i64 {
                let mut t = concat3("Relevance threshold ", &i64_to_padded(v, 0), " is outside 0..=100, so it was clamped to ");
                push_all(&mut t, &i64_to_padded(threshold as i64, 0));
                push_all(&mut t, &chars_of("."));
                push_note(&mut notes, t);
            }
        },
    }
    let ghost n1 = char_views(notes@);
    if field_str(f, FIELD_RELEVANCE_PROMPT).as_str().is_empty() {
        push_note(
            &mut notes,
            chars_of("No relevance prompt is set, so every article scores against an empty brief."),
        );
    }
    let ghost n2 = char_views(notes@);
    let raw_priority = field_str(f, FIELD_TOPIC_PRIORITY);
    let p = NotifyPriority::parse(raw_priority.as_str());
    if !raw_priority.as_str().is_empty() && !eq_ignore_case(raw_priority.as_str(), p.as_str()) {
        push_note(&mut notes, priority_note_text("Notification priority ", raw_priority.as_str(), p));
    }
    proof {
        let spec_f = Some(*fields);
        let rw = field_int(spec_f, FIELD_RELEVANCE_THRESHOLD@);
        let th = clamped_threshold(match rw { Some(v) => v, None => DEFAULT_RELEVANCE_THRESHOLD as i64 });
        let tn = match rw {
            None => seq!["Relevance threshold was unset, so it defaults to 50."@],
            Some(v) => note_if(
                v != th as i64,
                "Relevance threshold "@ + int_text(v) + " is outside 0..=100, so it was clamped to "@
                    + int_text(th as i64) + "."@,
            ),
        };
        let pn = note_if(
            field_text(spec_f, FIELD_RELEVANCE_PROMPT@).len() == 0,
            "No relevance prompt is set, so every article scores against an empty brief."@,
        );
        assert(n1 == tn);
        assert(n2 == tn + pn);
        let rp = field_text(spec_f, FIELD_TOPIC_PRIORITY@);
        let pp = parse_priority(rp);
        let prn = note_if(
            rp.len() > 0 && !same_ignoring_case(rp, priority_name(pp)),
            priority_note("Notification priority "@, rp, pp),
        );
        assert(rp == raw_priority@);
        assert(char_views(notes@) == tn + pn + prn);
    }
    TopicCoercion {
        threshold,
        notify_priority: p.as_str().to_owned(),
        note: join_notes(&notes),
    }
}

/// What a presave coercion decided about one notification-channel edit.
#[derive(Debug, Clone, PartialEq, Eq)]
pub struct ChannelCoercion {
    /// The normalized kind, or empty when it named none.
    pub kind: String,
    /// The normalized target, or empty when it is unusable for the kind.
    pub target: String,
    /// The normalized ntfy server base, or empty for the default.
    pub server: String,
    /// The headers to persist, re-serialized, or empty.
    pub headers: String,
    /// The normalized priority floor.
    pub min_priority: String,
    /// The event filter, with unrecognized names dropped.
    pub events: String,
    /// The normalized ntfy override, or empty for the default ladder.
    pub ntfy_priority: String,
    /// Account of what changed; empty when nothing was altered.
    pub note: String,
}

/// Header pairs with every pair dropped whose key the next pair repeats, so
/// the last value for a key wins (as building a map does).
pub open spec fn last_per_key(hs: Seq<HeaderView>) -> Seq<HeaderView>
    decreases hs.len(),
{
    if hs.len() == 0 {
        seq![]
    } else {
        let prev = last_per_key(hs.drop_last());
        if prev.len() > 0 && prev.last().0 == hs.last().0 {
            prev.drop_last().push(hs.last())
        } else {
            prev.push(hs.last())
        }
    }
}

/// One header as a JSON object member.
pub open spec fn member_text(h: HeaderView) -> Seq<char> {
    json_quoted(h.0) + seq![':'] + json_quoted(h.1)
}

/// Header pairs as JSON object members separated by commas.
pub open spec fn members_text(hs: Seq<HeaderView>) -> Seq<char>
    decreases hs.len(),
{
    if hs.len() == 0 {
        seq![]
    } else if hs.len() == 1 {
        member_text(hs[0])
    } else {
        members_text(hs.drop_last()) + seq![','] + member_text(hs.last())
    }
}

/// Sorted header pairs written as a compact JSON object of strings.
pub open spec fn headers_json(hs: Seq<HeaderView>) -> Seq<char> {
    seq!['{'] + members_text(last_per_key(hs)) + seq!['}']
}

/// Write header pairs as a compact JSON object of strings.
fn write_headers(hs: &Vec<(String, String)>) -> (r: Vec<char>)
    ensures
        r@ == headers_json(header_views(hs@)),
{
    let ghost hv = header_views(hs@);
    let mut kept: Vec<(String, String)> = Vec::new();
    let mut i: usize = 0;
    while i < hs.len()
        invariant
            i <= hs.len(),
            hv == header_views(hs@),
            header_views(kept@) == last_per_key(hv.take(i as int)),
        decreases hs.len() - i,
    {
        assert(hv.take(i as int + 1).drop_last() == hv.take(i as int));
        assert(hv.take(i as int + 1).last() == (hs@[i as int].0@, hs@[i as int].1@));
        let n = kept.len();
        if n > 0 && str_same(kept[n - 1].0.as_str(), hs[i].0.as_str()) {
            let ghost before = kept@;
            kept.pop();
            assert(header_views(kept@) == header_views(before).drop_last());
        }
        let ghost before2 = kept@;
        kept.push((hs[i].0.clone(), hs[i].1.clone()));
        assert(header_views(kept@) == header_views(before2).push((hs@[i as int].0@, hs@[i as int].1@)));
        i += 1;
    }
    assert(hv.take(hv.len() as int) == hv);
    let ghost kv = header_views(kept@);
    let mut out: Vec<char> = Vec::new();
    out.push('{');
    let mut j: usize = 0;
    while j < kept.len()
        invariant
            j <= kept.len(),
            kv == header_views(kept@),
            out@ == seq!['{'] + members_text(kv.take(j as int)),
        decreases kept.len() - j,
    {
        assert(kv.take(j as int + 1).drop_last() == kv.take(j as int));
        assert(kv.take(j as int + 1).last() == (kept@[j as int].0@, kept@[j as int].1@));
        if j > 0 {
            out.push(',');
        }
        push_json_quoted(&mut out, &chars_of(kept[j].0.as_str()));
        out.push(':');
        push_json_quoted(&mut out, &chars_of(kept[j].1.as_str()));
        if j == 0 {
            assert(kv.take(1)[0] == kv[0]);
        }
        j += 1;
    }
    assert(kv.take(kv.len() as int) == kv);
    out.push('}');
    out
}

/// String equality.
fn str_same(a: &str, b: &str) -> (r: bool)
    ensures
        r == (a@ == b@),
{
    crate::text::str_eq(a, b)
}

/// The legal channel kinds, as the note lists them.
pub open spec fn legal_kinds_text() -> Seq<char> {
    "ntfy, slack, webhook"@
}

/// The legal event names, as the note lists them.
pub open spec fn legal_events_text() -> Seq<char> {
    "story.new, story.updated, story.digest, alert.feed_failing, alert.budget_threshold, alert.queue_stuck"@
}

/// Event kinds as their column values separated by commas.
pub open spec fn events_text(ks: Seq<EventKind>) -> Seq<char> {
    join(event_names(ks), ","@)
}

/// The kind a channel's fields name, and the note when they name none.
pub open spec fn kind_part(f: Option<Json>) -> (Option<ChannelKind>, Seq<Seq<char>>) {
    let raw = field_text(f, FIELD_CHANNEL_KIND@);
    let kind = parse_channel_kind(raw);
    (
        kind,
        note_if(
            kind is None,
            "Kind "@ + debug_str_text(raw) + " is not one of "@ + legal_kinds_text()
                + ", so this channel will not be used."@,
        ),
    )
}

/// The target for a channel of `kind`: an ntfy topic with no `/` or `:`,
/// else a normalized URL, else empty with a note.
pub open spec fn target_part(f: Option<Json>, kind: Option<ChannelKind>) -> (Seq<char>, Seq<Seq<char>>) {
    let raw = field_text(f, FIELD_CHANNEL_TARGET@);
    match kind {
        Some(ChannelKind::Ntfy) => if raw.contains('/') || raw.contains(':') {
            (
                seq![],
                seq![
                    "ntfy target "@ + debug_str_text(raw)
                        + " looks like a URL. Put the server in the server field and only the topic name here; this channel will not be used."@,
                ],
            )
        } else {
            (raw, seq![])
        },
        Some(_) => match normalized_url(raw) {
            Some(u) => (u, seq![]),
            None => (
                seq![],
                seq![
                    "Target "@ + debug_str_text(raw)
                        + " is not an absolute http(s) URL, so this channel will not be used."@,
                ],
            ),
        },
        None => (seq![], seq![]),
    }
}

/// The normalized ntfy server (empty when blank, or unusable with a note).
pub open spec fn server_part(f: Option<Json>) -> (Seq<char>, Seq<Seq<char>>) {
    let raw = field_text(f, FIELD_CHANNEL_SERVER@);
    if raw.len() == 0 {
        (seq![], seq![])
    } else {
        match normalized_url(raw) {
            Some(u) => (u, seq![]),
            None => (
                seq![],
                seq![
                    "Server "@ + debug_str_text(raw)
                        + " is not an absolute http(s) URL, so the default ntfy server is used instead."@,
                ],
            ),
        }
    }
}

/// The headers re-serialized (empty when blank, or when not an object of
/// strings, with a note).
pub open spec fn headers_part(f: Option<Json>) -> (Seq<char>, Seq<Seq<char>>) {
    let raw = field_text(f, FIELD_CHANNEL_HEADERS@);
    let parsed = headers_of(raw);
    if raw.len() == 0 {
        (seq![], seq![])
    } else if parsed.len() == 0 {
        (seq![], seq!["Headers must be a JSON object of string values, so they were cleared."@])
    } else {
        (headers_json(parsed), seq![])
    }
}

/// The priority floor, and a note when it was not spelled as one.
pub open spec fn min_part(f: Option<Json>) -> (NotifyPriority, Seq<Seq<char>>) {
    let raw = field_text(f, FIELD_CHANNEL_MIN_PRIORITY@);
    let min = parse_priority(raw);
    (
        min,
        note_if(
            raw.len() > 0 && !same_ignoring_case(raw, priority_name(min)),
            priority_note("Minimum priority "@, raw, min),
        ),
    )
}

/// The recognized events as text, and a note naming the dropped ones.
pub open spec fn events_part(f: Option<Json>) -> (Seq<char>, Seq<Seq<char>>) {
    let (kinds, unknown) = events_of(field_text(f, FIELD_CHANNEL_EVENTS@));
    (
        events_text(kinds),
        note_if(
            unknown.len() > 0,
            "Dropped unrecognized event name(s) "@ + join(unknown, ", "@) + ". Legal names are "@
                + legal_events_text() + "."@,
        ),
    )
}

/// The ntfy override's name (empty when none), and a note when it names no
/// level.
pub open spec fn ntfy_part(f: Option<Json>) -> (Seq<char>, Seq<Seq<char>>) {
    let raw = field_text(f, FIELD_CHANNEL_NTFY_PRIORITY@);
    match parse_ntfy(raw) {
        Some(p) => (ntfy_name(p), seq![]),
        None => (
            seq![],
            note_if(
                raw.len() > 0,
                "ntfy priority "@ + debug_str_text(raw)
                    + " is not one of min, low, default, high, urgent, so the default mapping is used."@,
            ),
        ),
    }
}

/// What coercing a channel's fields decides, as `(kind, target, server,
/// headers, min_priority, events, ntfy_priority, note)`: the normalized kind
/// (empty when unrecognized), target, server, headers, priority floor,
/// recognized events and ntfy override, and a note for every adjustment,
/// in that order, joined by spaces.
pub open spec fn channel_coercion_of(fields: Json) -> (Seq<char>, Seq<char>, Seq<char>, Seq<char>, Seq<char>, Seq<char>, Seq<char>, Seq<char>) {
    let f = Some(fields);
    let k = kind_part(f);
    let t = target_part(f, k.0);
    let sv = server_part(f);
    let h = headers_part(f);
    let m = min_part(f);
    let e = events_part(f);
    let n = ntfy_part(f);
    (
        match k.0 {
            Some(kind) => channel_kind_name(kind),
            None => seq![],
        },
        t.0,
        sv.0,
        h.0,
        priority_name(m.0),
        e.0,
        n.0,
        join(k.1 + t.1 + sv.1 + h.1 + m.1 + e.1 + n.1, " "@),
    )
}

/// Whether `s` holds the character `c`.
fn has_char(s: &Vec<char>, c: char) -> (r: bool)
    ensures
        r == s@.contains(c),
{
    let mut i: usize = 0;
    while i < s.len()
        invariant
            i <= s.len(),
            forall|k: int| 0 <= k < i ==> s@[k] != c,
        decreases s.len() - i,
    {
        if s[i] == c {
            assert(s@[i as int] == c);
            return true;
        }
        i += 1;
    }
    false
}

/// The channel kind, noting an unrecognized one.
fn coerce_kind(f: Option<&Json>, notes: &mut Vec<Vec<char>>) -> (r: Option<ChannelKind>)
    ensures
        r == kind_part(deref_opt(f)).0,
        char_views(final(notes)@) == char_views(old(notes)@) + kind_part(deref_opt(f)).1,
{
    let raw = field_str(f, FIELD_CHANNEL_KIND);
    let kind = ChannelKind::parse(raw.as_str());
    if kind.is_none() {
        let q = debug_quoted(raw.as_str());
        let mut t = concat3("Kind ", &chars_of(q.as_str()), " is not one of ");
        push_all(&mut t, &chars_of("ntfy, slack, webhook"));
        push_all(&mut t, &chars_of(", so this channel will not be used."));
        push_note(notes, t);
    } else {
        assert(char_views(notes@) == char_views(notes@) + Seq::<Seq<char>>::empty());
    }
    kind
}

/// The channel target, noting an unusable one.
fn coerce_target(f: Option<&Json>, kind: Option<ChannelKind>, notes: &mut Vec<Vec<char>>) -> (r: String)
    ensures
        r@ == target_part(deref_opt(f), kind).0,
        char_views(final(notes)@) == char_views(old(notes)@) + target_part(deref_opt(f), kind).1,
{
    let raw = field_str(f, FIELD_CHANNEL_TARGET);
    let rc = chars_of(raw.as_str());
    assert(char_views(notes@) == char_views(notes@) + Seq::<Seq<char>>::empty());
    match kind {
        Some(ChannelKind::Ntfy) => {
            if has_char(&rc, '/') || has_char(&rc, ':') {
                let q = debug_quoted(raw.as_str());
                push_note(
                    notes,
                    concat3(
                        "ntfy target ",
                        &chars_of(q.as_str()),
                        " looks like a URL. Put the server in the server field and only the topic name here; this channel will not be used.",
                    ),
                );
                String::new()
            } else {
                raw
            }
        },
        Some(_) => match normalize_url(raw.as_str()) {
            Some(u) => u,
            None => {
                let q = debug_quoted(raw.as_str());
                push_note(
                    notes,
                    concat3(
                        "Target ",
                        &chars_of(q.as_str()),
                        " is not an absolute http(s) URL, so this channel will not be used.",
                    ),
                );
                String::new()
            },
        },
        None => String::new(),
    }
}

/// The ntfy server, noting an unusable one.
fn coerce_server(f: Option<&Json>, notes: &mut Vec<Vec<char>>) -> (r: String)
    ensures
        r@ == server_part(deref_opt(f)).0,
        char_views(final(notes)@) == char_views(old(notes)@) + server_part(deref_opt(f)).1,
{
    let raw = field_str(f, FIELD_CHANNEL_SERVER);
    assert(char_views(notes@) == char_views(notes@) + Seq::<Seq<char>>::empty());
    if raw.as_str().is_empty() {
        String::new()
    } else {
        match normalize_url(raw.as_str()) {
            Some(u) => u,
            None => {
                let q = debug_quoted(raw.as_str());
                push_note(
                    notes,
                    concat3(
                        "Server ",
                        &chars_of(q.as_str()),
                        " is not an absolute http(s) URL, so the default ntfy server is used instead.",
                    ),
                );
                String::new()
            },
        }
    }
}

/// The headers re-serialized, noting unusable ones.
fn coerce_headers(f: Option<&Json>, notes: &mut Vec<Vec<char>>) -> (r: String)
    ensures
        r@ == headers_part(deref_opt(f)).0,
        char_views(final(notes)@) == char_views(old(notes)@) + headers_part(deref_opt(f)).1,
{
    let raw = field_str(f, FIELD_CHANNEL_HEADERS);
    assert(char_views(notes@) == char_views(notes@) + Seq::<Seq<char>>::empty());
    if raw.as_str().is_empty() {
        String::new()
    } else {
        let parsed = parse_headers(raw.as_str());
        if parsed.len() == 0 {
            push_note(notes, chars_of("Headers must be a JSON object of string values, so they were cleared."));
            String::new()
        } else {
            string_of(&write_headers(&parsed))
        }
    }
}

/// The priority floor, noting one not spelled as a priority.
fn coerce_min(f: Option<&Json>, notes: &mut Vec<Vec<char>>) -> (r: NotifyPriority)
    ensures
        r == min_part(deref_opt(f)).0,
        char_views(final(notes)@) == char_views(old(notes)@) + min_part(deref_opt(f)).1,
{
    let raw = field_str(f, FIELD_CHANNEL_MIN_PRIORITY);
    let min = NotifyPriority::parse(raw.as_str());
    assert(char_views(notes@) == char_views(notes@) + Seq::<Seq<char>>::empty());
    if !raw.as_str().is_empty() && !eq_ignore_case(raw.as_str(), min.as_str()) {
        push_note(notes, priority_note_text("Minimum priority ", raw.as_str(), min));
    }
    min
}

/// The recognized events as text, noting dropped names.
fn coerce_events(f: Option<&Json>, notes: &mut Vec<Vec<char>>) -> (r: String)
    ensures
        r@ == events_part(deref_opt(f)).0,
        char_views(final(notes)@) == char_views(old(notes)@) + events_part(deref_opt(f)).1,
{
    let (kinds, unknown) = parse_events(field_str(f, FIELD_CHANNEL_EVENTS).as_str());
    assert(char_views(notes@) == char_views(notes@) + Seq::<Seq<char>>::empty());
    if unknown.len() > 0 {
        let mut uv: Vec<Vec<char>> = Vec::new();
        let mut i: usize = 0;
        while i < unknown.len()
            invariant
                i <= unknown.len(),
                char_views(uv@) == string_views(unknown@).take(i as int),
            decreases unknown.len() - i,
        {
            let ghost before = uv@;
            uv.push(chars_of(unknown[i].as_str()));
            assert(char_views(uv@) == char_views(before).push(unknown@[i as int]@));
            assert(string_views(unknown@).take(i as int + 1) == string_views(unknown@).take(i as int).push(
                unknown@[i as int]@,
            ));
            i += 1;
        }
        assert(string_views(unknown@).take(unknown@.len() as int) == string_views(unknown@));
        let listed = join_first(&uv, uv.len(), &chars_of(", "));
        assert(char_views(uv@).take(uv@.len() as int) == char_views(uv@));
        let mut t = concat3("Dropped unrecognized event name(s) ", &listed, ". Legal names are ");
        push_all(
            &mut t,
            &chars_of(
                "story.new, story.updated, story.digest, alert.feed_failing, alert.budget_threshold, alert.queue_stuck",
            ),
        );
        push_all(&mut t, &chars_of("."));
        push_note(notes, t);
    }
    let mut ev: Vec<Vec<char>> = Vec::new();
    let mut i: usize = 0;
    while i < kinds.len()
        invariant
            i <= kinds.len(),
            char_views(ev@) == kinds@.map_values(|k: EventKind| event_name(k)).take(i as int),
        decreases kinds.len() - i,
    {
        let ghost before = ev@;
        ev.push(chars_of(kinds[i].as_str()));
        assert(char_views(ev@) == char_views(before).push(event_name(kinds@[i as int])));
        assert(kinds@.map_values(|k: EventKind| event_name(k)).take(i as int + 1) == kinds@.map_values(
            |k: EventKind| event_name(k),
        ).take(i as int).push(event_name(kinds@[i as int])));
        i += 1;
    }
    assert(kinds@.map_values(|k: EventKind| event_name(k)).take(kinds@.len() as int) == kinds@.map_values(
        |k: EventKind| event_name(k),
    ));
    let joined = join_first(&ev, ev.len(), &chars_of(","));
    assert(char_views(ev@).take(ev@.len() as int) == char_views(ev@));
    string_of(&joined)
}

/// The ntfy override's name, noting one that names no level.
fn coerce_ntfy(f: Option<&Json>, notes: &mut Vec<Vec<char>>) -> (r: String)
    ensures
        r@ == ntfy_part(deref_opt(f)).0,
        char_views(final(notes)@) == char_views(old(notes)@) + ntfy_part(deref_opt(f)).1,
{
    let raw = field_str(f, FIELD_CHANNEL_NTFY_PRIORITY);
    assert(char_views(notes@) == char_views(notes@) + Seq::<Seq<char>>::empty());
    match NtfyPriority::parse(raw.as_str()) {
        Some(p) => p.as_str().to_owned(),
        None => {
            if !raw.as_str().is_empty() {
                let q = debug_quoted(raw.as_str());
                push_note(
                    notes,
                    concat3(
                        "ntfy priority ",
                        &chars_of(q.as_str()),
                        " is not one of min, low, default, high, urgent, so the default mapping is used.",
                    ),
                );
            }
            String::new()
        },
    }
}

/// Coerce a notification channel's submitted fields into a usable
/// configuration: anything unusable is blanked, with the reason written
/// where the administrator will read it.
pub fn coerce_channel(fields: &Json) -> (r: ChannelCoercion)
    ensures
        channel_coercion_of(*fields) == (
            r.kind@,
            r.target@,
            r.server@,
            r.headers@,
            r.min_priority@,
            r.events@,
            r.ntfy_priority@,
            r.note@,
        ),
{
    let f = Some(fields);
    let mut notes: Vec<Vec<char>> = Vec::new();
    assert(char_views(notes@) == Seq::<Seq<char>>::empty());
    let kind = coerce_kind(f, &mut notes);
    let target = coerce_target(f, kind, &mut notes);
    let server = coerce_server(f, &mut notes);
    let headers = coerce_headers(f, &mut notes);
    let min = coerce_min(f, &mut notes);
    let events = coerce_events(f, &mut notes);
    let ntfy_priority = coerce_ntfy(f, &mut notes);
    let kind_text: String = match kind {
        Some(k) => k.as_str().to_owned(),
        None => String::new(),
    };
    ChannelCoercion {
        kind: kind_text,
        target,
        server,
        headers,
        min_priority: min.as_str().to_owned(),
        events,
        ntfy_priority,
        note: join_notes(&notes),
    }
}


// ---------------------------------------------------------------------------
// What presave writes, the loader reads
// ---------------------------------------------------------------------------

/// The kinds a filter recognizes are listed once each.
proof fn lemma_events_fold_distinct(ts: Seq<Seq<char>>)
    ensures
        forall|i: int, j: int|
            0 <= i < j < events_fold(ts).0.len() ==> events_fold(ts).0[i] != events_fold(ts).0[j],
    decreases ts.len(),
{
    if ts.len() > 0 {
        lemma_events_fold_distinct(ts.drop_last());
        let ks = events_fold(ts.drop_last()).0;
        match event_from_name(ts.last()) {
            Some(k) => {
                if !ks.contains(k) {
                    assert forall|i: int, j: int| 0 <= i < j < ks.push(k).len() implies ks.push(k)[i] != ks.push(
                        k,
                    )[j] by {
                        if j == ks.len() {
                            assert(ks.push(k)[i] == ks[i]);
                        }
                    }
                }
            },
            None => {},
        }
    }
}

/// The names of a list of kinds.
pub open spec fn event_names(ks: Seq<EventKind>) -> Seq<Seq<char>> {
    ks.map_values(|k: EventKind| event_name(k))
}

/// Trimmed, non-blank words survive the blank filter unchanged.
proof fn lemma_nonblank_kept(ws: Seq<Seq<char>>)
    requires
        forall|i: int| 0 <= i < ws.len() ==> (#[trigger] ws[i]).len() > 0 && trim(ws[i]) == ws[i],
    ensures
        crate::pipeline::nonblank_trimmed(ws) == ws,
    decreases ws.len(),
{
    if ws.len() > 0 {
        lemma_nonblank_kept(ws.drop_last());
        assert(ws.drop_last().push(ws.last()) =~= ws);
    }
}

/// The names of distinct kinds fold back into those kinds, none unknown.
proof fn lemma_fold_names(ks: Seq<EventKind>)
    requires
        forall|i: int, j: int| 0 <= i < j < ks.len() ==> ks[i] != ks[j],
    ensures
        events_fold(event_names(ks)) == (ks, Seq::<Seq<char>>::empty()),
    decreases ks.len(),
{
    if ks.len() > 0 {
        let init = ks.drop_last();
        lemma_fold_names(init);
        assert(event_names(ks).drop_last() =~= event_names(init));
        lemma_event_kind_round_trip(ks.last());
        assert(!init.contains(ks.last())) by {
            if init.contains(ks.last()) {
                let i = choose|i: int| 0 <= i < init.len() && init[i] == ks.last();
                assert(ks[i] == ks[ks.len() - 1]);
            }
        }
        assert(init.push(ks.last()) =~= ks);
    }
}

/// A list of distinct kinds written as an event filter reads back as
/// itself.
pub proof fn lemma_events_text_reads_back(ks: Seq<EventKind>)
    requires
        forall|i: int, j: int| 0 <= i < j < ks.len() ==> ks[i] != ks[j],
    ensures
        events_of(events_text(ks)).0 == ks,
{
    reveal_strlit(",");
    let names = event_names(ks);
    assert(","@ =~= seq![',']);
    assert(events_text(ks) == join(names, seq![',']));
    assert forall|i: int| 0 <= i < names.len() implies (#[trigger] names[i]).len() > 0 && trim(names[i])
        == names[i] && !names[i].contains(',') by {
        lemma_event_kind_round_trip(ks[i]);
    }
    if ks.len() == 0 {
        assert(join(names, seq![',']) == Seq::<char>::empty());
        assert(pieces(Seq::<char>::empty(), ',') == seq![Seq::<char>::empty()]);
        let e = Seq::<char>::empty();
        let p = seq![e];
        assert(p.drop_last() =~= Seq::<Seq<char>>::empty());
        assert(crate::pipeline::nonblank_trimmed(p.drop_last()) == Seq::<Seq<char>>::empty());
        assert(p.last() == e);
        assert(trim(e).len() == 0);
        assert(crate::pipeline::nonblank_trimmed(p) =~= Seq::<Seq<char>>::empty());
        assert(events_fold(Seq::<Seq<char>>::empty()).0 =~= ks);
    } else {
        lemma_split_join(names, ',');
        lemma_nonblank_kept(names);
        lemma_fold_names(ks);
    }
}

/// The channel fields presave writes back: each field holds the coerced
/// text.
pub open spec fn holds_coerced(item: Json, fields: Json) -> bool {
    let c = channel_coercion_of(fields);
    let f = item_fields(item);
    &&& json_str(field(f, FIELD_CHANNEL_KIND@)) == Some(c.0)
    &&& json_str(field(f, FIELD_CHANNEL_TARGET@)) == Some(c.1)
    &&& json_str(field(f, FIELD_CHANNEL_SERVER@)) == Some(c.2)
    &&& json_str(field(f, FIELD_CHANNEL_MIN_PRIORITY@)) == Some(c.4)
    &&& json_str(field(f, FIELD_CHANNEL_EVENTS@)) == Some(c.5)
    &&& json_str(field(f, FIELD_CHANNEL_NTFY_PRIORITY@)) == Some(c.6)
}

/// What presave writes is what the loader reads: a channel whose coerced
/// kind and target are not blank, saved with its coerced fields (and any
/// string id), loads as a channel of the kind, target, server, priority
/// floor, event filter and ntfy override that the raw fields meant.
pub proof fn law_coerced_channel_loads(fields: Json, item: Json)
    requires
        item_text(item, "id"@) is Some,
        holds_coerced(item, fields),
        channel_coercion_of(fields).0.len() > 0,
        channel_coercion_of(fields).1.len() > 0,
    ensures
        channel_config_of(item) matches Some(v) && {
            let f = Some(fields);
            &&& Some(v.2) == kind_part(f).0
            &&& v.3 == channel_coercion_of(fields).1
            &&& v.4 == channel_coercion_of(fields).2
            &&& v.6 == min_part(f).0
            &&& v.7 == events_of(field_text(f, FIELD_CHANNEL_EVENTS@)).0
            &&& v.8 == parse_ntfy(field_text(f, FIELD_CHANNEL_NTFY_PRIORITY@))
        },
{
    let f = Some(fields);
    let g = item_fields(item);
    let c = channel_coercion_of(fields);
    let kind = kind_part(f).0->0;
    lemma_channel_kind_round_trip(kind);
    assert(field_text(g, FIELD_CHANNEL_KIND@) == channel_kind_name(kind));
    // the target: a trimmed topic, or a URL that normalizing already trimmed
    let raw_target = field_text(f, FIELD_CHANNEL_TARGET@);
    lemma_trim_idempotent(field_text(f, FIELD_CHANNEL_TARGET@));
    if let Some(t) = json_str(field(f, FIELD_CHANNEL_TARGET@)) {
        lemma_trim_idempotent(t);
        lemma_trim_idempotent(trim(t));
    }
    assert(field_text(g, FIELD_CHANNEL_TARGET@) == c.1);
    // the server
    if let Some(t) = json_str(field(f, FIELD_CHANNEL_SERVER@)) {
        lemma_trim_idempotent(t);
        lemma_trim_idempotent(trim(t));
    }
    assert(field_text(g, FIELD_CHANNEL_SERVER@) == c.2);
    // the priority floor
    lemma_priority_round_trip(min_part(f).0);
    assert(field_text(g, FIELD_CHANNEL_MIN_PRIORITY@) == priority_name(min_part(f).0));
    // the event filter
    let ks = events_of(field_text(f, FIELD_CHANNEL_EVENTS@)).0;
    lemma_events_fold_distinct(crate::pipeline::nonblank_trimmed(pieces(field_text(f, FIELD_CHANNEL_EVENTS@), ',')));
    lemma_events_text_reads_back(ks);
    assert(trim(events_text(ks)) == events_text(ks)) by {
        let names = event_names(ks);
        assert forall|i: int| 0 <= i < names.len() implies (#[trigger] names[i]).len() > 0 && trim(names[i])
            == names[i] by {
            lemma_event_kind_round_trip(ks[i]);
        }
        lemma_join_trimmed(names);
    }
    // the ntfy override
    match parse_ntfy(field_text(f, FIELD_CHANNEL_NTFY_PRIORITY@)) {
        Some(p) => {
            lemma_ntfy_round_trip(p);
        },
        None => {
            assert(trim(Seq::<char>::empty()) =~= Seq::<char>::empty());
            reveal_strlit("min");
            reveal_strlit("low");
            reveal_strlit("default");
            reveal_strlit("high");
            reveal_strlit("urgent");
            reveal_strlit("max");
            reveal_strlit("1");
            reveal_strlit("2");
            reveal_strlit("3");
            reveal_strlit("4");
            reveal_strlit("5");
            assert(crate::notify::folded(Seq::<char>::empty()) =~= Seq::<char>::empty());
        },
    }
}

/// Trimmed non-blank words joined by commas need no trimming.
proof fn lemma_join_trimmed(ws: Seq<Seq<char>>)
    requires
        forall|i: int| 0 <= i < ws.len() ==> (#[trigger] ws[i]).len() > 0 && trim(ws[i]) == ws[i],
    ensures
        trim(join(ws, ","@)) == join(ws, ","@),
{
    reveal_strlit(",");
    if ws.len() > 0 {
        lemma_join_ends(ws, ","@);
        lemma_trimmed_ends(ws[0]);
        lemma_trimmed_ends(ws.last());
    }
    lemma_trim_fixed(join(ws, ","@));
}

} // verus!
