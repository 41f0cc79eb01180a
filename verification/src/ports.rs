//! Injected ports: the boundary between pure pipeline logic and the host.
//!
//! Every side effect the pipeline needs — fetching a feed, reading and writing
//! article state, enqueuing the next stage — is a trait here, implemented by
//! the embedding application over its host and by the tests over in-memory
//! fakes. Nothing here names a host function.

use vstd::prelude::*;
use crate::error::CoreResult;
use crate::model::{PipelineState, Stage};

verus! {

// ---------------------------------------------------------------------------
// Model requests
// ---------------------------------------------------------------------------

/// A chat completion request in core terms.
#[derive(Debug, Clone, PartialEq, Eq)]
pub struct ChatRequest {
    /// Optional model override; `None` uses the provider's configured model.
    pub model: Option<String>,
    /// Optional system prompt.
    pub system: Option<String>,
    /// The user turn.
    pub user: String,
    /// Optional generation cap.
    pub max_tokens: Option<u32>,
}

/// Token accounting returned by the provider on every call.
#[derive(Debug, Clone, Copy, Default, PartialEq, Eq)]
pub struct Usage {
    /// Prompt/input tokens.
    pub prompt_tokens: u32,
    /// Generated tokens.
    pub completion_tokens: u32,
    /// Total tokens.
    pub total_tokens: u32,
}

// ---------------------------------------------------------------------------
// Fetcher
// ---------------------------------------------------------------------------

/// Conditional-GET validators persisted on a feed from a previous fetch.
#[derive(Debug, Clone, Default, PartialEq, Eq)]
pub struct ConditionalHeaders {
    /// Prior `ETag` response header, replayed as `If-None-Match`.
    pub etag: Option<String>,
    /// Prior `Last-Modified` response header, replayed as `If-Modified-Since`.
    pub last_modified: Option<String>,
}

/// The result of a conditional feed fetch.
#[derive(Debug, Clone, PartialEq, Eq)]
pub enum FetchOutcome {
    /// The server returned 304: nothing changed since the last fetch.
    NotModified,
    /// A fresh body, with any updated validators to persist.
    Fetched {
        /// The response body (feed XML).
        body: String,
        /// New `ETag`, if the server sent one.
        etag: Option<String>,
        /// New `Last-Modified`, if the server sent one.
        last_modified: Option<String>,
    },
}

/// An outbound fetcher. A blocked URL surfaces as `CoreError::FetchRefused`.
pub trait Fetcher {
    /// Whether `r` is an answer this fetcher gives for `url` with the
    /// validators `cond`. An implementation may narrow it; left as it is,
    /// every answer is possible.
    open spec fn fetch_answer(&self, url: Seq<char>, cond: ConditionalHeaders, r: CoreResult<FetchOutcome>) -> bool {
        true
    }

    /// Fetch `url`, replaying `cond` as conditional-GET headers.
    fn fetch(&self, url: &str, cond: &ConditionalHeaders) -> (r: CoreResult<FetchOutcome>)
        ensures
            self.fetch_answer(url@, *cond, r),
    ;
}

// ---------------------------------------------------------------------------
// Store
// ---------------------------------------------------------------------------

/// A feed's operational row, as the fetch stage needs it.
#[derive(Debug, Clone, PartialEq, Eq)]
pub struct Feed {
    /// Feed row id (uuid string).
    pub id: String,
    /// Feed URL to fetch.
    pub url: String,
    /// Topic this feed feeds into (uuid string).
    pub topic_id: String,
    /// Prior conditional-GET validators.
    pub conditional: ConditionalHeaders,
}

/// A feed's scheduling row, as the cron stage needs it.
#[derive(Debug, Clone, PartialEq, Eq)]
pub struct FeedSchedule {
    /// Feed row id (uuid string).
    pub id: String,
    /// Fetch interval in seconds.
    pub interval_seconds: i64,
    /// Last fetch time (unix seconds), or `None` if never.
    pub last_fetched_at: Option<i64>,
}

/// A new article to upsert, in core terms.
#[derive(Debug, Clone, PartialEq, Eq)]
pub struct NewArticle {
    /// Canonical URL (unique dedup key).
    pub url: String,
    /// Headline.
    pub title: String,
    /// Body/summary text.
    pub content: String,
    /// Publication time (unix seconds) if known.
    pub published_at: Option<i64>,
    /// Owning feed id (uuid string).
    pub feed_id: String,
    /// Owning topic id (uuid string).
    pub topic_id: String,
    /// Content hash for near-duplicate detection.
    pub content_hash: String,
}

/// The result of an idempotent article upsert.
#[derive(Debug, Clone, PartialEq, Eq)]
pub struct UpsertResult {
    /// The article row id, whether inserted or pre-existing.
    pub id: String,
    /// `true` only when this call inserted a brand-new row; a re-seen URL
    /// yields `false` and must not be re-enqueued.
    pub inserted: bool,
}

/// Everything the decide stage needs about one article and its topic.
#[derive(Debug, Clone, PartialEq, Eq)]
pub struct DecideContext {
    /// Article headline.
    pub title: String,
    /// Article body.
    pub content: String,
    /// The topic's relevance prompt.
    pub topic_prompt: String,
    /// The topic's keep threshold (`0..=100`).
    pub threshold: u8,
}

/// Article and feed persistence, in domain terms.
pub trait Store {
    /// Whether `r` is an answer this store gives when asked for the feed
    /// `feed_id`. An implementation may narrow it; left as it is, every
    /// answer is possible (and so for the other answer relations below).
    open spec fn load_feed_answer(&self, feed_id: Seq<char>, r: CoreResult<Option<Feed>>) -> bool {
        true
    }

    /// Whether `r` is an answer this store gives when asked to upsert the
    /// article `article`.
    open spec fn upsert_answer(&self, article: crate::pipeline::NewArticleView, r: CoreResult<UpsertResult>) -> bool {
        true
    }

    /// Whether `r` is an answer this store gives when asked to record a
    /// successful fetch of `feed_id` with the validators `cond` at `now`.
    open spec fn feed_success_answer(&self, feed_id: Seq<char>, cond: ConditionalHeaders, now: i64, r: CoreResult<()>) -> bool {
        true
    }

    /// Whether `r` is an answer this store gives when asked to record a
    /// failed fetch of `feed_id` with the message `error` at `now`.
    open spec fn feed_failure_answer(&self, feed_id: Seq<char>, error: Seq<char>, now: i64, r: CoreResult<()>) -> bool {
        true
    }

    /// Whether `r` is an answer this store gives when asked to record the
    /// decision `(score, reason, keep)` for the article `article_id`.
    open spec fn decision_answer(
        &self,
        article_id: Seq<char>,
        score: u8,
        reason: Seq<char>,
        keep: bool,
        r: CoreResult<()>,
    ) -> bool {
        true
    }

    /// Load a feed's fetch row, or `None` if missing/disabled.
    fn load_feed(&self, feed_id: &str) -> (r: CoreResult<Option<Feed>>)
        ensures
            self.load_feed_answer(feed_id@, r),
    ;

    /// Load every enabled feed's scheduling row for due-selection.
    fn load_enabled_feeds(&self) -> CoreResult<Vec<FeedSchedule>>;

    /// Idempotently upsert an article on its unique URL.
    fn upsert_article(&self, article: &NewArticle) -> (r: CoreResult<UpsertResult>)
        ensures
            self.upsert_answer(crate::pipeline::new_article_view(*article), r),
    ;

    /// Record a successful fetch: persist new validators and stamp `last_fetched_at`.
    fn record_feed_success(&self, feed_id: &str, cond: &ConditionalHeaders, now: i64) -> (r: CoreResult<()>)
        ensures
            self.feed_success_answer(feed_id@, *cond, now, r),
    ;

    /// Record a fetch failure: bump `failure_count`, store `last_error`, stamp time.
    fn record_feed_failure(&self, feed_id: &str, error: &str, now: i64) -> (r: CoreResult<()>)
        ensures
            self.feed_failure_answer(feed_id@, error@, now, r),
    ;

    /// Load the decide context for an article, or `None` if it is gone.
    fn load_decide_context(&self, article_id: &str) -> CoreResult<Option<DecideContext>>;

    /// Record a decide outcome: state `Decided` when `keep`, else `Discarded`.
    fn record_decision(&self, article_id: &str, score: u8, reason: &str, keep: bool) -> (r: CoreResult<()>)
        ensures
            self.decision_answer(article_id@, score, reason@, keep, r),
    ;

    /// Set an article's pipeline state.
    fn set_state(&self, article_id: &str, state: PipelineState) -> CoreResult<()>;

    /// Record a permanent error against an article: state `Error` plus message.
    fn record_article_error(&self, article_id: &str, error: &str) -> CoreResult<()>;

    /// Load the round-robin scheduling cursor (0 if unset).
    fn load_cursor(&self) -> CoreResult<u64>;

    /// Persist the round-robin scheduling cursor.
    fn save_cursor(&self, cursor: u64) -> CoreResult<()>;
}

// ---------------------------------------------------------------------------
// Analysis, entities, stories
// ---------------------------------------------------------------------------

/// Everything the analyze stage needs about one article.
#[derive(Debug, Clone, PartialEq, Eq)]
pub struct AnalyzeContext {
    /// Article headline.
    pub title: String,
    /// Article body.
    pub content: String,
}

/// Everything the embed stage needs about one article.
#[derive(Debug, Clone, PartialEq, Eq)]
pub struct EmbedContext {
    /// Article headline.
    pub title: String,
    /// The analyze stage's summary; falls back to the body when absent.
    pub summary: String,
    /// Canonical names of the entities linked to this article.
    pub entities: Vec<String>,
}

/// What one article's entity resolution actually did.
#[derive(Debug, Clone, Copy, Default, PartialEq, Eq)]
pub struct EntityApplyReport {
    /// Entities created by this article.
    pub created: usize,
    /// Existing entities this article linked to.
    pub linked: usize,
    /// New spellings recorded as aliases.
    pub aliases_added: usize,
}

/// The article being clustered, as the store hands it to the cluster stage.
#[derive(Debug, Clone, PartialEq, Eq)]
pub struct ClusterContext {
    /// Topic the article belongs to.
    pub topic_id: Option<String>,
    /// Feed the article came from.
    pub feed_id: Option<String>,
    /// Publication time (unix seconds).
    pub published_at: Option<i64>,
    /// Relevance score from the decide stage.
    pub relevance_score: Option<i32>,
    /// How many times clustering has already deferred this article.
    pub waits: u32,
}

/// A feed that has failed its last `n` fetches, as the alert pass sees it.
#[derive(Debug, Clone, PartialEq, Eq)]
pub struct FailingFeed {
    /// The feed Item's id.
    pub id: String,
    /// The feed's name, for the alert body.
    pub name: String,
    /// Consecutive failures.
    pub failure_count: u32,
    /// The last error recorded against it.
    pub last_error: String,
}

/// How the plugin's own queue looks right now.
#[derive(Debug, Clone, Copy, Default, PartialEq, Eq)]
pub struct QueueHealth {
    /// Age in seconds of the oldest claimable job, or `0` when none waits.
    pub oldest_ready_age: i64,
    /// Jobs eligible to run right now.
    pub ready: u64,
    /// Jobs that have dead-lettered.
    pub dead: u64,
}

// ---------------------------------------------------------------------------
// Queue
// ---------------------------------------------------------------------------

/// The notification outbox, its deliveries, and the operational reads the
/// alert pass needs.
pub trait NotifyStore {
    /// Whether `r` is an answer this store gives when asked to record the
    /// event `event` at `now`. An implementation may narrow it; left as it
    /// is, every answer is possible (and so for the relations below).
    open spec fn record_answer(&self, event: crate::notify::NewEventView, now: i64, r: CoreResult<Option<String>>) -> bool {
        true
    }

    /// Whether `r` is an answer this store gives when asked for at most
    /// `limit` feeds that have failed `threshold` times in a row.
    open spec fn failing_answer(&self, threshold: u32, limit: usize, r: CoreResult<Vec<FailingFeed>>) -> bool {
        true
    }

    /// Whether `r` is an answer this store gives when asked for the queue's
    /// health at `now`.
    open spec fn health_answer(&self, now: i64, r: CoreResult<QueueHealth>) -> bool {
        true
    }

    /// Record a notification decision, returning the new event's id, or
    /// `None` when `(kind, dedup_key)` already exists (a redelivery).
    fn record_event(&self, event: &crate::notify::NewEvent, now: i64) -> (r: CoreResult<Option<String>>)
        ensures
            self.record_answer(crate::notify::event_view(*event), now, r),
    ;

    /// Load an outbox row, or `None` if it is gone.
    fn load_event(&self, event_id: &str) -> CoreResult<Option<crate::notify::StoredEvent>>;

    /// Every enabled channel, in a stable order.
    fn load_channels(&self) -> CoreResult<Vec<crate::notify::ChannelConfig>>;

    /// One channel by id, or `None` when it is gone or disabled.
    fn load_channel(&self, channel_id: &str) -> CoreResult<Option<crate::notify::ChannelConfig>>;

    /// When a notification about `subject_id` was last sent, for debouncing.
    fn last_sent_at(&self, subject_id: &str) -> CoreResult<Option<i64>>;

    /// A topic's notification priority, from its configuration Item.
    fn topic_priority(&self, topic_id: &str) -> CoreResult<crate::notify::NotifyPriority>;

    /// How many other pending, due, normal-priority digestible events were
    /// created at or after `window_start`.
    fn pending_digestible(&self, head_event_id: &str, window_start: i64, now: i64) -> CoreResult<usize>;

    /// Claim every other pending, due, normal-priority digestible event
    /// created at or after `window_start`, folding it into `head_event_id`.
    fn claim_digest(
        &self,
        head_event_id: &str,
        window_start: i64,
        limit: usize,
        now: i64,
    ) -> CoreResult<Vec<crate::notify::StoredEvent>>;

    /// Rewrite an event row as the digest it became.
    fn promote_to_digest(
        &self,
        event_id: &str,
        digest: &crate::notify::Notification,
        folded: usize,
        now: i64,
    ) -> CoreResult<()>;

    /// Move an event to a terminal state, with a reason for a suppression.
    fn set_event_state(
        &self,
        event_id: &str,
        state: crate::notify::EventState,
        reason: Option<&str>,
        now: i64,
    ) -> CoreResult<()>;

    /// Push an event's earliest-send instant out to `at`.
    fn reschedule_event(&self, event_id: &str, at: i64) -> CoreResult<()>;

    /// Record what one channel did with one event; returns the attempt number.
    fn record_delivery(&self, event_id: &str, outcome: &crate::notify::ChannelOutcome, now: i64) -> CoreResult<u32>;

    /// Update a channel's rolling health.
    fn note_channel_health(&self, channel_id: &str, ok: bool, error: Option<&str>, now: i64) -> CoreResult<()>;

    /// Feeds whose consecutive failure count has reached `threshold`.
    fn failing_feeds(&self, threshold: u32, limit: usize) -> (r: CoreResult<Vec<FailingFeed>>)
        ensures
            self.failing_answer(threshold, limit, r),
    ;

    /// The plugin's own queue health.
    fn queue_health(&self, now: i64) -> (r: CoreResult<QueueHealth>)
        ensures
            self.health_answer(now, r),
    ;
}


/// A queue job payload: the stage discriminator plus the row id it operates on.
#[derive(Debug, Clone, PartialEq, Eq)]
pub struct JobPayload {
    /// Which stage should process `id`.
    pub stage: Stage,
    /// The row id (article, feed, story or notification event).
    pub id: String,
    /// Narrows a notify job to one channel.
    pub channel: Option<String>,
}

impl JobPayload {
    /// A whole-job payload: this stage, this row, every channel.
    pub fn new(stage: Stage, id: String) -> (r: Self)
        ensures
            r.stage == stage,
            r.id == id,
            r.channel is None,
    {
        JobPayload { stage, id, channel: None }
    }

    /// A notify payload narrowed to one channel.
    pub fn for_channel(event_id: String, channel_id: String) -> (r: Self)
        ensures
            r.stage == Stage::Notify,
            r.id == event_id,
            r.channel == Some(channel_id),
    {
        JobPayload { stage: Stage::Notify, id: event_id, channel: Some(channel_id) }
    }
}

/// Enqueue options: a drain priority and an initial delay.
#[derive(Debug, Clone, Copy, Default, PartialEq, Eq)]
pub struct EnqueueOpts {
    /// Higher drains first.
    pub priority: i32,
    /// Seconds to defer the first attempt.
    pub delay: i64,
}

/// The stage-handoff queue.
pub trait JobQueue {
    /// Whether `r` is an answer this queue gives when asked to enqueue the
    /// job for `stage`, row `id` and channel `channel`, with `opts`. An
    /// implementation may narrow it; left as it is, every answer is possible.
    open spec fn enqueue_answer(
        &self,
        stage: Stage,
        id: Seq<char>,
        channel: Option<Seq<char>>,
        opts: EnqueueOpts,
        r: CoreResult<()>,
    ) -> bool {
        true
    }

    /// Enqueue the next stage's job.
    fn enqueue(&self, job: &JobPayload, opts: EnqueueOpts) -> (r: CoreResult<()>)
        ensures
            self.enqueue_answer(job.stage, job.id@, job_channel(*job), opts, r),
    ;
}

/// The channel a job is narrowed to, as text.
pub open spec fn job_channel(job: JobPayload) -> Option<Seq<char>> {
    match job.channel {
        Some(c) => Some(c@),
        None => None,
    }
}

} // verus!
