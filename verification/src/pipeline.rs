//! Stage orchestration wired over the injected ports.
//!
//! Each `run_*` function is the body of one pipeline stage. Queue semantics
//! are encoded in the `Result`: `Ok(_)` is a terminal outcome that must not be
//! retried; `Err(e)` propagates a failure for the queue to retry with backoff.
//! Permanent failures never propagate: they are recorded and answered `Ok`.

use vstd::prelude::*;
use crate::dedup::{content_hash, hashed_bytes, hex_text, sha256_digest};
use crate::error::{CoreError, CoreResult, error_message, error_is_transient};
use crate::decide::{decision_of, decision_error, keeps, parse_decision};
use crate::model::Decision;
use crate::feed::{parse_feed, feed_outcome, ArticleView, article_view};
use crate::model::{ParsedArticle, Stage};
use crate::ports::{
    FailingFeed, NotifyStore, QueueHealth, UpsertResult, ConditionalHeaders, EmbedContext, EnqueueOpts, FetchOutcome, Fetcher, Feed, JobPayload,
    JobQueue, NewArticle, Store,
};
use crate::text::{chars_of, string_of, push_all, trim_chars, trim};
use crate::json::{Json, json_text, json_quoted, members_text};
use crate::num::{decimal, padded_int, u64_to_decimal, i64_to_padded};
use crate::budget::{BudgetVerdict, utc_day, utc_day_text};
use crate::notify::{EventKind, NewEvent, NewEventView, NotifyPriority, event_view};

verus! {

/// Priority for decide jobs enqueued off a fetch (drained ahead of default).
pub const DECIDE_PRIORITY: i32 = 10;
/// Priority for analyze jobs enqueued off a survivor.
pub const ANALYZE_PRIORITY: i32 = 5;
/// Priority for embed jobs; cheap, so they drain behind the AI stages.
pub const EMBED_PRIORITY: i32 = 3;
/// Priority for cluster jobs.
pub const CLUSTER_PRIORITY: i32 = 2;
/// Priority for summarize jobs: lowest, since deferring costs only freshness.
pub const SUMMARIZE_PRIORITY: i32 = 1;
/// Priority for notify jobs.
pub const NOTIFY_PRIORITY: i32 = 4;
/// Most candidate stories loaded for one clustering decision.
pub const MAX_STORY_CANDIDATES: usize = 64;
/// Most candidate articles loaded for near-duplicate detection.
pub const MAX_ARTICLE_CANDIDATES: usize = 64;
/// Most story members loaded for one summarize call.
pub const MAX_STORY_MEMBERS: usize = 50;
/// Most articles whose content one retention pass reclaims.
pub const MAX_PURGE_PER_PASS: usize = 500;
/// Most deferred articles one maintenance pass re-enqueues.
pub const MAX_WAITING_PER_PASS: usize = 200;

/// What a fetch-stage run did.
#[derive(Debug, Clone, PartialEq, Eq)]
pub struct FetchReport {
    /// The server returned 304 and nothing was ingested.
    pub not_modified: bool,
    /// Number of articles parsed from the body.
    pub parsed: usize,
    /// Number of brand-new articles inserted (and hence enqueued to decide).
    pub ingested: usize,
    /// Whether the fetch failed permanently and the feed was flagged.
    pub feed_flagged: bool,
}

impl Default for FetchReport {
    fn default() -> (r: Self)
        ensures
            r == (FetchReport { not_modified: false, parsed: 0, ingested: 0, feed_flagged: false }),
    {
        FetchReport { not_modified: false, parsed: 0, ingested: 0, feed_flagged: false }
    }
}

/// A new article's fields as character sequences.
pub struct NewArticleView {
    /// Canonical URL.
    pub url: Seq<char>,
    /// Headline.
    pub title: Seq<char>,
    /// Body text.
    pub content: Seq<char>,
    /// Publication time.
    pub published_at: Option<i64>,
    /// Owning feed id.
    pub feed_id: Seq<char>,
    /// Owning topic id.
    pub topic_id: Seq<char>,
    /// Near-duplicate content hash.
    pub content_hash: Seq<char>,
}

/// The view of a new article.
pub open spec fn new_article_view(a: NewArticle) -> NewArticleView {
    NewArticleView {
        url: a.url@,
        title: a.title@,
        content: a.content@,
        published_at: a.published_at,
        feed_id: a.feed_id@,
        topic_id: a.topic_id@,
        content_hash: a.content_hash@,
    }
}

/// The row a parsed feed entry becomes: the entry's fields, its feed and
/// topic, and the hash of its normalized title and body.
pub open spec fn ingest_view(feed: Feed, a: ArticleView) -> NewArticleView {
    NewArticleView {
        url: a.url,
        title: a.title,
        content: a.content,
        published_at: a.published_at,
        feed_id: feed.id@,
        topic_id: feed.topic_id@,
        content_hash: hex_text(sha256_digest(hashed_bytes(a.title, a.content))),
    }
}

/// The upsert a parsed feed entry becomes.
pub fn new_article(feed: &Feed, art: &ParsedArticle) -> (r: NewArticle)
    ensures
        new_article_view(r) == ingest_view(*feed, article_view(*art)),
{
    NewArticle {
        url: clone_string(&art.url),
        title: clone_string(&art.title),
        content: clone_string(&art.content),
        published_at: art.published_at,
        feed_id: clone_string(&feed.id),
        topic_id: clone_string(&feed.topic_id),
        content_hash: content_hash(art.title.as_str(), art.content.as_str()),
    }
}

/// A copy of a string.
pub fn clone_string(s: &String) -> (r: String)
    ensures
        r == *s,
{
    s.clone()
}

/// A copy of an optional string.
pub fn clone_opt_string(s: &Option<String>) -> (r: Option<String>)
    ensures
        r == *s,
{
    match s {
        Some(x) => Some(x.clone()),
        None => None,
    }
}

/// A copy of a feed's validators.
pub fn clone_conditional(c: &ConditionalHeaders) -> (r: ConditionalHeaders)
    ensures
        r == *c,
{
    ConditionalHeaders { etag: clone_opt_string(&c.etag), last_modified: clone_opt_string(&c.last_modified) }
}

/// What the fetch stage does with what the fetcher answered.
pub enum FetchStep {
    /// Nothing changed: stamp the fetch time, keeping these validators.
    Touch(ConditionalHeaders),
    /// A fresh body: upsert these rows, then record these validators.
    Ingest {
        /// One upsert per parsed entry, in feed order.
        articles: Vec<NewArticle>,
        /// The validators to persist.
        cond: ConditionalHeaders,
    },
    /// The body is not a feed: flag the feed with this error text.
    Flag(String),
}

/// Decide what a fetched outcome means for `feed`.
///
/// A 304 keeps the stored validators; a body that parses becomes one upsert
/// per entry and the response's validators; a body that does not parse flags
/// the feed with the parse error.
pub fn plan_fetch(feed: &Feed, outcome: FetchOutcome) -> (r: FetchStep)
    ensures
        match outcome {
            FetchOutcome::NotModified => r == FetchStep::Touch(feed.conditional),
            FetchOutcome::Fetched { body, etag, last_modified } => match feed_outcome(body@) {
                Ok(arts) => r matches FetchStep::Ingest { articles, cond } && cond
                    == (ConditionalHeaders { etag, last_modified }) && articles@.map_values(
                    |a: NewArticle| new_article_view(a),
                ) == arts.map_values(|a: ArticleView| ingest_view(*feed, a)),
                Err(m) => r matches FetchStep::Flag(e) && e@ == "feed parse error: "@ + m,
            },
        },
{
    match outcome {
        FetchOutcome::NotModified => FetchStep::Touch(clone_conditional(&feed.conditional)),
        FetchOutcome::Fetched { body, etag, last_modified } => {
            match parse_feed(body.as_str()) {
                Ok(parsed) => {
                    let mut articles: Vec<NewArticle> = Vec::new();
                    let ghost arts = parsed@.map_values(|a: ParsedArticle| article_view(a));
                    let mut i: usize = 0;
                    while i < parsed.len()
                        invariant
                            i <= parsed.len(),
                            arts == parsed@.map_values(|a: ParsedArticle| article_view(a)),
                            articles@.map_values(|a: NewArticle| new_article_view(a)) == arts.take(
                                i as int,
                            ).map_values(|a: ArticleView| ingest_view(*feed, a)),
                        decreases parsed.len() - i,
                    {
                        let n = new_article(feed, &parsed[i]);
                        let ghost before = articles@;
                        articles.push(n);
                        assert(articles@.map_values(|a: NewArticle| new_article_view(a)) == before.map_values(
                            |a: NewArticle| new_article_view(a),
                        ).push(new_article_view(n)));
                        assert(arts.take(i as int + 1) == arts.take(i as int).push(arts[i as int]));
                        i += 1;
                    }
                    assert(arts.take(parsed@.len() as int) == arts);
                    FetchStep::Ingest { articles, cond: ConditionalHeaders { etag, last_modified } }
                },
                Err(e) => FetchStep::Flag(e.message()),
            }
        },
    }
}

/// The report of a run that flagged the feed as failing.
pub open spec fn flagged_report() -> FetchReport {
    FetchReport { not_modified: false, parsed: 0, ingested: 0, feed_flagged: true }
}

/// The report of a run the server answered 304.
pub open spec fn not_modified_report() -> FetchReport {
    FetchReport { not_modified: true, parsed: 0, ingested: 0, feed_flagged: false }
}

/// `then`, unless the store answered a bookkeeping write with an error,
/// which is propagated instead.
pub open spec fn after_write(c: CoreResult<()>, then: CoreResult<FetchReport>) -> CoreResult<FetchReport> {
    match c {
        Ok(_) => then,
        Err(e) => Err(e),
    }
}

/// What a fetch that failed with `e` comes to once the failure is recorded:
/// a transient error propagates so the queue retries; any other is a
/// permanent failure, answered `Ok` with the feed flagged.
pub open spec fn fetch_failure_result(e: CoreError) -> CoreResult<FetchReport> {
    if error_is_transient(e) {
        Err(e)
    } else {
        Ok(flagged_report())
    }
}

/// Decide what a fetcher's error comes to (see `fetch_failure_result`).
pub fn fetch_failure_outcome(e: CoreError) -> (r: CoreResult<FetchReport>)
    ensures
        r == fetch_failure_result(e),
{
    if e.is_transient() {
        Err(e)
    } else {
        Ok(FetchReport { not_modified: false, parsed: 0, ingested: 0, feed_flagged: true })
    }
}

/// Whether the queue answers `r` to the decide job for the article row `id`.
pub open spec fn decide_enqueue_answer<Q: JobQueue + ?Sized>(queue: &Q, id: Seq<char>, r: CoreResult<()>) -> bool {
    queue.enqueue_answer(Stage::Decide, id, None, EnqueueOpts { priority: DECIDE_PRIORITY, delay: 0 }, r)
}

/// The first `ups.len()` rows of `rows` were upserted in order, the store
/// answering `ups`, and every brand-new row was enqueued to decide.
pub open spec fn ingested_prefix<S: Store + ?Sized, Q: JobQueue + ?Sized>(
    store: &S,
    queue: &Q,
    rows: Seq<NewArticleView>,
    ups: Seq<UpsertResult>,
) -> bool {
    &&& ups.len() <= rows.len()
    &&& forall|i: int|
        0 <= i < ups.len() ==> store.upsert_answer(rows[i], Ok(#[trigger] ups[i])) && (ups[i].inserted
            ==> decide_enqueue_answer(queue, ups[i].id@, Ok(())))
}

/// How many of `ups` inserted a brand-new row.
pub open spec fn inserted_count(ups: Seq<UpsertResult>) -> nat
    decreases ups.len(),
{
    if ups.len() == 0 {
        0
    } else {
        inserted_count(ups.drop_last()) + if ups.last().inserted {
            1nat
        } else {
            0nat
        }
    }
}

/// What ingesting `rows` for `feed_id` with the new validators `cond` comes
/// to: every row upserted in order, each brand-new one enqueued to decide,
/// then the success recorded; the report counts the parsed and the new rows.
/// An error from any of these calls stops the run and is propagated.
pub open spec fn ingest_run<S: Store + ?Sized, Q: JobQueue + ?Sized>(
    store: &S,
    queue: &Q,
    feed_id: Seq<char>,
    now: i64,
    rows: Seq<NewArticleView>,
    cond: ConditionalHeaders,
    r: CoreResult<FetchReport>,
) -> bool {
    match r {
        Ok(rep) => exists|ups: Seq<UpsertResult>|
            #[trigger] ingested_prefix(store, queue, rows, ups) && ups.len() == rows.len()
                && store.feed_success_answer(feed_id, cond, now, Ok(())) && rep == (FetchReport {
                not_modified: false,
                parsed: rep.parsed,
                ingested: rep.ingested,
                feed_flagged: false,
            }) && rep.parsed == rows.len() && rep.ingested == inserted_count(ups),
        Err(e) => exists|ups: Seq<UpsertResult>|
            #[trigger] ingested_prefix(store, queue, rows, ups) && if ups.len() < rows.len() {
                ||| store.upsert_answer(rows[ups.len() as int], Err(e))
                ||| exists|u: UpsertResult|
                    u.inserted && #[trigger] store.upsert_answer(rows[ups.len() as int], Ok(u))
                        && decide_enqueue_answer(queue, u.id@, Err(e))
            } else {
                store.feed_success_answer(feed_id, cond, now, Err(e))
            },
    }
}

/// What a fetch run for `feed_id` comes to, given what the store and the
/// fetcher answered along the way (see `run_fetch`).
pub open spec fn fetch_run<F: Fetcher + ?Sized, S: Store + ?Sized, Q: JobQueue + ?Sized>(
    fetcher: &F,
    store: &S,
    queue: &Q,
    feed_id: Seq<char>,
    now: i64,
    r: CoreResult<FetchReport>,
) -> bool {
    exists|a: CoreResult<Option<Feed>>|
        #[trigger] store.load_feed_answer(feed_id, a) && match a {
            Err(e) => r == Err::<FetchReport, CoreError>(e),
            Ok(None) => r == Ok::<FetchReport, CoreError>(
                FetchReport { not_modified: false, parsed: 0, ingested: 0, feed_flagged: false },
            ),
            Ok(Some(f)) => fetched_run(fetcher, store, queue, feed_id, now, f, r),
        }
}

/// What a fetch run for the loaded feed `f` comes to (see `run_fetch`).
pub open spec fn fetched_run<F: Fetcher + ?Sized, S: Store + ?Sized, Q: JobQueue + ?Sized>(
    fetcher: &F,
    store: &S,
    queue: &Q,
    feed_id: Seq<char>,
    now: i64,
    f: Feed,
    r: CoreResult<FetchReport>,
) -> bool {
    exists|b: CoreResult<FetchOutcome>|
        #[trigger] fetcher.fetch_answer(f.url@, f.conditional, b) && match b {
            Err(e) => exists|c: CoreResult<()>|
                #[trigger] store.feed_failure_answer(feed_id, error_message(e), now, c) && r
                    == after_write(c, fetch_failure_result(e)),
            Ok(FetchOutcome::NotModified) => exists|c: CoreResult<()>|
                #[trigger] store.feed_success_answer(feed_id, f.conditional, now, c) && r
                    == after_write(c, Ok(not_modified_report())),
            Ok(FetchOutcome::Fetched { body, etag, last_modified }) => match feed_outcome(body@) {
                Err(m) => exists|c: CoreResult<()>|
                    #[trigger] store.feed_failure_answer(feed_id, "feed parse error: "@ + m, now, c)
                        && r == after_write(c, Ok(flagged_report())),
                Ok(arts) => ingest_run(
                    store,
                    queue,
                    feed_id,
                    now,
                    arts.map_values(|a: ArticleView| ingest_view(f, a)),
                    ConditionalHeaders { etag, last_modified },
                    r,
                ),
            },
        }
}

/// Run the fetch stage for one feed: conditional GET, parse, idempotent ingest,
/// enqueue new articles to decide, and track per-feed success and failure.
///
/// A malformed feed or a refused URL is a permanent per-feed failure: it is
/// recorded and answered `Ok` with the feed flagged. A transient fetch failure
/// is recorded and propagated so the queue retries. Only brand-new rows are
/// enqueued, so a replayed job ingests nothing twice. An error from the store
/// or the queue stops the run and is propagated.
pub fn run_fetch<F: Fetcher + ?Sized, S: Store + ?Sized, Q: JobQueue + ?Sized>(
    fetcher: &F,
    store: &S,
    queue: &Q,
    feed_id: &str,
    now: i64,
) -> (r: CoreResult<FetchReport>)
    ensures
        fetch_run(fetcher, store, queue, feed_id@, now, r),
        match r {
            Ok(rep) => rep.ingested <= rep.parsed
                && (rep.not_modified ==> rep.parsed == 0 && !rep.feed_flagged)
                && (rep.feed_flagged ==> rep.parsed == 0 && !rep.not_modified),
            Err(_) => true,
        },
{
    let loaded = store.load_feed(feed_id);
    let feed = match loaded {
        Ok(Some(f)) => f,
        Ok(None) => return Ok(FetchReport::default()),
        Err(e) => return Err(e),
    };
    let fetched = fetcher.fetch(feed.url.as_str(), &feed.conditional);
    let outcome = match fetched {
        Ok(o) => o,
        Err(e) => {
            let msg = e.message();
            let c = store.record_feed_failure(feed_id, msg.as_str(), now);
            assert(store.feed_failure_answer(feed_id@, error_message(e), now, c));
            return match c {
                Err(w) => Err(w),
                Ok(_) => fetch_failure_outcome(e),
            };
        },
    };
    let ghost o = outcome;
    match plan_fetch(&feed, outcome) {
        FetchStep::Touch(cond) => {
            let c = store.record_feed_success(feed_id, &cond, now);
            assert(store.feed_success_answer(feed_id@, feed.conditional, now, c));
            match c {
                Err(w) => Err(w),
                Ok(_) => Ok(FetchReport { not_modified: true, parsed: 0, ingested: 0, feed_flagged: false }),
            }
        },
        FetchStep::Flag(msg) => {
            let c = store.record_feed_failure(feed_id, msg.as_str(), now);
            proof {
                if let FetchOutcome::Fetched { body, .. } = o {
                    assert(store.feed_failure_answer(feed_id@, "feed parse error: "@ + feed_outcome(body@)->Err_0, now, c));
                }
            }
            match c {
                Err(w) => Err(w),
                Ok(_) => Ok(FetchReport { not_modified: false, parsed: 0, ingested: 0, feed_flagged: true }),
            }
        },
        FetchStep::Ingest { articles, cond } => {
            let r = ingest_articles(store, queue, feed_id, now, articles, &cond);
            proof {
                if let FetchOutcome::Fetched { body, etag, last_modified } = o {
                    assert(cond == ConditionalHeaders { etag, last_modified });
                }
            }
            r
        },
    }
}

/// Upsert `articles` in order, enqueue each brand-new row to decide, then
/// record the fetch of `feed_id` as a success with the validators `cond`.
fn ingest_articles<S: Store + ?Sized, Q: JobQueue + ?Sized>(
    store: &S,
    queue: &Q,
    feed_id: &str,
    now: i64,
    articles: Vec<NewArticle>,
    cond: &ConditionalHeaders,
) -> (r: CoreResult<FetchReport>)
    ensures
        ingest_run(store, queue, feed_id@, now, articles@.map_values(|a: NewArticle| new_article_view(a)), *cond, r),
        match r {
            Ok(rep) => rep.ingested <= rep.parsed && rep.parsed == articles.len() && !rep.not_modified
                && !rep.feed_flagged,
            Err(_) => true,
        },
{
    let ghost rows = articles@.map_values(|a: NewArticle| new_article_view(a));
    let ghost mut ups: Seq<UpsertResult> = Seq::empty();
    let mut ingested: usize = 0;
    let mut i: usize = 0;
    assert(ingested_prefix(store, queue, rows, ups));
    while i < articles.len()
        invariant
            i <= articles.len(),
            ingested <= i,
            rows == articles@.map_values(|a: NewArticle| new_article_view(a)),
            ups.len() == i,
            ingested_prefix(store, queue, rows, ups),
            ingested == inserted_count(ups),
        decreases articles.len() - i,
    {
        let res = store.upsert_article(&articles[i]);
        assert(rows[i as int] == new_article_view(articles@[i as int]));
        let u = match res {
            Ok(u) => u,
            Err(e) => {
                assert(ingested_prefix(store, queue, rows, ups));
                return Err(e);
            },
        };
        let ghost gu = u;
        if u.inserted {
            let ghost uid = u.id@;
            let q = queue.enqueue(
                &JobPayload::new(Stage::Decide, u.id),
                EnqueueOpts { priority: DECIDE_PRIORITY, delay: 0 },
            );
            assert(decide_enqueue_answer(queue, uid, q));
            match q {
                Err(e) => {
                    assert(ingested_prefix(store, queue, rows, ups));
                    return Err(e);
                },
                Ok(x) => {
                    // The queue's `Ok` carries the one unit value.
                    assert(x == ());
                },
            }
            proof {
                lemma_extend_ingested(store, queue, rows, ups, gu);
                ups = ups.push(gu);
            }
            ingested += 1;
        } else {
            proof {
                lemma_extend_ingested(store, queue, rows, ups, u);
                ups = ups.push(u);
            }
        }
        i += 1;
    }
    let c = store.record_feed_success(feed_id, cond, now);
    assert(ingested_prefix(store, queue, rows, ups));
    match c {
        Err(w) => Err(w),
        Ok(x) => {
            // The store's `Ok` carries the one unit value.
            assert(x == ());
            Ok(FetchReport { not_modified: false, parsed: articles.len(), ingested, feed_flagged: false })
        },
    }
}

/// Extending an ingested prefix by the next row's answer `u` (with its decide
/// job enqueued when it is new) gives a longer prefix, counting `u` once
/// more when it is new.
proof fn lemma_extend_ingested<S: Store + ?Sized, Q: JobQueue + ?Sized>(
    store: &S,
    queue: &Q,
    rows: Seq<NewArticleView>,
    ups: Seq<UpsertResult>,
    u: UpsertResult,
)
    requires
        ingested_prefix(store, queue, rows, ups),
        ups.len() < rows.len(),
        store.upsert_answer(rows[ups.len() as int], Ok(u)),
        u.inserted ==> decide_enqueue_answer(queue, u.id@, Ok(())),
    ensures
        ingested_prefix(store, queue, rows, ups.push(u)),
        inserted_count(ups.push(u)) == inserted_count(ups) + if u.inserted {
            1nat
        } else {
            0nat
        },
{
    assert(ups.push(u).drop_last() == ups);
    assert forall|i: int| 0 <= i < ups.push(u).len() implies store.upsert_answer(rows[i], Ok(#[trigger] ups.push(u)[i])) && (ups.push(u)[i].inserted
        ==> decide_enqueue_answer(queue, ups.push(u)[i].id@, Ok(()))) by {
        if i < ups.len() {
            assert(ups.push(u)[i] == ups[i]);
        }
    }
}

/// Replaying a fetch is idempotent: when the store already holds every row
/// (it answers each upsert of them as not inserted), an ingest that ends
/// well reports every row parsed and none ingested, and enqueues nothing,
/// since only inserted rows have decide jobs.
pub proof fn law_replayed_ingest_adds_nothing<S: Store + ?Sized, Q: JobQueue + ?Sized>(
    store: &S,
    queue: &Q,
    feed_id: Seq<char>,
    now: i64,
    rows: Seq<NewArticleView>,
    cond: ConditionalHeaders,
    rep: FetchReport,
)
    requires
        ingest_run(store, queue, feed_id, now, rows, cond, Ok(rep)),
        forall|i: int, u: UpsertResult|
            0 <= i < rows.len() && #[trigger] store.upsert_answer(rows[i], Ok(u)) ==> !u.inserted,
    ensures
        rep.parsed == rows.len(),
        rep.ingested == 0,
{
    let ups = choose|ups: Seq<UpsertResult>|
        #[trigger] ingested_prefix(store, queue, rows, ups) && ups.len() == rows.len()
            && store.feed_success_answer(feed_id, cond, now, Ok(())) && rep == (FetchReport {
            not_modified: false,
            parsed: rep.parsed,
            ingested: rep.ingested,
            feed_flagged: false,
        }) && rep.parsed == rows.len() && rep.ingested == inserted_count(ups);
    lemma_none_inserted(store, queue, rows, ups);
}

/// When no answer inserted a row, none is counted.
proof fn lemma_none_inserted<S: Store + ?Sized, Q: JobQueue + ?Sized>(
    store: &S,
    queue: &Q,
    rows: Seq<NewArticleView>,
    ups: Seq<UpsertResult>,
)
    requires
        ingested_prefix(store, queue, rows, ups),
        forall|i: int, u: UpsertResult|
            0 <= i < rows.len() && #[trigger] store.upsert_answer(rows[i], Ok(u)) ==> !u.inserted,
    ensures
        inserted_count(ups) == 0,
    decreases ups.len(),
{
    if ups.len() > 0 {
        let k = ups.len() - 1;
        assert(store.upsert_answer(rows[k], Ok(ups[k])));
        assert(!ups.last().inserted);
        assert forall|i: int| 0 <= i < ups.drop_last().len() implies store.upsert_answer(rows[i], Ok(#[trigger] ups.drop_last()[i]))
            && (ups.drop_last()[i].inserted ==> decide_enqueue_answer(queue, ups.drop_last()[i].id@, Ok(()))) by {
            assert(ups.drop_last()[i] == ups[i]);
        }
        lemma_none_inserted(store, queue, rows, ups.drop_last());
    }
}

/// Enqueue a summarize job for a story: the job for `story_id` at the
/// summarize priority, undelayed; the queue's answer is returned.
pub fn enqueue_summarize<Q: JobQueue + ?Sized>(queue: &Q, story_id: &str) -> (r: CoreResult<()>)
    ensures
        queue.enqueue_answer(Stage::Summarize, story_id@, None, EnqueueOpts { priority: SUMMARIZE_PRIORITY, delay: 0 }, r),
{
    queue.enqueue(
        &JobPayload::new(Stage::Summarize, string_of(&chars_of(story_id))),
        EnqueueOpts { priority: SUMMARIZE_PRIORITY, delay: 0 },
    )
}

/// Whether recording the discard of `article_id` with `reason` comes to
/// `r`: the store's error propagates, otherwise no score and not kept.
pub open spec fn discarded_as<S: Store + ?Sized>(
    store: &S,
    article_id: Seq<char>,
    reason: Seq<char>,
    r: CoreResult<(Option<u8>, bool)>,
) -> bool {
    exists|c: CoreResult<()>|
        #[trigger] store.decision_answer(article_id, 0, reason, false, c) && r == match c {
            Err(e) => Err(e),
            Ok(_) => Ok::<(Option<u8>, bool), CoreError>((None, false)),
        }
}

/// Whether `threshold` keeps an article with `score` (the boundary is kept).
pub open spec fn kept_at(score: u8, threshold: u8) -> bool {
    score >= threshold
}

/// Whether recording the decision `(score, reason)` for `article_id`, and
/// enqueueing the article to analyze when `threshold` keeps it, comes to
/// `r`: the score and whether it was kept, or the first error.
pub open spec fn decided_as<S: Store + ?Sized, Q: JobQueue + ?Sized>(
    store: &S,
    queue: &Q,
    article_id: Seq<char>,
    threshold: u8,
    score: u8,
    reason: Seq<char>,
    r: CoreResult<(Option<u8>, bool)>,
) -> bool {
    exists|c: CoreResult<()>|
        #[trigger] store.decision_answer(article_id, score, reason, kept_at(score, threshold), c) && match c {
            Err(e) => r == Err::<(Option<u8>, bool), CoreError>(e),
            Ok(_) => if kept_at(score, threshold) {
                exists|q: CoreResult<()>|
                    #[trigger] queue.enqueue_answer(
                        Stage::Analyze,
                        article_id,
                        None,
                        EnqueueOpts { priority: ANALYZE_PRIORITY, delay: 0 },
                        q,
                    ) && r == match q {
                        Err(e) => Err(e),
                        Ok(_) => Ok::<(Option<u8>, bool), CoreError>((Some(score), true)),
                    }
            } else {
                r == Ok::<(Option<u8>, bool), CoreError>((Some(score), false))
            },
        }
}

/// What settling the decide reply `reply` for `article_id` against
/// `threshold` comes to (see `settle_decision`).
pub open spec fn settled_as<S: Store + ?Sized, Q: JobQueue + ?Sized>(
    store: &S,
    queue: &Q,
    article_id: Seq<char>,
    threshold: u8,
    reply: Result<String, CoreError>,
    r: CoreResult<(Option<u8>, bool)>,
) -> bool {
    match reply {
        Err(e) => if error_is_transient(e) {
            r == Err::<(Option<u8>, bool), CoreError>(e)
        } else {
            discarded_as(store, article_id, "unparseable model output: "@ + error_message(e), r)
        },
        Ok(text) => match decision_of(text@) {
            None => discarded_as(
                store,
                article_id,
                "unparseable model output: "@ + ("decision parse error: "@ + decision_error(text@)),
                r,
            ),
            Some((score, reason)) => decided_as(store, queue, article_id, threshold, score, reason, r),
        },
    }
}

/// Record the decision `d` for `article_id` and enqueue the article to
/// analyze when `threshold` keeps it.
fn record_and_route<S: Store + ?Sized, Q: JobQueue + ?Sized>(
    store: &S,
    queue: &Q,
    article_id: &str,
    threshold: u8,
    d: &Decision,
) -> (r: CoreResult<(Option<u8>, bool)>)
    ensures
        decided_as(store, queue, article_id@, threshold, d.score, d.reason@, r),
{
    let keep = keeps(d.score, threshold);
    let c = store.record_decision(article_id, d.score, d.reason.as_str(), keep);
    assert(store.decision_answer(article_id@, d.score, d.reason@, kept_at(d.score, threshold), c));
    match c {
        Err(e) => return Err(e),
        Ok(_) => {},
    }
    if keep {
        let q = queue.enqueue(
            &JobPayload::new(Stage::Analyze, string_of(&chars_of(article_id))),
            EnqueueOpts { priority: ANALYZE_PRIORITY, delay: 0 },
        );
        assert(queue.enqueue_answer(
            Stage::Analyze,
            article_id@,
            None,
            EnqueueOpts { priority: ANALYZE_PRIORITY, delay: 0 },
            q,
        ));
        match q {
            Err(e) => Err(e),
            Ok(_) => Ok((Some(d.score), true)),
        }
    } else {
        Ok((Some(d.score), false))
    }
}

/// Discard `article_id` with `reason`.
fn record_discard<S: Store + ?Sized>(store: &S, article_id: &str, reason: &Vec<char>) -> (r: CoreResult<(Option<u8>, bool)>)
    ensures
        discarded_as(store, article_id@, reason@, r),
{
    let c = store.record_decision(article_id, 0, string_of(reason).as_str(), false);
    assert(store.decision_answer(article_id@, 0, reason@, false, c));
    match c {
        Err(e) => Err(e),
        Ok(_) => Ok((None, false)),
    }
}

/// Settle one decide-stage reply for `article_id`: a transient failure to
/// get a reply is passed on for a retry; a reply that carries a decision is
/// recorded with its score, its reason and whether `threshold` keeps it, and
/// a kept article is enqueued to analyze; a reply that cannot be read (or a
/// permanent failure) discards the article with the reason and is `Ok`, so
/// it is not retried. Returns the score, if any, and whether it was kept;
/// an error from the store or the queue is propagated.
pub fn settle_decision<S: Store + ?Sized, Q: JobQueue + ?Sized>(
    store: &S,
    queue: &Q,
    article_id: &str,
    threshold: u8,
    reply: Result<String, CoreError>,
) -> (r: CoreResult<(Option<u8>, bool)>)
    ensures
        settled_as(store, queue, article_id@, threshold, reply, r),
{
    let failure = match reply {
        Err(e) => {
            if e.is_transient() {
                return Err(e);
            }
            e
        },
        Ok(text) => match parse_decision(text.as_str()) {
            Ok(d) => return record_and_route(store, queue, article_id, threshold, &d),
            Err(e) => e,
        },
    };
    let mut reason = chars_of("unparseable model output: ");
    push_all(&mut reason, &chars_of(failure.message().as_str()));
    record_discard(store, article_id, &reason)
}

/// The fields of `parts`, each trimmed, with the blank ones dropped.
pub open spec fn nonblank_trimmed(parts: Seq<Seq<char>>) -> Seq<Seq<char>>
    decreases parts.len(),
{
    if parts.len() == 0 {
        seq![]
    } else {
        let prev = nonblank_trimmed(parts.drop_last());
        let t = trim(parts.last());
        if t.len() > 0 {
            prev.push(t)
        } else {
            prev
        }
    }
}

/// The text handed to an embeddings model for one article: title, summary,
/// then the linked entity names, each trimmed, blanks skipped, one per line.
pub open spec fn embed_text(title: Seq<char>, summary: Seq<char>, entities: Seq<Seq<char>>) -> Seq<char> {
    crate::text::join(nonblank_trimmed(seq![title, summary] + entities), "\n"@)
}

/// Trim `s` and keep it when it is not blank.
fn keep_trimmed(out: &mut Vec<Vec<char>>, s: &str)
    ensures
        final(out)@.map_values(|w: Vec<char>| w@) == (if trim(s@).len() > 0 {
            old(out)@.map_values(|w: Vec<char>| w@).push(trim(s@))
        } else {
            old(out)@.map_values(|w: Vec<char>| w@)
        }),
{
    let c = chars_of(s);
    let t = trim_chars(&c);
    if t.len() > 0 {
        let ghost before = out@;
        out.push(t);
        assert(out@.map_values(|w: Vec<char>| w@) == before.map_values(|w: Vec<char>| w@).push(t@));
    }
}

/// The text handed to an embeddings model for one article: title, summary,
/// then the linked entity names, each trimmed, blanks skipped, one per line.
pub fn semantic_embed_text(ctx: &EmbedContext) -> (r: String)
    ensures
        r@ == embed_text(
            ctx.title@,
            ctx.summary@,
            ctx.entities@.map_values(|e: String| e@),
        ),
{
    let ghost all = seq![ctx.title@, ctx.summary@] + ctx.entities@.map_values(|e: String| e@);
    let mut parts: Vec<Vec<char>> = Vec::new();
    keep_trimmed(&mut parts, ctx.title.as_str());
    assert(all.take(1).drop_last() =~= Seq::<Seq<char>>::empty());
    assert(nonblank_trimmed(Seq::<Seq<char>>::empty()) == Seq::<Seq<char>>::empty());
    assert(parts@.map_values(|w: Vec<char>| w@) == nonblank_trimmed(all.take(1)));
    keep_trimmed(&mut parts, ctx.summary.as_str());
    assert(all.take(2).drop_last() == all.take(1));
    assert(parts@.map_values(|w: Vec<char>| w@) == nonblank_trimmed(all.take(2)));
    let mut i: usize = 0;
    while i < ctx.entities.len()
        invariant
            i <= ctx.entities.len(),
            all == seq![ctx.title@, ctx.summary@] + ctx.entities@.map_values(|e: String| e@),
            parts@.map_values(|w: Vec<char>| w@) == nonblank_trimmed(all.take(i as int + 2)),
        decreases ctx.entities.len() - i,
    {
        keep_trimmed(&mut parts, ctx.entities[i].as_str());
        assert(all.take(i as int + 3).drop_last() == all.take(i as int + 2));
        assert(all.take(i as int + 3).last() == ctx.entities@[i as int]@);
        i += 1;
    }
    assert(all.take(ctx.entities@.len() as int + 2) == all);
    let sep = chars_of("\n");
    let joined = crate::text::join_first(&parts, parts.len(), &sep);
    assert(parts@.map_values(|w: Vec<char>| w@).take(parts@.len() as int) == parts@.map_values(|w: Vec<char>| w@));
    string_of(&joined)
}

/// What an embed-stage run did.
#[derive(Debug, Clone, Copy, PartialEq, Eq, Default)]
pub struct EmbedReport {
    /// The article was gone.
    pub missing: bool,
    /// The vector came out all-zero: the article had no usable tokens.
    pub empty: bool,
}

/// A story as it stood before and after one summarize, for the notify
/// trigger.
#[derive(Debug, Clone, PartialEq, Eq)]
pub struct StoryChange {
    /// The story's id.
    pub story_id: String,
    /// Whether this was the story's first synthesis.
    pub is_new: bool,
    /// The narrative the story had before this run; empty for a new story.
    pub previous_summary: String,
    /// The story's new headline.
    pub title: String,
    /// The story's new narrative.
    pub summary: String,
    /// The topic the story belongs to.
    pub topic_id: Option<String>,
    /// The story's relevance score, checked against the notify threshold.
    pub relevance_score: Option<i32>,
    /// Members counted toward the story after this run; also the
    /// notification's idempotency key.
    pub article_count: usize,
}

/// What one maintenance pass did.
#[derive(Debug, Clone, Copy, PartialEq, Eq, Default)]
pub struct MaintenanceReport {
    /// Stories retired for going idle.
    pub stories_retired: u64,
    /// Articles whose body text was reclaimed.
    pub articles_purged: u64,
    /// Deferred articles re-enqueued for clustering.
    pub waiting_requeued: usize,
}


// ---------------------------------------------------------------------------
// Operator alerts
// ---------------------------------------------------------------------------

/// Most failing feeds one alert pass asks for.
pub const MAX_FAILING_FEEDS_PER_PASS: usize = 20;

/// What one alert pass did.
#[derive(Debug, Clone, Copy, PartialEq, Eq)]
pub struct AlertReport {
    /// Feeds alerted on.
    pub feeds_failing: usize,
    /// `true` when a budget alert was recorded this pass.
    pub budget_alerted: bool,
    /// `true` when a queue-stuck alert was recorded this pass.
    pub queue_alerted: bool,
    /// Alert events actually recorded (the rest were already known).
    pub events_recorded: usize,
}

impl Default for AlertReport {
    fn default() -> (r: Self)
        ensures
            r == (AlertReport { feeds_failing: 0, budget_alerted: false, queue_alerted: false, events_recorded: 0 }),
    {
        AlertReport { feeds_failing: 0, budget_alerted: false, queue_alerted: false, events_recorded: 0 }
    }
}

/// The day's budget standing, as the embedding application computes it from
/// the day's spend (the dollar amounts are floating point): the verdict, the
/// alert body naming the amounts, and the alert's data.
pub struct BudgetAlert {
    /// What the budget gate says about the day's spend.
    pub verdict: BudgetVerdict,
    /// The alert's body prose.
    pub body: String,
    /// The alert's structured data.
    pub data: Json,
}

/// One JSON object member, `"key":value`.
pub open spec fn json_member(key: Seq<char>, value: Seq<char>) -> Seq<char> {
    json_quoted(key) + seq![':'] + value
}

/// The alert for a feed that keeps failing, keyed on the feed and its
/// failure count so that the next failure is a new alert and the same one
/// is not.
pub open spec fn feed_alert(f: FailingFeed) -> NewEventView {
    NewEventView {
        kind: EventKind::FeedFailing,
        priority: NotifyPriority::Normal,
        subject_id: Some(f.id@),
        dedup_key: f.id@ + ":"@ + decimal(f.failure_count as nat),
        title: "Feed failing: "@ + f.name@,
        body: f.name@ + " has failed "@ + decimal(f.failure_count as nat)
            + " consecutive fetches. Last error: "@ + f.last_error@,
        link: None,
        data: seq!['{'] + json_member("failure_count"@, decimal(f.failure_count as nat)) + seq![',']
            + json_member("feed_id"@, json_quoted(f.id@)) + seq![','] + json_member("feed_name"@, json_quoted(f.name@))
            + seq![','] + json_member("last_error"@, json_quoted(f.last_error@)) + seq!['}'],
    }
}

/// The word a budget alert's title and key use for a verdict.
pub open spec fn budget_label(v: BudgetVerdict) -> Seq<char> {
    if v == BudgetVerdict::Pause {
        "reached"@
    } else {
        "past the alert threshold"@
    }
}

/// The budget alert for the day holding `now`: loud when spending has
/// stopped, keyed on the day and the verdict so that a day has at most one
/// warning and one pause alert.
pub open spec fn budget_alert(b: BudgetAlert, now: i64) -> NewEventView {
    NewEventView {
        kind: EventKind::BudgetThreshold,
        priority: if b.verdict == BudgetVerdict::Pause {
            NotifyPriority::High
        } else {
            NotifyPriority::Normal
        },
        subject_id: None,
        dedup_key: utc_day_text(now as int) + ":"@ + budget_label(b.verdict),
        title: "Argus daily AI budget "@ + budget_label(b.verdict),
        body: b.body@,
        link: None,
        data: json_text(b.data),
    }
}

/// The hour holding `now`, as `now / 3_600` truncates it.
pub open spec fn hour_bucket(now: i64) -> int {
    if now >= 0 {
        now as int / 3_600
    } else {
        -((-now) as int / 3_600)
    }
}

/// The alert for a queue whose oldest eligible job has waited longer than
/// `stuck` seconds, keyed on the hour so that it is raised once an hour at
/// most.
pub open spec fn stuck_alert(h: QueueHealth, stuck: i64, now: i64) -> NewEventView {
    NewEventView {
        kind: EventKind::QueueStuck,
        priority: NotifyPriority::High,
        subject_id: None,
        dedup_key: padded_int(hour_bucket(now), 0),
        title: "Argus queue is not draining"@,
        body: "The oldest eligible Argus job has been waiting "@ + padded_int(h.oldest_ready_age as int, 0)
            + "s ("@ + decimal(h.ready as nat) + " ready, "@ + decimal(h.dead as nat)
            + " dead-lettered). Check that the cron endpoint is being called."@,
        link: None,
        data: seq!['{'] + json_member("dead"@, decimal(h.dead as nat)) + seq![',']
            + json_member("oldest_ready_age"@, padded_int(h.oldest_ready_age as int, 0)) + seq![',']
            + json_member("ready"@, decimal(h.ready as nat)) + seq![','] + json_member(
            "threshold_seconds"@,
            padded_int(stuck as int, 0),
        ) + seq!['}'],
    }
}

/// Whether recording the alert `ev` at `now`, and enqueueing its notify job
/// when it is new, comes to `r`: whether it was new, or the first error.
pub open spec fn recorded_as<N: NotifyStore + ?Sized, Q: JobQueue + ?Sized>(
    notify: &N,
    queue: &Q,
    ev: NewEventView,
    now: i64,
    r: CoreResult<bool>,
) -> bool {
    exists|a: CoreResult<Option<String>>|
        #[trigger] notify.record_answer(ev, now, a) && match a {
            Err(e) => r == Err::<bool, CoreError>(e),
            Ok(None) => r == Ok::<bool, CoreError>(false),
            Ok(Some(id)) => exists|q: CoreResult<()>|
                #[trigger] queue.enqueue_answer(
                    Stage::Notify,
                    id@,
                    None,
                    EnqueueOpts { priority: NOTIFY_PRIORITY, delay: 0 },
                    q,
                ) && r == match q {
                    Err(e) => Err(e),
                    Ok(_) => Ok::<bool, CoreError>(true),
                },
        }
}

/// The alerts `evs` were recorded in order, `outs` saying which were new.
pub open spec fn all_recorded<N: NotifyStore + ?Sized, Q: JobQueue + ?Sized>(
    notify: &N,
    queue: &Q,
    evs: Seq<NewEventView>,
    now: i64,
    outs: Seq<bool>,
) -> bool {
    &&& outs.len() <= evs.len()
    &&& forall|i: int| 0 <= i < outs.len() ==> recorded_as(notify, queue, evs[i], now, Ok(#[trigger] outs[i]))
}

/// How many of `outs` are `true`.
pub open spec fn count_true(outs: Seq<bool>) -> nat
    decreases outs.len(),
{
    if outs.len() == 0 {
        0
    } else {
        count_true(outs.drop_last()) + if outs.last() {
            1nat
        } else {
            0nat
        }
    }
}

/// `n` as a report counts it: the count, or the largest `usize` past that.
pub open spec fn fit_usize(n: int) -> int {
    if n > usize::MAX {
        usize::MAX as int
    } else {
        n
    }
}

/// The alerts an alert pass records before it reads the queue's health:
/// one per failing feed, in order, then the budget alert unless the day is
/// clear.
pub open spec fn early_alerts(feeds: Seq<FailingFeed>, budget: BudgetAlert, now: i64) -> Seq<NewEventView> {
    feeds.map_values(|f: FailingFeed| feed_alert(f)) + if budget.verdict != BudgetVerdict::Clear {
        seq![budget_alert(budget, now)]
    } else {
        seq![]
    }
}

/// What the rest of an alert pass comes to once the early alerts were
/// recorded, `recorded` of them new: when `stuck` is positive the queue's
/// health is read, and a queue whose oldest eligible job waited longer
/// than `stuck` seconds is alerted on.
pub open spec fn alerts_tail<N: NotifyStore + ?Sized, Q: JobQueue + ?Sized>(
    notify: &N,
    queue: &Q,
    stuck: i64,
    now: i64,
    feeds: int,
    budget_alerted: bool,
    recorded: int,
    r: CoreResult<AlertReport>,
) -> bool {
    if stuck <= 0 {
        r matches Ok(rep) && rep.feeds_failing == feeds && rep.budget_alerted == budget_alerted
            && !rep.queue_alerted && rep.events_recorded == fit_usize(recorded)
    } else {
        exists|hb: CoreResult<QueueHealth>|
            #[trigger] notify.health_answer(now, hb) && match hb {
                Err(e) => r == Err::<AlertReport, CoreError>(e),
                Ok(h) => if h.oldest_ready_age > stuck {
                    exists|o: CoreResult<bool>|
                        #[trigger] recorded_as(notify, queue, stuck_alert(h, stuck, now), now, o) && match o {
                            Err(e) => r == Err::<AlertReport, CoreError>(e),
                            Ok(b) => r matches Ok(rep) && rep.feeds_failing == feeds && rep.budget_alerted
                                == budget_alerted && rep.queue_alerted && rep.events_recorded == fit_usize(
                                recorded + if b {
                                    1int
                                } else {
                                    0int
                                },
                            ),
                        }
                } else {
                    r matches Ok(rep) && rep.feeds_failing == feeds && rep.budget_alerted == budget_alerted
                        && !rep.queue_alerted && rep.events_recorded == fit_usize(recorded)
                },
            }
    }
}

/// What an alert pass comes to once the failing feeds are known: the early
/// alerts recorded in order (the first error stops the pass), then the
/// queue check.
pub open spec fn alerts_after_feeds<N: NotifyStore + ?Sized, Q: JobQueue + ?Sized>(
    notify: &N,
    queue: &Q,
    budget: BudgetAlert,
    stuck: i64,
    now: i64,
    feeds: Seq<FailingFeed>,
    r: CoreResult<AlertReport>,
) -> bool {
    let evs = early_alerts(feeds, budget, now);
    exists|outs: Seq<bool>|
        #[trigger] all_recorded(notify, queue, evs, now, outs) && if outs.len() < evs.len() {
            exists|e: CoreError|
                #[trigger] recorded_as(notify, queue, evs[outs.len() as int], now, Err(e)) && r == Err::<
                    AlertReport,
                    CoreError,
                >(e)
        } else {
            alerts_tail(
                notify,
                queue,
                stuck,
                now,
                feeds.len() as int,
                budget.verdict != BudgetVerdict::Clear,
                count_true(outs) as int,
                r,
            )
        }
}

/// What an alert pass comes to (see `run_alerts`).
pub open spec fn alerts_run<N: NotifyStore + ?Sized, Q: JobQueue + ?Sized>(
    notify: &N,
    queue: &Q,
    budget: BudgetAlert,
    alerts_enabled: bool,
    feed_failure_threshold: u32,
    queue_stuck_seconds: i64,
    now: i64,
    r: CoreResult<AlertReport>,
) -> bool {
    if !alerts_enabled {
        r == Ok::<AlertReport, CoreError>(
            AlertReport { feeds_failing: 0, budget_alerted: false, queue_alerted: false, events_recorded: 0 },
        )
    } else if feed_failure_threshold == 0 {
        alerts_after_feeds(notify, queue, budget, queue_stuck_seconds, now, seq![], r)
    } else {
        exists|fa: CoreResult<Vec<FailingFeed>>|
            #[trigger] notify.failing_answer(feed_failure_threshold, MAX_FAILING_FEEDS_PER_PASS, fa) && match fa {
                Err(e) => r == Err::<AlertReport, CoreError>(e),
                Ok(v) => alerts_after_feeds(notify, queue, budget, queue_stuck_seconds, now, v@, r),
            }
    }
}

/// Record one alert and, when it is new, enqueue its notify job.
fn record_alert<N: NotifyStore + ?Sized, Q: JobQueue + ?Sized>(
    notify: &N,
    queue: &Q,
    event: &NewEvent,
    now: i64,
) -> (r: CoreResult<bool>)
    ensures
        recorded_as(notify, queue, event_view(*event), now, r),
{
    let a = notify.record_event(event, now);
    assert(notify.record_answer(event_view(*event), now, a));
    match a {
        Err(e) => Err(e),
        Ok(None) => Ok(false),
        Ok(Some(id)) => {
            let ghost gid = id@;
            let q = queue.enqueue(
                &JobPayload::new(Stage::Notify, id),
                EnqueueOpts { priority: NOTIFY_PRIORITY, delay: 0 },
            );
            assert(queue.enqueue_answer(Stage::Notify, gid, None, EnqueueOpts { priority: NOTIFY_PRIORITY, delay: 0 }, q));
            match q {
                Err(e) => Err(e),
                Ok(_) => Ok(true),
            }
        },
    }
}

/// Append the member `key: v` to an object's members.
fn push_member(ms: &mut Vec<(String, Json)>, key: &str, v: Json)
    ensures
        members_text(final(ms)@) == if old(ms)@.len() == 0 {
            json_member(key@, json_text(v))
        } else {
            members_text(old(ms)@) + seq![','] + json_member(key@, json_text(v))
        },
{
    let ghost before = ms@;
    ms.push((string_of(&chars_of(key)), v));
    proof {
        assert(ms@.drop_last() == before);
        if before.len() == 0 {
            assert(ms@[0] == ms@.last());
        }
    }
}

/// A number written in decimal, as a JSON value.
fn number_u64(n: u64) -> (r: Json)
    ensures
        json_text(r) == decimal(n as nat),
{
    Json::Number(string_of(&u64_to_decimal(n)))
}

/// A signed number written in decimal, as a JSON value.
fn number_i64(n: i64) -> (r: Json)
    ensures
        json_text(r) == padded_int(n as int, 0),
{
    Json::Number(string_of(&i64_to_padded(n, 0)))
}

/// A copy of a string, as a JSON value.
fn text_value(s: &String) -> (r: Json)
    ensures
        json_text(r) == json_quoted(s@),
{
    Json::Str(string_of(&chars_of(s.as_str())))
}

/// The data of a failing feed's alert.
#[verifier::rlimit(40)]
fn feed_data(f: &FailingFeed) -> (r: Json)
    ensures
        json_text(r) == feed_alert(*f).data,
{
    let mut ms: Vec<(String, Json)> = Vec::new();
    push_member(&mut ms, "failure_count", number_u64(f.failure_count as u64));
    push_member(&mut ms, "feed_id", text_value(&f.id));
    push_member(&mut ms, "feed_name", text_value(&f.name));
    push_member(&mut ms, "last_error", text_value(&f.last_error));
    let r = Json::Object(ms);
    assert(json_text(r) =~= feed_alert(*f).data);
    r
}

/// The body of a failing feed's alert.
fn feed_body(f: &FailingFeed) -> (r: String)
    ensures
        r@ == feed_alert(*f).body,
{
    let mut body = chars_of(f.name.as_str());
    push_all(&mut body, &chars_of(" has failed "));
    push_all(&mut body, &u64_to_decimal(f.failure_count as u64));
    push_all(&mut body, &chars_of(" consecutive fetches. Last error: "));
    push_all(&mut body, &chars_of(f.last_error.as_str()));
    string_of(&body)
}

/// The alert for a failing feed.
fn feed_event(f: &FailingFeed) -> (r: NewEvent)
    ensures
        event_view(r) == feed_alert(*f),
{
    let mut key = chars_of(f.id.as_str());
    push_all(&mut key, &chars_of(":"));
    push_all(&mut key, &u64_to_decimal(f.failure_count as u64));
    let mut title = chars_of("Feed failing: ");
    push_all(&mut title, &chars_of(f.name.as_str()));
    let ev = NewEvent {
        kind: EventKind::FeedFailing,
        priority: NotifyPriority::Normal,
        subject_id: Some(string_of(&chars_of(f.id.as_str()))),
        dedup_key: string_of(&key),
        title: string_of(&title),
        body: feed_body(f),
        link: None,
        data: feed_data(f),
    };
    assert(event_view(ev).dedup_key =~= feed_alert(*f).dedup_key);
    ev
}

/// The budget alert for the day holding `now`.
fn budget_event(b: BudgetAlert, now: i64) -> (r: NewEvent)
    ensures
        event_view(r) == budget_alert(b, now),
{
    let ghost gb = b;
    let pause = match b.verdict {
        BudgetVerdict::Pause => true,
        _ => false,
    };
    let label = if pause {
        chars_of("reached")
    } else {
        chars_of("past the alert threshold")
    };
    let mut key = chars_of(utc_day(now).as_str());
    push_all(&mut key, &chars_of(":"));
    push_all(&mut key, &label);
    let mut title = chars_of("Argus daily AI budget ");
    push_all(&mut title, &label);
    let ev = NewEvent {
        kind: EventKind::BudgetThreshold,
        priority: if pause {
            NotifyPriority::High
        } else {
            NotifyPriority::Normal
        },
        subject_id: None,
        dedup_key: string_of(&key),
        title: string_of(&title),
        body: b.body,
        link: None,
        data: b.data,
    };
    assert(event_view(ev).dedup_key =~= budget_alert(gb, now).dedup_key);
    assert(event_view(ev).title =~= budget_alert(gb, now).title);
    ev
}

/// The hour holding `now`, truncated as `/` does.
fn hour_of(now: i64) -> (r: i64)
    ensures
        r == hour_bucket(now),
{
    now / 3_600
}

/// The data of a queue-stuck alert.
fn stuck_data(h: &QueueHealth, stuck: i64, now: i64) -> (r: Json)
    ensures
        json_text(r) == stuck_alert(*h, stuck, now).data,
{
    let mut ms: Vec<(String, Json)> = Vec::new();
    push_member(&mut ms, "dead", number_u64(h.dead));
    push_member(&mut ms, "oldest_ready_age", number_i64(h.oldest_ready_age));
    push_member(&mut ms, "ready", number_u64(h.ready));
    push_member(&mut ms, "threshold_seconds", number_i64(stuck));
    let r = Json::Object(ms);
    assert(json_text(r) =~= stuck_alert(*h, stuck, now).data);
    r
}

/// The body of a queue-stuck alert.
fn stuck_body(h: &QueueHealth, stuck: i64, now: i64) -> (r: String)
    ensures
        r@ == stuck_alert(*h, stuck, now).body,
{
    let mut body = chars_of("The oldest eligible Argus job has been waiting ");
    push_all(&mut body, &i64_to_padded(h.oldest_ready_age, 0));
    push_all(&mut body, &chars_of("s ("));
    push_all(&mut body, &u64_to_decimal(h.ready));
    push_all(&mut body, &chars_of(" ready, "));
    push_all(&mut body, &u64_to_decimal(h.dead));
    push_all(&mut body, &chars_of(" dead-lettered). Check that the cron endpoint is being called."));
    string_of(&body)
}

/// The alert for a queue that is not draining.
fn stuck_event(h: &QueueHealth, stuck: i64, now: i64) -> (r: NewEvent)
    ensures
        event_view(r) == stuck_alert(*h, stuck, now),
{
    NewEvent {
        kind: EventKind::QueueStuck,
        priority: NotifyPriority::High,
        subject_id: None,
        dedup_key: string_of(&i64_to_padded(hour_of(now), 0)),
        title: "Argus queue is not draining".to_owned(),
        body: stuck_body(h, stuck, now),
        link: None,
        data: stuck_data(h, stuck, now),
    }
}

/// Recording one more alert in order extends the record, counting it once
/// more when it was new.
proof fn lemma_extend_recorded<N: NotifyStore + ?Sized, Q: JobQueue + ?Sized>(
    notify: &N,
    queue: &Q,
    evs: Seq<NewEventView>,
    now: i64,
    outs: Seq<bool>,
    b: bool,
)
    requires
        all_recorded(notify, queue, evs, now, outs),
        outs.len() < evs.len(),
        recorded_as(notify, queue, evs[outs.len() as int], now, Ok(b)),
    ensures
        all_recorded(notify, queue, evs, now, outs.push(b)),
        count_true(outs.push(b)) == count_true(outs) + if b {
            1nat
        } else {
            0nat
        },
        count_true(outs) <= outs.len(),
{
    assert(outs.push(b).drop_last() == outs);
    assert forall|i: int| 0 <= i < outs.push(b).len() implies recorded_as(
        notify,
        queue,
        evs[i],
        now,
        Ok(#[trigger] outs.push(b)[i]),
    ) by {
        if i < outs.len() {
            assert(outs.push(b)[i] == outs[i]);
        }
    }
    lemma_count_true_bound(outs);
}

/// At most every one of `outs` is `true`.
proof fn lemma_count_true_bound(outs: Seq<bool>)
    ensures
        count_true(outs) <= outs.len(),
    decreases outs.len(),
{
    if outs.len() > 0 {
        lemma_count_true_bound(outs.drop_last());
    }
}

/// The alert pass once the failing feeds are known (see `run_alerts`).
fn alert_pass<N: NotifyStore + ?Sized, Q: JobQueue + ?Sized>(
    notify: &N,
    queue: &Q,
    budget: BudgetAlert,
    stuck: i64,
    now: i64,
    feeds: &Vec<FailingFeed>,
) -> (r: CoreResult<AlertReport>)
    ensures
        alerts_after_feeds(notify, queue, budget, stuck, now, feeds@, r),
{
    let ghost evs = early_alerts(feeds@, budget, now);
    let ghost mut outs: Seq<bool> = Seq::empty();
    let mut n: usize = 0;
    let mut i: usize = 0;
    assert(all_recorded(notify, queue, evs, now, outs));
    while i < feeds.len()
        invariant
            i <= feeds.len(),
            outs.len() == i,
            n == count_true(outs),
            n <= i,
            evs == early_alerts(feeds@, budget, now),
            all_recorded(notify, queue, evs, now, outs),
        decreases feeds.len() - i,
    {
        let ev = feed_event(&feeds[i]);
        assert(evs[i as int] == feed_alert(feeds@[i as int]));
        let o = record_alert(notify, queue, &ev, now);
        match o {
            Err(e) => {
                assert(recorded_as(notify, queue, evs[outs.len() as int], now, Err(e)));
                return Err(e);
            },
            Ok(b) => {
                proof {
                    lemma_extend_recorded(notify, queue, evs, now, outs, b);
                    outs = outs.push(b);
                }
                if b {
                    n += 1;
                }
            },
        }
        i += 1;
    }
    let budget_alerted = budget.verdict != BudgetVerdict::Clear;
    if budget_alerted {
        let ghost gb = budget;
        assert(evs[feeds@.len() as int] == budget_alert(gb, now));
        let ev = budget_event(budget, now);
        let o = record_alert(notify, queue, &ev, now);
        match o {
            Err(e) => {
                assert(recorded_as(notify, queue, evs[outs.len() as int], now, Err(e)));
                return Err(e);
            },
            Ok(b) => {
                proof {
                    lemma_extend_recorded(notify, queue, evs, now, outs, b);
                    outs = outs.push(b);
                }
                if b && n < usize::MAX {
                    n += 1;
                }
            },
        }
    }
    assert(n == fit_usize(count_true(outs) as int));
    assert(outs.len() == evs.len());
    assert(all_recorded(notify, queue, evs, now, outs));
    queue_check(notify, queue, stuck, now, feeds.len(), budget_alerted, n, Ghost(count_true(outs) as int))
}

/// The queue check that ends an alert pass, after `n` new alerts (the
/// report's count of `count`).
fn queue_check<N: NotifyStore + ?Sized, Q: JobQueue + ?Sized>(
    notify: &N,
    queue: &Q,
    stuck: i64,
    now: i64,
    feeds: usize,
    budget_alerted: bool,
    n: usize,
    Ghost(count): Ghost<int>,
) -> (r: CoreResult<AlertReport>)
    requires
        n == fit_usize(count),
        count >= 0,
    ensures
        alerts_tail(notify, queue, stuck, now, feeds as int, budget_alerted, count, r),
{
    if stuck <= 0 {
        return Ok(AlertReport { feeds_failing: feeds, budget_alerted, queue_alerted: false, events_recorded: n });
    }
    let hb = notify.queue_health(now);
    assert(notify.health_answer(now, hb));
    let h = match hb {
        Err(e) => return Err(e),
        Ok(h) => h,
    };
    if h.oldest_ready_age > stuck {
        let ev = stuck_event(&h, stuck, now);
        let o = record_alert(notify, queue, &ev, now);
        assert(recorded_as(notify, queue, stuck_alert(h, stuck, now), now, o));
        match o {
            Err(e) => Err(e),
            Ok(b) => {
                let events_recorded = if b && n < usize::MAX {
                    n + 1
                } else {
                    n
                };
                Ok(AlertReport { feeds_failing: feeds, budget_alerted, queue_alerted: true, events_recorded })
            },
        }
    } else {
        Ok(AlertReport { feeds_failing: feeds, budget_alerted, queue_alerted: false, events_recorded: n })
    }
}

/// Record the operator alerts the current state justifies, and enqueue
/// each new one to notify (priority `NOTIFY_PRIORITY`, no delay).
///
/// With alerts disabled nothing is done. Otherwise, in order: one alert per
/// feed that has failed `feed_failure_threshold` times in a row (when that
/// threshold is positive; at most `MAX_FAILING_FEEDS_PER_PASS` feeds), the
/// budget alert unless the day is clear, and, when `queue_stuck_seconds` is
/// positive, an alert if the oldest eligible job has waited longer. Every
/// alert's dedup key is deliberately coarse (a feed and its failure count,
/// a day and a verdict, an hour), so a condition that persists produces a
/// handful of rows rather than one per pass. The first store or queue error
/// stops the pass and is propagated.
pub fn run_alerts<N: NotifyStore + ?Sized, Q: JobQueue + ?Sized>(
    notify: &N,
    queue: &Q,
    budget: BudgetAlert,
    alerts_enabled: bool,
    feed_failure_threshold: u32,
    queue_stuck_seconds: i64,
    now: i64,
) -> (r: CoreResult<AlertReport>)
    ensures
        alerts_run(notify, queue, budget, alerts_enabled, feed_failure_threshold, queue_stuck_seconds, now, r),
        !alerts_enabled ==> r == Ok::<AlertReport, CoreError>(
            AlertReport { feeds_failing: 0, budget_alerted: false, queue_alerted: false, events_recorded: 0 },
        ),
        alerts_enabled ==> (r matches Ok(rep) ==> rep.budget_alerted == (budget.verdict != BudgetVerdict::Clear)),
{
    if !alerts_enabled {
        return Ok(AlertReport::default());
    }
    let feeds: Vec<FailingFeed> = if feed_failure_threshold > 0 {
        let fa = notify.failing_feeds(feed_failure_threshold, MAX_FAILING_FEEDS_PER_PASS);
        assert(notify.failing_answer(feed_failure_threshold, MAX_FAILING_FEEDS_PER_PASS, fa));
        match fa {
            Ok(v) => v,
            Err(e) => return Err(e),
        }
    } else {
        Vec::new()
    };
    let ghost gb = budget;
    let r = alert_pass(notify, queue, budget, queue_stuck_seconds, now, &feeds);
    proof {
        if feed_failure_threshold == 0 {
            assert(feeds@ =~= seq![]);
        }
        lemma_alerts_budget_flag(notify, queue, gb, queue_stuck_seconds, now, feeds@, r);
    }
    r
}

/// A pass that ends well reports the budget alert exactly when the day is
/// not clear.
proof fn lemma_alerts_budget_flag<N: NotifyStore + ?Sized, Q: JobQueue + ?Sized>(
    notify: &N,
    queue: &Q,
    budget: BudgetAlert,
    stuck: i64,
    now: i64,
    feeds: Seq<FailingFeed>,
    r: CoreResult<AlertReport>,
)
    requires
        alerts_after_feeds(notify, queue, budget, stuck, now, feeds, r),
    ensures
        r matches Ok(rep) ==> rep.budget_alerted == (budget.verdict != BudgetVerdict::Clear),
{
}
} // verus!
