use std::cell::RefCell;
use std::collections::HashMap;

use argus_core::error::{CoreError, CoreResult};
use argus_core::model::{PipelineState, Stage};
use argus_core::pipeline::{fetch_failure_outcome, run_fetch, semantic_embed_text, settle_decision, FetchReport};
use argus_core::ports::{
    ConditionalHeaders, DecideContext, EmbedContext, EnqueueOpts, Feed, FeedSchedule,
    FetchOutcome, Fetcher, JobPayload, JobQueue, NewArticle, Store, UpsertResult,
};

#[derive(Default)]
struct FakeStore {
    feeds: RefCell<HashMap<String, Feed>>,
    articles: RefCell<HashMap<String, (String, DecideContext)>>,
    next_id: RefCell<u64>,
    feed_success: RefCell<u32>,
    feed_failure: RefCell<u32>,
    cursor: RefCell<u64>,
    decisions: RefCell<Vec<(String, u8, String, bool)>>,
}

impl FakeStore {
    fn with_feed(self, id: &str, url: &str) -> Self {
        self.feeds.borrow_mut().insert(
            id.to_string(),
            Feed {
                id: id.to_string(),
                url: url.to_string(),
                topic_id: "topic-1".to_string(),
                conditional: ConditionalHeaders::default(),
            },
        );
        self
    }
    fn article_count(&self) -> usize {
        self.articles.borrow().len()
    }
}

impl Store for FakeStore {
    fn load_feed(&self, feed_id: &str) -> CoreResult<Option<Feed>> {
        Ok(self.feeds.borrow().get(feed_id).cloned())
    }
    fn load_enabled_feeds(&self) -> CoreResult<Vec<FeedSchedule>> {
        Ok(Vec::new())
    }
    fn upsert_article(&self, a: &NewArticle) -> CoreResult<UpsertResult> {
        let mut arts = self.articles.borrow_mut();
        if let Some((id, _)) = arts.get(&a.url) {
            return Ok(UpsertResult { id: id.clone(), inserted: false });
        }
        let mut next = self.next_id.borrow_mut();
        *next += 1;
        let id = format!("art-{next}");
        arts.insert(
            a.url.clone(),
            (
                id.clone(),
                DecideContext {
                    title: a.title.clone(),
                    content: a.content.clone(),
                    topic_prompt: "TOPIC".to_string(),
                    threshold: 50,
                },
            ),
        );
        Ok(UpsertResult { id, inserted: true })
    }
    fn record_feed_success(&self, _f: &str, _c: &ConditionalHeaders, _n: i64) -> CoreResult<()> {
        *self.feed_success.borrow_mut() += 1;
        Ok(())
    }
    fn record_feed_failure(&self, _f: &str, _e: &str, _n: i64) -> CoreResult<()> {
        *self.feed_failure.borrow_mut() += 1;
        Ok(())
    }
    fn load_decide_context(&self, _id: &str) -> CoreResult<Option<DecideContext>> {
        Ok(None)
    }
    fn record_decision(&self, id: &str, s: u8, r: &str, k: bool) -> CoreResult<()> {
        self.decisions.borrow_mut().push((id.to_string(), s, r.to_string(), k));
        Ok(())
    }
    fn set_state(&self, _id: &str, _state: PipelineState) -> CoreResult<()> {
        Ok(())
    }
    fn record_article_error(&self, _id: &str, _e: &str) -> CoreResult<()> {
        Ok(())
    }
    fn load_cursor(&self) -> CoreResult<u64> {
        Ok(*self.cursor.borrow())
    }
    fn save_cursor(&self, cursor: u64) -> CoreResult<()> {
        *self.cursor.borrow_mut() = cursor;
        Ok(())
    }
}

#[derive(Default)]
struct RecordingQueue {
    jobs: RefCell<Vec<(JobPayload, EnqueueOpts)>>,
}
impl JobQueue for RecordingQueue {
    fn enqueue(&self, job: &JobPayload, opts: EnqueueOpts) -> CoreResult<()> {
        self.jobs.borrow_mut().push((job.clone(), opts));
        Ok(())
    }
}
impl RecordingQueue {
    fn stages(&self) -> Vec<Stage> {
        self.jobs.borrow().iter().map(|(j, _)| j.stage).collect()
    }
    fn len(&self) -> usize {
        self.jobs.borrow().len()
    }
}

struct ScriptedFetcher(FetchOutcome);
impl Fetcher for ScriptedFetcher {
    fn fetch(&self, _url: &str, _c: &ConditionalHeaders) -> CoreResult<FetchOutcome> {
        Ok(self.0.clone())
    }
}
struct RefusingFetcher;
impl Fetcher for RefusingFetcher {
    fn fetch(&self, _url: &str, _c: &ConditionalHeaders) -> CoreResult<FetchOutcome> {
        Err(CoreError::FetchRefused("blocked private IP".to_string()))
    }
}
struct FlakyFetcher;
impl Fetcher for FlakyFetcher {
    fn fetch(&self, _url: &str, _c: &ConditionalHeaders) -> CoreResult<FetchOutcome> {
        Err(CoreError::Fetch("connection reset".to_string()))
    }
}

const RSS_TWO: &str = r#"<rss version="2.0"><channel>
  <item><title>One</title><link>https://x.test/1</link><description>b</description></item>
  <item><title>Two</title><link>https://x.test/2</link><description>b</description></item>
</channel></rss>"#;

#[test]
fn fetch_ingests_and_enqueues_new_articles() {
    let store = FakeStore::default().with_feed("feed-1", "https://x.test/rss");
    let queue = RecordingQueue::default();
    let fetcher = ScriptedFetcher(FetchOutcome::Fetched {
        body: RSS_TWO.to_string(),
        etag: Some("etag-1".into()),
        last_modified: None,
    });
    let report = run_fetch(&fetcher, &store, &queue, "feed-1", 1000).unwrap();
    assert_eq!(report.parsed, 2);
    assert_eq!(report.ingested, 2);
    assert_eq!(store.article_count(), 2);
    assert_eq!(queue.len(), 2);
    assert!(queue.stages().iter().all(|s| *s == Stage::Decide));
    assert_eq!(*store.feed_success.borrow(), 1);
}

#[test]
fn fetch_replay_is_idempotent() {
    let store = FakeStore::default().with_feed("feed-1", "https://x.test/rss");
    let queue = RecordingQueue::default();
    let fetcher = ScriptedFetcher(FetchOutcome::Fetched {
        body: RSS_TWO.to_string(),
        etag: None,
        last_modified: None,
    });
    run_fetch(&fetcher, &store, &queue, "feed-1", 1000).unwrap();
    let after_first = store.article_count();
    let report = run_fetch(&fetcher, &store, &queue, "feed-1", 2000).unwrap();
    assert_eq!(store.article_count(), after_first, "no duplicate rows");
    assert_eq!(report.ingested, 0, "re-seen URLs are not ingested");
    assert_eq!(queue.len(), 2, "no re-enqueue on replay");
}

#[test]
fn fetch_not_modified_touches_only() {
    let store = FakeStore::default().with_feed("feed-1", "https://x.test/rss");
    let queue = RecordingQueue::default();
    let fetcher = ScriptedFetcher(FetchOutcome::NotModified);
    let report = run_fetch(&fetcher, &store, &queue, "feed-1", 1000).unwrap();
    assert!(report.not_modified);
    assert_eq!(store.article_count(), 0);
    assert_eq!(*store.feed_success.borrow(), 1);
}

#[test]
fn fetch_refused_flags_feed_no_crash() {
    let store = FakeStore::default().with_feed("feed-1", "http://169.254.169.254/");
    let queue = RecordingQueue::default();
    let report = run_fetch(&RefusingFetcher, &store, &queue, "feed-1", 1000).unwrap();
    assert!(report.feed_flagged);
    assert_eq!(*store.feed_failure.borrow(), 1);
    assert_eq!(*store.feed_success.borrow(), 0);
}

#[test]
fn fetch_transient_records_and_retries() {
    let store = FakeStore::default().with_feed("feed-1", "https://x.test/rss");
    let queue = RecordingQueue::default();
    let err = run_fetch(&FlakyFetcher, &store, &queue, "feed-1", 1000).unwrap_err();
    assert!(err.is_transient(), "network failure must retry");
    assert_eq!(*store.feed_failure.borrow(), 1);
}

#[test]
fn fetch_missing_feed_drops() {
    let store = FakeStore::default();
    let queue = RecordingQueue::default();
    let fetcher = ScriptedFetcher(FetchOutcome::NotModified);
    let report = run_fetch(&fetcher, &store, &queue, "gone", 1000).unwrap();
    assert_eq!(report, FetchReport::default());
}

#[test]
fn fetch_of_a_malformed_body_flags_the_feed() {
    let store = FakeStore::default().with_feed("feed-1", "https://x.test/rss");
    let queue = RecordingQueue::default();
    let fetcher = ScriptedFetcher(FetchOutcome::Fetched {
        body: "<html/>".to_string(),
        etag: None,
        last_modified: None,
    });
    let report = run_fetch(&fetcher, &store, &queue, "feed-1", 1000).unwrap();
    assert!(report.feed_flagged);
    assert_eq!(queue.len(), 0);
    assert_eq!(*store.feed_failure.borrow(), 1);
}

#[test]
fn the_semantic_route_embeds_title_summary_and_entities() {
    let ctx = EmbedContext {
        title: "Quake hits the coast".into(),
        summary: "A magnitude 6 quake struck early Tuesday.".into(),
        entities: vec!["Pacific Coast".into(), "USGS".into()],
    };
    let text = semantic_embed_text(&ctx);
    assert!(text.contains("Quake hits the coast"));
    assert!(text.contains("magnitude 6"));
    assert!(text.contains("Pacific Coast") && text.contains("USGS"));
}

#[test]
fn semantic_embed_text_skips_blanks_and_trims() {
    let ctx = EmbedContext {
        title: "  Title ".into(),
        summary: "   ".into(),
        entities: vec!["".into(), " USGS ".into()],
    };
    assert_eq!(semantic_embed_text(&ctx), "Title\nUSGS");
}

#[test]
fn fetch_failure_outcome_transient_propagates_refusal_flags() {
    match fetch_failure_outcome(CoreError::Fetch("timeout".to_string())) {
        Err(CoreError::Fetch(m)) => assert_eq!(m, "timeout"),
        other => panic!("unexpected {:?}", other),
    }
    let flagged = fetch_failure_outcome(CoreError::FetchRefused("private".to_string())).unwrap();
    assert_eq!(
        flagged,
        FetchReport { not_modified: false, parsed: 0, ingested: 0, feed_flagged: true }
    );
}

#[test]
fn decide_keeps_survivor_and_enqueues_analyze() {
    let store = FakeStore::default();
    let queue = RecordingQueue::default();
    let reply = Ok(r#"{"score": 90, "reason": "hot"}"#.to_string());
    let (score, kept) = settle_decision(&store, &queue, "art-1", 50, reply).unwrap();
    assert_eq!(score, Some(90));
    assert!(kept);
    assert_eq!(
        store.decisions.borrow().clone(),
        vec![("art-1".to_string(), 90, "hot".to_string(), true)]
    );
    assert_eq!(queue.len(), 1);
    assert_eq!(queue.stages(), vec![Stage::Analyze]);
    assert_eq!(queue.jobs.borrow()[0].0.id, "art-1");
    assert_eq!(queue.jobs.borrow()[0].1.priority, 5);
}

#[test]
fn decide_discards_below_threshold_stores_score() {
    let store = FakeStore::default();
    let queue = RecordingQueue::default();
    let reply = Ok(r#"{"score": 12, "reason": "off"}"#.to_string());
    let (score, kept) = settle_decision(&store, &queue, "art-1", 50, reply).unwrap();
    assert!(!kept);
    assert_eq!(score, Some(12), "score stored even when discarded");
    assert_eq!(store.decisions.borrow()[0].1, 12);
    assert!(!store.decisions.borrow()[0].3);
    assert_eq!(queue.len(), 0);
}

#[test]
fn decide_malformed_discards_no_retry() {
    let store = FakeStore::default();
    let queue = RecordingQueue::default();
    let reply = Ok("I think it's relevant.".to_string());
    let (score, kept) = settle_decision(&store, &queue, "art-1", 50, reply).unwrap();
    assert!(!kept);
    assert_eq!(score, None);
    let d = store.decisions.borrow()[0].clone();
    assert_eq!(d.1, 0);
    assert!(!d.3);
    assert_eq!(d.2, "unparseable model output: decision parse error: no JSON object in the model output");
    assert_eq!(queue.len(), 0);
}

#[test]
fn decide_provider_error_propagates_for_retry() {
    let store = FakeStore::default();
    let queue = RecordingQueue::default();
    let err = settle_decision(&store, &queue, "art-1", 50, Err(CoreError::Provider("down".into()))).unwrap_err();
    assert!(err.is_transient());
    assert!(store.decisions.borrow().is_empty(), "nothing recorded, so the retry re-decides cleanly");
}

#[test]
fn settle_decision_keeps_a_score_at_the_threshold_and_names_a_missing_score() {
    let store = FakeStore::default();
    let queue = RecordingQueue::default();
    let (score, kept) = settle_decision(&store, &queue, "a", 50, Ok(r#"{"score": "50"}"#.to_string())).unwrap();
    assert_eq!((score, kept), (Some(50), true));
    let (score, kept) = settle_decision(&store, &queue, "b", 50, Ok(r#"{"reason": "x"}"#.to_string())).unwrap();
    assert_eq!((score, kept), (None, false));
    assert_eq!(
        store.decisions.borrow()[1].2,
        r#"unparseable model output: decision parse error: no `score` field in {"reason":"x"}"#
    );
    let (score, _) =
        settle_decision(&store, &queue, "c", 50, Err(CoreError::Invalid("bad model".into()))).unwrap();
    assert_eq!(score, None);
    assert_eq!(store.decisions.borrow()[2].2, "unparseable model output: invalid input: bad model");
}
