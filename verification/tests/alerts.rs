use std::cell::RefCell;

use argus_core::budget::BudgetVerdict;
use argus_core::error::CoreResult;
use argus_core::json::Json;
use argus_core::model::Stage;
use argus_core::notify::{
    ChannelConfig, ChannelOutcome, EventKind, EventState, NewEvent, Notification, NotifyPriority, StoredEvent,
};
use argus_core::pipeline::{run_alerts, AlertReport, BudgetAlert};
use argus_core::ports::{EnqueueOpts, FailingFeed, JobPayload, JobQueue, NotifyStore, QueueHealth};

const NOON: i64 = 1_767_225_600 + 12 * 3_600;
const THRESHOLD: u32 = 3;
const STUCK: i64 = 900;

#[derive(Default)]
struct FakeNotify {
    events: RefCell<Vec<NewEvent>>,
    failing: RefCell<Vec<FailingFeed>>,
    health: RefCell<QueueHealth>,
}

impl NotifyStore for FakeNotify {
    fn record_event(&self, event: &NewEvent, _now: i64) -> CoreResult<Option<String>> {
        let mut events = self.events.borrow_mut();
        if events.iter().any(|e| e.kind == event.kind && e.dedup_key == event.dedup_key) {
            return Ok(None);
        }
        events.push(NewEvent {
            kind: event.kind,
            priority: event.priority,
            subject_id: event.subject_id.clone(),
            dedup_key: event.dedup_key.clone(),
            title: event.title.clone(),
            body: event.body.clone(),
            link: event.link.clone(),
            data: Json::Null,
        });
        Ok(Some(format!("evt-{}", events.len())))
    }
    fn load_event(&self, _id: &str) -> CoreResult<Option<StoredEvent>> {
        Ok(None)
    }
    fn load_channels(&self) -> CoreResult<Vec<ChannelConfig>> {
        Ok(Vec::new())
    }
    fn load_channel(&self, _id: &str) -> CoreResult<Option<ChannelConfig>> {
        Ok(None)
    }
    fn last_sent_at(&self, _subject: &str) -> CoreResult<Option<i64>> {
        Ok(None)
    }
    fn topic_priority(&self, _topic: &str) -> CoreResult<NotifyPriority> {
        Ok(NotifyPriority::Normal)
    }
    fn pending_digestible(&self, _head: &str, _start: i64, _now: i64) -> CoreResult<usize> {
        Ok(0)
    }
    fn claim_digest(&self, _head: &str, _start: i64, _limit: usize, _now: i64) -> CoreResult<Vec<StoredEvent>> {
        Ok(Vec::new())
    }
    fn promote_to_digest(&self, _id: &str, _d: &Notification, _folded: usize, _now: i64) -> CoreResult<()> {
        Ok(())
    }
    fn set_event_state(&self, _id: &str, _s: EventState, _r: Option<&str>, _now: i64) -> CoreResult<()> {
        Ok(())
    }
    fn reschedule_event(&self, _id: &str, _at: i64) -> CoreResult<()> {
        Ok(())
    }
    fn record_delivery(&self, _id: &str, _o: &ChannelOutcome, _now: i64) -> CoreResult<u32> {
        Ok(1)
    }
    fn note_channel_health(&self, _id: &str, _ok: bool, _e: Option<&str>, _now: i64) -> CoreResult<()> {
        Ok(())
    }
    fn failing_feeds(&self, threshold: u32, limit: usize) -> CoreResult<Vec<FailingFeed>> {
        Ok(self
            .failing
            .borrow()
            .iter()
            .filter(|f| f.failure_count >= threshold)
            .take(limit)
            .cloned()
            .collect())
    }
    fn queue_health(&self, _now: i64) -> CoreResult<QueueHealth> {
        Ok(*self.health.borrow())
    }
}

#[derive(Default)]
struct RecordingQueue {
    jobs: RefCell<Vec<(JobPayload, EnqueueOpts)>>,
}
impl JobQueue for RecordingQueue {
    fn enqueue(&self, job: &JobPayload, opts: EnqueueOpts) -> CoreResult<()> {
        self.jobs.borrow_mut().push((job.clone(), opts));
        Ok(())
    }
}
impl RecordingQueue {
    fn count(&self, stage: Stage) -> usize {
        self.jobs.borrow().iter().filter(|(j, _)| j.stage == stage).count()
    }
}

fn failing_feed(id: &str, count: u32) -> FailingFeed {
    FailingFeed { id: id.into(), name: format!("Feed {id}"), failure_count: count, last_error: "HTTP 503".into() }
}

fn clear() -> BudgetAlert {
    BudgetAlert { verdict: BudgetVerdict::Clear, body: String::new(), data: Json::Null }
}

fn paused() -> BudgetAlert {
    BudgetAlert {
        verdict: BudgetVerdict::Pause,
        body: "Argus has spent $12.0000 of its $10.0000 daily limit.".into(),
        data: Json::Object(vec![("verdict".into(), Json::Str("pause".into()))]),
    }
}

fn nothing() -> AlertReport {
    AlertReport { feeds_failing: 0, budget_alerted: false, queue_alerted: false, events_recorded: 0 }
}

#[test]
fn the_alert_pass_records_a_feed_a_budget_and_a_queue_alert() {
    let notify = FakeNotify::default();
    *notify.failing.borrow_mut() = vec![failing_feed("feed-1", 4), failing_feed("feed-2", 3)];
    *notify.health.borrow_mut() = QueueHealth { oldest_ready_age: 4_000, ready: 120, dead: 2 };
    let queue = RecordingQueue::default();

    let report = run_alerts(&notify, &queue, paused(), true, THRESHOLD, STUCK, NOON).unwrap();

    assert_eq!(report.feeds_failing, 2);
    assert!(report.budget_alerted);
    assert!(report.queue_alerted);
    assert_eq!(report.events_recorded, 4);
    assert_eq!(queue.count(Stage::Notify), 4);
    assert!(queue.jobs.borrow().iter().all(|(_, o)| o.priority == 4 && o.delay == 0));

    let events = notify.events.borrow();
    let kinds: Vec<EventKind> = events.iter().map(|e| e.kind).collect();
    assert_eq!(
        kinds,
        vec![EventKind::FeedFailing, EventKind::FeedFailing, EventKind::BudgetThreshold, EventKind::QueueStuck]
    );
    assert_eq!(events[2].priority, NotifyPriority::High);
    assert_eq!(events[3].priority, NotifyPriority::High);
    assert_eq!(events[0].dedup_key, "feed-1:4");
    assert_eq!(events[0].title, "Feed failing: Feed feed-1");
    assert_eq!(events[0].body, "Feed feed-1 has failed 4 consecutive fetches. Last error: HTTP 503");
    assert_eq!(events[2].dedup_key, "2026-01-01:reached");
    assert_eq!(events[2].title, "Argus daily AI budget reached");
    assert_eq!(events[3].dedup_key, format!("{}", NOON / 3_600));
    assert_eq!(
        events[3].body,
        "The oldest eligible Argus job has been waiting 4000s (120 ready, 2 dead-lettered). \
         Check that the cron endpoint is being called."
    );
}

#[test]
fn a_persistent_condition_does_not_re_alert_every_cron_cycle() {
    let notify = FakeNotify::default();
    *notify.failing.borrow_mut() = vec![failing_feed("feed-1", 4)];
    *notify.health.borrow_mut() = QueueHealth { oldest_ready_age: 4_000, ready: 10, dead: 0 };
    let queue = RecordingQueue::default();

    let first = run_alerts(&notify, &queue, paused(), true, THRESHOLD, STUCK, NOON).unwrap();
    let second = run_alerts(&notify, &queue, paused(), true, THRESHOLD, STUCK, NOON + 60).unwrap();

    assert_eq!(first.events_recorded, 3);
    assert_eq!(second.events_recorded, 0, "every key was already known");
    assert_eq!(notify.events.borrow().len(), 3);
}

#[test]
fn a_feed_that_fails_again_is_a_new_alert() {
    let notify = FakeNotify::default();
    *notify.failing.borrow_mut() = vec![failing_feed("feed-1", 3)];
    let queue = RecordingQueue::default();

    run_alerts(&notify, &queue, clear(), true, THRESHOLD, STUCK, NOON).unwrap();
    *notify.failing.borrow_mut() = vec![failing_feed("feed-1", 4)];
    let second = run_alerts(&notify, &queue, clear(), true, THRESHOLD, STUCK, NOON + 900).unwrap();

    assert_eq!(second.events_recorded, 1);
    assert_eq!(notify.events.borrow().len(), 2);
}

#[test]
fn a_healthy_pipeline_records_no_alerts() {
    let notify = FakeNotify::default();
    let queue = RecordingQueue::default();
    let report = run_alerts(&notify, &queue, clear(), true, THRESHOLD, STUCK, NOON).unwrap();
    assert_eq!(report, nothing());
    assert_eq!(queue.jobs.borrow().len(), 0);
}

#[test]
fn the_alert_pass_can_be_switched_off_entirely() {
    let notify = FakeNotify::default();
    *notify.failing.borrow_mut() = vec![failing_feed("feed-1", 9)];
    *notify.health.borrow_mut() = QueueHealth { oldest_ready_age: 99_999, ready: 1, dead: 1 };
    let queue = RecordingQueue::default();
    let report = run_alerts(&notify, &queue, paused(), false, THRESHOLD, STUCK, NOON).unwrap();
    assert_eq!(report, nothing());
    assert!(notify.events.borrow().is_empty());
}

#[test]
fn a_queue_below_the_stuck_threshold_is_not_alerted_on() {
    let notify = FakeNotify::default();
    *notify.health.borrow_mut() = QueueHealth { oldest_ready_age: 899, ready: 5, dead: 0 };
    let queue = RecordingQueue::default();
    let report = run_alerts(&notify, &queue, clear(), true, THRESHOLD, STUCK, NOON).unwrap();
    assert!(!report.queue_alerted);
}

#[test]
fn a_warning_budget_alert_is_normal_priority_and_keyed_on_the_threshold() {
    let notify = FakeNotify::default();
    let queue = RecordingQueue::default();
    let warn = BudgetAlert { verdict: BudgetVerdict::Warn, body: "warned".into(), data: Json::Null };
    let report = run_alerts(&notify, &queue, warn, true, 0, 0, NOON).unwrap();
    assert!(report.budget_alerted);
    assert_eq!(report.events_recorded, 1);
    let events = notify.events.borrow();
    assert_eq!(events[0].priority, NotifyPriority::Normal);
    assert_eq!(events[0].dedup_key, "2026-01-01:past the alert threshold");
    assert_eq!(events[0].body, "warned");
}

#[test]
fn a_stuck_alert_before_the_epoch_keys_on_the_truncated_hour() {
    let notify = FakeNotify::default();
    *notify.health.borrow_mut() = QueueHealth { oldest_ready_age: 5_000, ready: 1, dead: 0 };
    let queue = RecordingQueue::default();
    run_alerts(&notify, &queue, clear(), true, 0, STUCK, -3_601).unwrap();
    assert_eq!(notify.events.borrow()[0].dedup_key, "-1");
}
