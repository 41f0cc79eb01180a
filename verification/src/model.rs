//! Pure domain types shared across the pipeline: an article's lifecycle
//! state, the stage discriminator carried in queue payloads, a parsed feed
//! entry and a decoded relevance decision.

use vstd::prelude::*;
use crate::text::str_eq;

verus! {

/// The lifecycle state of an article as it moves through the pipeline.
///
/// The terminal states are `Discarded`, `Complete` and `Error`. The happy path
/// is `Fetched` → `Decided` → `Analyzed` → `Embedded` → `Complete`.
#[derive(Debug, Clone, Copy, PartialEq, Eq, Structural)]
pub enum PipelineState {
    /// Freshly ingested from a feed, awaiting the decide stage.
    Fetched,
    /// Passed the decide threshold; awaiting analyze.
    Decided,
    /// Analyze stage claimed the article.
    Analyzing,
    /// Analyze finished; awaiting embed.
    Analyzed,
    /// A feature vector was stored; awaiting cluster.
    Embedded,
    /// Clustering deferred this article as too close to call.
    Waiting,
    /// Fully processed.
    Complete,
    /// Scored below the topic threshold at decide. Terminal.
    Discarded,
    /// A permanent failure was recorded against this article. Terminal.
    Error,
}

/// The column value of a pipeline state.
pub open spec fn state_column(s: PipelineState) -> Seq<char> {
    match s {
        PipelineState::Fetched => "fetched"@,
        PipelineState::Decided => "decided"@,
        PipelineState::Analyzing => "analyzing"@,
        PipelineState::Analyzed => "analyzed"@,
        PipelineState::Embedded => "embedded"@,
        PipelineState::Waiting => "waiting"@,
        PipelineState::Complete => "complete"@,
        PipelineState::Discarded => "discarded"@,
        PipelineState::Error => "error"@,
    }
}

/// The state whose column value is `s`, if any.
pub open spec fn state_from_column(s: Seq<char>) -> Option<PipelineState> {
    if s == "fetched"@ {
        Some(PipelineState::Fetched)
    } else if s == "decided"@ {
        Some(PipelineState::Decided)
    } else if s == "analyzing"@ {
        Some(PipelineState::Analyzing)
    } else if s == "analyzed"@ {
        Some(PipelineState::Analyzed)
    } else if s == "embedded"@ {
        Some(PipelineState::Embedded)
    } else if s == "waiting"@ {
        Some(PipelineState::Waiting)
    } else if s == "complete"@ {
        Some(PipelineState::Complete)
    } else if s == "discarded"@ {
        Some(PipelineState::Discarded)
    } else if s == "error"@ {
        Some(PipelineState::Error)
    } else {
        None
    }
}

/// Whether a state ends the pipeline for its article.
pub open spec fn state_is_terminal(s: PipelineState) -> bool {
    s == PipelineState::Complete || s == PipelineState::Discarded || s == PipelineState::Error
}

impl PipelineState {
    /// The lowercase snake_case string persisted in the `pipeline_state` column.
    pub fn as_str(&self) -> (r: &'static str)
        ensures
            r@ == state_column(*self),
    {
        match self {
            PipelineState::Fetched => "fetched",
            PipelineState::Decided => "decided",
            PipelineState::Analyzing => "analyzing",
            PipelineState::Analyzed => "analyzed",
            PipelineState::Embedded => "embedded",
            PipelineState::Waiting => "waiting",
            PipelineState::Complete => "complete",
            PipelineState::Discarded => "discarded",
            PipelineState::Error => "error",
        }
    }

    /// Whether the pipeline is finished with this article.
    pub fn is_terminal(&self) -> (r: bool)
        ensures
            r == state_is_terminal(*self),
    {
        match self {
            PipelineState::Complete | PipelineState::Discarded | PipelineState::Error => true,
            _ => false,
        }
    }

    /// Every terminal state's column value, for the retention sweep's `IN` clause.
    pub fn terminal_columns() -> (r: Vec<&'static str>)
        ensures
            r@.len() == 3,
            r@[0]@ == state_column(PipelineState::Complete),
            r@[1]@ == state_column(PipelineState::Discarded),
            r@[2]@ == state_column(PipelineState::Error),
    {
        vec!["complete", "discarded", "error"]
    }

    /// Parse a `pipeline_state` column value back into the enum.
    pub fn from_column(s: &str) -> (r: Option<PipelineState>)
        ensures
            r == state_from_column(s@),
    {
        if str_eq(s, "fetched") {
            Some(PipelineState::Fetched)
        } else if str_eq(s, "decided") {
            Some(PipelineState::Decided)
        } else if str_eq(s, "analyzing") {
            Some(PipelineState::Analyzing)
        } else if str_eq(s, "analyzed") {
            Some(PipelineState::Analyzed)
        } else if str_eq(s, "embedded") {
            Some(PipelineState::Embedded)
        } else if str_eq(s, "waiting") {
            Some(PipelineState::Waiting)
        } else if str_eq(s, "complete") {
            Some(PipelineState::Complete)
        } else if str_eq(s, "discarded") {
            Some(PipelineState::Discarded)
        } else if str_eq(s, "error") {
            Some(PipelineState::Error)
        } else {
            None
        }
    }
}

/// Every state reads back from its own column value.
pub proof fn lemma_state_column_round_trip(s: PipelineState)
    ensures
        state_from_column(state_column(s)) == Some(s),
{
    reveal_strlit("fetched");
    reveal_strlit("decided");
    reveal_strlit("analyzing");
    reveal_strlit("analyzed");
    reveal_strlit("embedded");
    reveal_strlit("waiting");
    reveal_strlit("complete");
    reveal_strlit("discarded");
    reveal_strlit("error");
    let f = "fetched"@;
    let d = "decided"@;
    let ai = "analyzing"@;
    let ae = "analyzed"@;
    let em = "embedded"@;
    let w = "waiting"@;
    let c = "complete"@;
    let di = "discarded"@;
    let er = "error"@;
    assert(d[0] != f[0]);
    assert(ai[0] != f[0] && ai[0] != d[0]);
    assert(ae[0] != f[0] && ae[0] != d[0] && ae[7] != ai[7]);
    assert(em[0] != f[0] && em[0] != d[0] && em[0] != ai[0] && em[0] != ae[0]);
    assert(w[0] != f[0] && w[0] != d[0] && w[0] != ai[0] && w[0] != ae[0] && w[0] != em[0]);
    assert(c[0] != f[0] && c[0] != d[0] && c[0] != ai[0] && c[0] != ae[0] && c[0] != em[0]
        && c[0] != w[0]);
    assert(di[0] != f[0] && di[1] != d[1] && di[0] != ai[0] && di[0] != ae[0] && di[0] != em[0]
        && di[0] != w[0] && di[0] != c[0]);
    assert(er[0] != f[0] && er[0] != d[0] && er[0] != ai[0] && er[0] != ae[0] && er[1] != em[1]
        && er[0] != w[0] && er[0] != c[0] && er[0] != di[0]);
}

/// Two states never share a column value.
pub proof fn lemma_state_columns_distinct(a: PipelineState, b: PipelineState)
    ensures
        state_column(a) == state_column(b) ==> a == b,
{
    lemma_state_column_round_trip(a);
    lemma_state_column_round_trip(b);
}

/// The terminal column list and the terminal predicate name the same states.
pub proof fn lemma_terminal_columns_agree(s: PipelineState)
    ensures
        state_is_terminal(s) <==> (state_column(s) == state_column(PipelineState::Complete)
            || state_column(s) == state_column(PipelineState::Discarded)
            || state_column(s) == state_column(PipelineState::Error)),
{
    lemma_state_columns_distinct(s, PipelineState::Complete);
    lemma_state_columns_distinct(s, PipelineState::Discarded);
    lemma_state_columns_distinct(s, PipelineState::Error);
}

/// A pipeline stage, used as the self-routing discriminator in queue payloads.
#[derive(Debug, Clone, Copy, PartialEq, Eq, Structural)]
pub enum Stage {
    /// Fetch a feed's body and ingest its articles.
    Fetch,
    /// Score an article's relevance against its topic.
    Decide,
    /// Deep analysis.
    Analyze,
    /// Embedding.
    Embed,
    /// Clustering into stories.
    Cluster,
    /// Summarization.
    Summarize,
    /// Dispatch one outbox notification to its channels.
    Notify,
}

/// The queue a stage's jobs go onto.
pub open spec fn stage_queue(s: Stage) -> Seq<char> {
    match s {
        Stage::Fetch => "argus_fetch"@,
        Stage::Decide => "argus_decide"@,
        Stage::Analyze => "argus_analyze"@,
        Stage::Embed => "argus_embed"@,
        Stage::Cluster => "argus_cluster"@,
        Stage::Summarize => "argus_summarize"@,
        Stage::Notify => "argus_notify"@,
    }
}

/// Every stage, in declaration order.
pub open spec fn all_stages() -> Seq<Stage> {
    seq![
        Stage::Fetch,
        Stage::Decide,
        Stage::Analyze,
        Stage::Embed,
        Stage::Cluster,
        Stage::Summarize,
        Stage::Notify,
    ]
}

impl Stage {
    /// The queue name a stage's jobs are enqueued onto.
    pub fn queue_name(&self) -> (r: &'static str)
        ensures
            r@ == stage_queue(*self),
    {
        match self {
            Stage::Fetch => "argus_fetch",
            Stage::Decide => "argus_decide",
            Stage::Analyze => "argus_analyze",
            Stage::Embed => "argus_embed",
            Stage::Cluster => "argus_cluster",
            Stage::Summarize => "argus_summarize",
            Stage::Notify => "argus_notify",
        }
    }

    /// Every stage, so a queue declaration cannot silently miss one.
    pub fn all() -> (r: Vec<Stage>)
        ensures
            r@ == all_stages(),
    {
        vec![
            Stage::Fetch,
            Stage::Decide,
            Stage::Analyze,
            Stage::Embed,
            Stage::Cluster,
            Stage::Summarize,
            Stage::Notify,
        ]
    }
}

/// Every stage is listed by `Stage::all`, its queue name starts with
/// `argus_`, and two stages never share a queue.
pub proof fn lemma_stage_queues(a: Stage, b: Stage)
    ensures
        all_stages().contains(a),
        stage_queue(a).take(6) == "argus_"@,
        stage_queue(a) == stage_queue(b) ==> a == b,
{
    reveal_strlit("argus_");
    reveal_strlit("argus_fetch");
    reveal_strlit("argus_decide");
    reveal_strlit("argus_analyze");
    reveal_strlit("argus_embed");
    reveal_strlit("argus_cluster");
    reveal_strlit("argus_summarize");
    reveal_strlit("argus_notify");
    let s = all_stages();
    match a {
        Stage::Fetch => assert(s[0] == a),
        Stage::Decide => assert(s[1] == a),
        Stage::Analyze => assert(s[2] == a),
        Stage::Embed => assert(s[3] == a),
        Stage::Cluster => assert(s[4] == a),
        Stage::Summarize => assert(s[5] == a),
        Stage::Notify => assert(s[6] == a),
    }
    if stage_queue(a) == stage_queue(b) && a != b {
        assert(stage_queue(a)[7] != stage_queue(b)[7] || stage_queue(a).len() != stage_queue(
            b,
        ).len() || stage_queue(a)[8] != stage_queue(b)[8]);
    }
}

/// An article parsed out of a feed body, before it is persisted.
#[derive(Debug, Clone, PartialEq, Eq)]
pub struct ParsedArticle {
    /// Canonical article URL (the dedup key).
    pub url: String,
    /// Article headline.
    pub title: String,
    /// Body/summary text extracted from the feed entry.
    pub content: String,
    /// Publication time as a unix timestamp (seconds), if the feed supplied one.
    pub published_at: Option<i64>,
}

/// A decode of a decide-stage model response.
#[derive(Debug, Clone, PartialEq, Eq)]
pub struct Decision {
    /// Relevance score, clamped to `0..=100`.
    pub score: u8,
    /// Free-text justification the model returned (may be empty).
    pub reason: String,
}

} // verus!
