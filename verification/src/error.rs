//! Error types for the pipeline core.
//!
//! Variants distinguish *transient* failures (worth a queue retry) from
//! *permanent* ones (parse failures that must not be retried).

use vstd::prelude::*;
use crate::text::{chars_of, string_of, push_all};

verus! {

/// A failure inside the pipeline core or one of its injected ports.
#[derive(Debug, Clone, PartialEq, Eq)]
pub enum CoreError {
    /// A feed body could not be parsed as RSS or Atom. Permanent.
    FeedParse(String),
    /// A model response could not be coerced into the expected shape. Permanent.
    DecisionParse(String),
    /// An analyze response carried no recoverable analysis. Permanent.
    AnalysisParse(String),
    /// A summarize response carried no recoverable summary. Permanent.
    SummaryParse(String),
    /// The model provider failed transiently. Transient.
    Provider(String),
    /// An outbound fetch failed transiently (network, timeout, 5xx). Transient.
    Fetch(String),
    /// A fetch was refused for a permanent reason (blocked URL, 4xx). Permanent.
    FetchRefused(String),
    /// A storage operation failed. Transient.
    Store(String),
    /// A queue enqueue failed. Transient.
    Queue(String),
    /// A required record was not found. Permanent.
    NotFound(String),
    /// Input that cannot be interpreted. Permanent.
    Invalid(String),
}

/// Convenience alias for fallible core operations.
pub type CoreResult<T> = Result<T, CoreError>;

/// Whether an error is worth a queue retry.
pub open spec fn error_is_transient(e: CoreError) -> bool {
    match e {
        CoreError::Provider(_) | CoreError::Fetch(_) | CoreError::Store(_) | CoreError::Queue(
            _,
        ) => true,
        _ => false,
    }
}

/// The human-readable rendering of an error: a per-variant prefix and its message.
pub open spec fn error_message(e: CoreError) -> Seq<char> {
    match e {
        CoreError::FeedParse(m) => "feed parse error: "@ + m@,
        CoreError::DecisionParse(m) => "decision parse error: "@ + m@,
        CoreError::AnalysisParse(m) => "analysis parse error: "@ + m@,
        CoreError::SummaryParse(m) => "summary parse error: "@ + m@,
        CoreError::Provider(m) => "provider error: "@ + m@,
        CoreError::Fetch(m) => "fetch error: "@ + m@,
        CoreError::FetchRefused(m) => "fetch refused: "@ + m@,
        CoreError::Store(m) => "store error: "@ + m@,
        CoreError::Queue(m) => "queue error: "@ + m@,
        CoreError::NotFound(m) => "not found: "@ + m@,
        CoreError::Invalid(m) => "invalid input: "@ + m@,
    }
}

/// `prefix` followed by `m`.
fn prefixed(prefix: &str, m: &String) -> (r: String)
    ensures
        r@ == prefix@ + m@,
{
    let mut out = chars_of(prefix);
    let body = chars_of(m.as_str());
    push_all(&mut out, &body);
    string_of(&out)
}

impl CoreError {
    /// Whether a queue worker should retry the job that produced this error.
    pub fn is_transient(&self) -> (r: bool)
        ensures
            r == error_is_transient(*self),
    {
        match self {
            CoreError::Provider(_) | CoreError::Fetch(_) | CoreError::Store(_) | CoreError::Queue(
                _,
            ) => true,
            _ => false,
        }
    }

    /// The error rendered for a log line or a recorded failure.
    pub fn message(&self) -> (r: String)
        ensures
            r@ == error_message(*self),
    {
        match self {
            CoreError::FeedParse(m) => prefixed("feed parse error: ", m),
            CoreError::DecisionParse(m) => prefixed("decision parse error: ", m),
            CoreError::AnalysisParse(m) => prefixed("analysis parse error: ", m),
            CoreError::SummaryParse(m) => prefixed("summary parse error: ", m),
            CoreError::Provider(m) => prefixed("provider error: ", m),
            CoreError::Fetch(m) => prefixed("fetch error: ", m),
            CoreError::FetchRefused(m) => prefixed("fetch refused: ", m),
            CoreError::Store(m) => prefixed("store error: ", m),
            CoreError::Queue(m) => prefixed("queue error: ", m),
            CoreError::NotFound(m) => prefixed("not found: ", m),
            CoreError::Invalid(m) => prefixed("invalid input: ", m),
        }
    }
}

} // verus!
