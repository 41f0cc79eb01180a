//! The story-lifecycle rules of the cluster stage that need no similarity
//! arithmetic: when a story goes stale, and where the candidate window
//! starts.

use vstd::prelude::*;

verus! {

/// How far back the candidate window reaches (fourteen days).
pub const DEFAULT_WINDOW_SECONDS: i64 = 14 * 86_400;

/// How long a story may go without a new member before it is stale (three
/// days).
pub const DEFAULT_INACTIVE_SECONDS: i64 = 3 * 86_400;

/// Whether a story whose newest member was published at `last_article_at`
/// has gone stale at `now`: strictly more than `inactive_seconds` have
/// passed. A story with no dated member is never stale.
pub fn is_stale(last_article_at: Option<i64>, now: i64, inactive_seconds: i64) -> (r: bool)
    requires
        last_article_at matches Some(t) ==> i64::MIN <= now - t <= i64::MAX,
    ensures
        r == match last_article_at {
            Some(t) => now - t > inactive_seconds,
            None => false,
        },
{
    match last_article_at {
        Some(t) => now - t > inactive_seconds,
        None => false,
    }
}

/// The start of the candidate window ending at `now`: `now - window_seconds`,
/// saturated to the `i64` range rather than wrapping.
pub fn window_start(now: i64, window_seconds: i64) -> (r: i64)
    ensures
        r as int == (if now - window_seconds < i64::MIN {
            i64::MIN as int
        } else if now - window_seconds > i64::MAX {
            i64::MAX as int
        } else {
            now - window_seconds
        }),
{
    let d: i128 = now as i128 - window_seconds as i128;
    if d < i64::MIN as i128 {
        i64::MIN
    } else if d > i64::MAX as i128 {
        i64::MAX
    } else {
        d as i64
    }
}

} // verus!
