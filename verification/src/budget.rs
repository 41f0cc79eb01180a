//! Daily spend accounting: the UTC-day arithmetic behind the budget gate.
//!
//! Past the daily limit the AI-consuming stages pause by re-enqueueing their
//! job for the start of the next UTC day; the arithmetic for that day boundary
//! and for the day's `YYYY-MM-DD` label lives here. The dollar comparison
//! itself is floating point and stays with the embedding application.

use vstd::prelude::*;
use crate::num::{i64_to_padded, padded_int, lemma_padded_int_injective, lemma_two_wide};
use crate::text::{push_all, string_of};

verus! {

/// Seconds in a UTC day.
pub const SECONDS_PER_DAY: i64 = 86_400;

/// The day number (days since 1970-01-01, floored) of a unix timestamp.
pub open spec fn day_of(t: int) -> int {
    t / 86_400
}

/// The proleptic Gregorian `(year, month, day)` of a day number, by the
/// shift-to-March construction: years are counted from March so the leap
/// day falls last, in 400-year eras of 146 097 days.
pub open spec fn civil_from_days(days: int) -> (int, int, int) {
    let z = days + 719_468;
    let era = z / 146_097;
    let doe = z % 146_097;
    let yoe = (doe - doe / 1_460 + doe / 36_524 - doe / 146_096) / 365;
    let y = yoe + era * 400;
    let doy = doe - (365 * yoe + yoe / 4 - yoe / 100);
    let mp = (5 * doy + 2) / 153;
    let d = doy - (153 * mp + 2) / 5 + 1;
    let m = if mp < 10 { mp + 3 } else { mp - 9 };
    (if m <= 2 { y + 1 } else { y }, m, d)
}

/// `YYYY-MM-DD` for a civil date, as `format!("{y:04}-{m:02}-{d:02}")` writes it.
pub open spec fn date_text(date: (int, int, int)) -> Seq<char> {
    padded_int(date.0, 4) + seq!['-'] + padded_int(date.1, 2) + seq!['-'] + padded_int(date.2, 2)
}

/// The label of the UTC day holding the unix timestamp `t`.
pub open spec fn utc_day_text(t: int) -> Seq<char> {
    date_text(civil_from_days(day_of(t)))
}

/// Days since the Unix epoch for a unix timestamp, floored.
pub fn days_since_epoch(unix_seconds: i64) -> (r: i64)
    ensures
        r == day_of(unix_seconds as int),
{
    match unix_seconds.checked_div_euclid(SECONDS_PER_DAY) {
        Some(d) => d,
        None => 0,
    }
}

/// The UTC calendar day of a unix timestamp as `YYYY-MM-DD`.
pub fn utc_day(unix_seconds: i64) -> (r: String)
    ensures
        r@ == utc_day_text(unix_seconds as int),
{
    let days = days_since_epoch(unix_seconds);
    assert(-106_751_991_167_301 <= days <= 106_751_991_167_300);
    let z: i64 = days + 719_468;
    let era: i64 = match z.checked_div_euclid(146_097) {
        Some(e) => e,
        None => 0,
    };
    let doe: i64 = match z.checked_rem_euclid(146_097) {
        Some(r) => r,
        None => 0,
    };
    assert(0 <= doe < 146_097);
    let yoe: i64 = (doe - doe / 1_460 + doe / 36_524 - doe / 146_096) / 365;
    assert(0 <= yoe <= 400);
    let y: i64 = yoe + era * 400;
    let doy: i64 = doe - (365 * yoe + yoe / 4 - yoe / 100);
    assert(0 <= doy < 1000) by {
        assert(doe - (365 * yoe + yoe / 4 - yoe / 100) < 1000);
    }
    let mp: i64 = (5 * doy + 2) / 153;
    let d: i64 = doy - (153 * mp + 2) / 5 + 1;
    let m: i64 = if mp < 10 { mp + 3 } else { mp - 9 };
    let y: i64 = if m <= 2 { y + 1 } else { y };
    let mut out = i64_to_padded(y, 4);
    out.push('-');
    let mm = i64_to_padded(m, 2);
    push_all(&mut out, &mm);
    out.push('-');
    let dd = i64_to_padded(d, 2);
    push_all(&mut out, &dd);
    string_of(&out)
}

/// The first instant of the UTC day after the one containing `unix_seconds`.
pub fn next_utc_day_start(unix_seconds: i64) -> (r: i64)
    requires
        unix_seconds as int / 86_400 < i64::MAX as int / 86_400,
    ensures
        r == (day_of(unix_seconds as int) + 1) * 86_400,
{
    (days_since_epoch(unix_seconds) + 1) * SECONDS_PER_DAY
}

/// Seconds until the next UTC day starts, at least one.
///
/// This is the delay a budget-paused job re-enqueues itself with.
pub fn seconds_until_next_day(unix_seconds: i64) -> (r: i64)
    requires
        unix_seconds as int / 86_400 < i64::MAX as int / 86_400,
    ensures
        r == (day_of(unix_seconds as int) + 1) * 86_400 - unix_seconds,
        1 <= r <= 86_400,
{
    let r = next_utc_day_start(unix_seconds) - unix_seconds;
    if r < 1 {
        1
    } else {
        r
    }
}

/// A job paused at `t` resumes exactly at the start of the next UTC day:
/// after the delay it lands on a day boundary, in the day that follows `t`'s.
pub proof fn lemma_pause_resumes_next_day(t: int)
    ensures
        (t + ((day_of(t) + 1) * 86_400 - t)) % 86_400 == 0,
        day_of(t + ((day_of(t) + 1) * 86_400 - t)) == day_of(t) + 1,
        1 <= (day_of(t) + 1) * 86_400 - t <= 86_400,
{
    assert(((day_of(t) + 1) * 86_400) / 86_400 == day_of(t) + 1) by (nonlinear_arith);
    assert(((day_of(t) + 1) * 86_400) % 86_400 == 0) by (nonlinear_arith);
}

/// Two well-formed civil dates (month `1..=12`, day `1..=31`) with the same
/// label are the same date.
proof fn lemma_date_text_injective(a: (int, int, int), b: (int, int, int))
    requires
        1 <= a.1 <= 12,
        1 <= a.2 <= 31,
        1 <= b.1 <= 12,
        1 <= b.2 <= 31,
        date_text(a) == date_text(b),
    ensures
        a == b,
{
    lemma_two_wide(a.1);
    lemma_two_wide(a.2);
    lemma_two_wide(b.1);
    lemma_two_wide(b.2);
    let ya = padded_int(a.0, 4);
    let yb = padded_int(b.0, 4);
    let ta = date_text(a);
    let tb = date_text(b);
    assert(ta.len() == ya.len() + 6);
    assert(tb.len() == yb.len() + 6);
    let n = ya.len() as int;
    assert(ta.subrange(0, n) =~= ya);
    assert(tb.subrange(0, n) =~= yb);
    assert(ta.subrange(n + 1, n + 3) =~= padded_int(a.1, 2));
    assert(tb.subrange(n + 1, n + 3) =~= padded_int(b.1, 2));
    assert(ta.subrange(n + 4, n + 6) =~= padded_int(a.2, 2));
    assert(tb.subrange(n + 4, n + 6) =~= padded_int(b.2, 2));
    lemma_padded_int_injective(a.0, b.0, 4);
    lemma_padded_int_injective(a.1, b.1, 2);
    lemma_padded_int_injective(a.2, b.2, 2);
}

/// The day's label changes exactly at the start of the next UTC day: that
/// instant is labelled differently from `t`, and the second before it is
/// labelled as `t` is.
pub proof fn law_day_label_turns_at_next_day_start(t: int)
    ensures
        utc_day_text((day_of(t) + 1) * 86_400) != utc_day_text(t),
        utc_day_text((day_of(t) + 1) * 86_400 - 1) == utc_day_text(t),
{
    let d = day_of(t);
    assert(((d + 1) * 86_400) / 86_400 == d + 1) by (nonlinear_arith);
    assert(((d + 1) * 86_400 - 1) / 86_400 == d) by (nonlinear_arith);
    crate::feed::lemma_civil_round_trip(d);
    crate::feed::lemma_civil_round_trip(d + 1);
    if date_text(civil_from_days(d + 1)) == date_text(civil_from_days(d)) {
        lemma_date_text_injective(civil_from_days(d + 1), civil_from_days(d));
    }
}

/// What the budget gate says about running an AI-consuming stage now.
#[derive(Debug, Clone, Copy, PartialEq, Eq, Structural)]
pub enum BudgetVerdict {
    /// Spend is below every configured threshold.
    Clear,
    /// Past the alert threshold but below the limit: run, and warn.
    Warn,
    /// At or past the daily limit: do not run.
    Pause,
}

} // verus!
