//! RSS 2.0 and Atom 1.0 feed parsing, and the publication-date grammar feeds
//! use (RFC 3339 and RFC 822) read to a unix timestamp.
//!
//! Date parsing is deliberately lenient: an unparseable or absent date yields
//! `None` rather than failing the whole feed.

use vstd::prelude::*;
use crate::num::{parse_i64, parse_u32, parse_i64_spec, parse_u32_spec, digits_value};
use crate::error::{CoreError, CoreResult};
use crate::model::ParsedArticle;
use crate::text::{trim, trim_chars, words, split_whitespace, is_digit, slice_chars, chars_of, is_text, pieces, split_on, string_of, push_all, chars_eq};

verus! {

// ---------------------------------------------------------------------------
// Calendar arithmetic
// ---------------------------------------------------------------------------

/// Largest year magnitude a date may carry. Past it the timestamp of the
/// date's first second would not fit in an `i64`; such a date is unparseable.
pub const MAX_YEAR_MAGNITUDE: i64 = 100_000_000_000;

/// Days from the Unix epoch to `year-month-day` in the proleptic Gregorian
/// calendar, counting years from March in 400-year eras.
pub open spec fn civil_days(year: int, month: int, day: int) -> int {
    let y = if month <= 2 { year - 1 } else { year };
    let era = y / 400;
    let yoe = y - era * 400;
    let mp = if month > 2 { month - 3 } else { month + 9 };
    let doy = (153 * mp + 2) / 5 + day - 1;
    let doe = yoe * 365 + yoe / 4 - yoe / 100 + doy;
    era * 146_097 + doe - 719_468
}

/// The unix timestamp of a civil date and time of day.
pub open spec fn timestamp_of(year: int, month: int, day: int, hour: int, min: int, sec: int) -> int {
    civil_days(year, month, day) * 86_400 + hour * 3600 + min * 60 + sec
}

/// Days from the Unix epoch (1970-01-01) to `year-month-day`.
pub fn days_from_civil(year: i64, month: u32, day: u32) -> (r: i64)
    requires
        -MAX_YEAR_MAGNITUDE <= year <= MAX_YEAR_MAGNITUDE,
    ensures
        r == civil_days(year as int, month as int, day as int),
{
    let y: i64 = if month <= 2 { year - 1 } else { year };
    let era: i64 = match y.checked_div_euclid(400) {
        Some(e) => e,
        None => 0,
    };
    let yoe: i64 = y - era * 400;
    assert(0 <= yoe < 400);
    let mp: i64 = if month > 2 { (month - 3) as i64 } else { (month + 9) as i64 };
    let doy: i64 = (153 * mp + 2) / 5 + day as i64 - 1;
    let doe: i64 = yoe * 365 + yoe / 4 - yoe / 100 + doy;
    era * 146_097 + doe - 719_468
}

/// The unix timestamp of a civil date and time of day.
pub fn to_timestamp(year: i64, month: u32, day: u32, hour: u32, min: u32, sec: u32) -> (r: i64)
    requires
        -MAX_YEAR_MAGNITUDE <= year <= MAX_YEAR_MAGNITUDE,
    ensures
        r == timestamp_of(year as int, month as int, day as int, hour as int, min as int, sec as int),
        -4_000_000_000_000_000_000 <= r <= 4_000_000_000_000_000_000,
{
    let days = days_from_civil(year, month, day);
    assert(-40_000_000_000_000 <= days <= 40_000_000_000_000) by {
        assert(civil_days(year as int, month as int, day as int) <= 40_000_000_000_000);
        assert(civil_days(year as int, month as int, day as int) >= -40_000_000_000_000);
    }
    days * 86_400 + hour as i64 * 3600 + min as i64 * 60 + sec as i64
}

// ---------------------------------------------------------------------------
// Date grammar
// ---------------------------------------------------------------------------

/// Whether the first `n` characters of `s` are ASCII.
pub open spec fn ascii_prefix(s: Seq<char>, n: int) -> bool {
    forall|i: int| 0 <= i < n ==> (#[trigger] s[i] as u32) < 128
}

/// The decimal digits of `s`, in order, everything else dropped.
pub open spec fn digits_only(s: Seq<char>) -> Seq<char>
    decreases s.len(),
{
    if s.len() == 0 {
        seq![]
    } else if is_digit(s.last()) {
        digits_only(s.drop_last()).push(s.last())
    } else {
        digits_only(s.drop_last())
    }
}

/// The index of the first character of `s` that is `+`, `-`, `Z` or `z`.
pub open spec fn first_zone_mark(s: Seq<char>) -> Option<int>
    decreases s.len(),
{
    if s.len() == 0 {
        None
    } else if s[0] == '+' || s[0] == '-' || s[0] == 'Z' || s[0] == 'z' {
        Some(0)
    } else {
        match first_zone_mark(s.drop_first()) {
            Some(i) => Some(i + 1),
            None => None,
        }
    }
}

/// The offset east of UTC, in seconds, that a zone suffix such as `Z`,
/// `+02:00` or `-0500` denotes; anything unreadable is UTC. Fractional
/// seconds ahead of the zone are skipped.
pub open spec fn zone_offset(rest: Seq<char>) -> int {
    let t = trim(rest);
    let z = match first_zone_mark(t) {
        Some(i) => t.skip(i),
        None => seq![],
    };
    if z.len() == 0 || z[0] == 'Z' || z[0] == 'z' {
        0
    } else {
        let sign = if z[0] == '-' { -1int } else { 1int };
        let d = digits_only(z.drop_first());
        if d.len() < 2 {
            0
        } else {
            let hh = digits_value(d.take(2));
            let mm = if d.len() >= 4 { digits_value(d.subrange(2, 4)) } else { 0 };
            sign * (hh * 3600 + mm * 60)
        }
    }
}

/// The unsigned field `s[a..b]`.
pub open spec fn u32_field(s: Seq<char>, a: int, b: int) -> Option<u32> {
    parse_u32_spec(s.subrange(a, b))
}

/// The timestamp an RFC 3339 text (`2026-07-18T14:30:00Z`, `...+02:00`)
/// denotes: six numeric fields at fixed positions, range-checked, then the
/// zone offset subtracted.
pub open spec fn rfc3339_value(s: Seq<char>) -> Option<i64> {
    if s.len() < 19 || !ascii_prefix(s, 19) || s[4] != '-' || s[7] != '-' {
        None
    } else {
        match (
            parse_i64_spec(s.subrange(0, 4)),
            u32_field(s, 5, 7),
            u32_field(s, 8, 10),
            u32_field(s, 11, 13),
            u32_field(s, 14, 16),
            u32_field(s, 17, 19),
        ) {
            (Some(y), Some(mo), Some(d), Some(h), Some(mi), Some(se)) => if mo == 0 || mo > 12
                || d == 0 || d > 31 || h > 23 || mi > 59 || se > 60 {
                None
            } else {
                Some(
                    (timestamp_of(y as int, mo as int, d as int, h as int, mi as int, se as int)
                        - zone_offset(s.skip(19))) as i64,
                )
            },
            _ => None,
        }
    }
}

/// The characters of `s` with everything outside the decimal digits dropped.
fn keep_digits(s: &Vec<char>, from: usize) -> (r: Vec<char>)
    requires
        from <= s.len(),
    ensures
        r@ == digits_only(s@.skip(from as int)),
{
    let ghost t = s@.skip(from as int);
    let mut out: Vec<char> = Vec::new();
    let mut i: usize = from;
    while i < s.len()
        invariant
            from <= i <= s.len(),
            t == s@.skip(from as int),
            out@ == digits_only(t.take(i - from)),
        decreases s.len() - i,
    {
        assert(t.take(i - from + 1).drop_last() == t.take(i - from));
        assert(t.take(i - from + 1).last() == s@[i as int]);
        if '0' <= s[i] && s[i] <= '9' {
            out.push(s[i]);
        }
        i += 1;
    }
    assert(t.take(s.len() - from) == t);
    out
}

/// The two-digit value `d[a..a+2]`, for digit characters.
fn two_digits(d: &Vec<char>, a: usize) -> (r: i64)
    requires
        a + 2 <= d.len(),
        forall|i: int| 0 <= i < d@.len() ==> is_digit(#[trigger] d@[i]),
    ensures
        r == digits_value(d@.subrange(a as int, a as int + 2)),
        0 <= r <= 99,
{
    let x = (d[a] as u32 - '0' as u32) as i64;
    let y = (d[a + 1] as u32 - '0' as u32) as i64;
    let ghost sub = d@.subrange(a as int, a as int + 2);
    assert(sub.drop_last().drop_last() =~= Seq::<char>::empty());
    assert(sub.drop_last().last() == d@[a as int]);
    assert(sub.last() == d@[a as int + 1]);
    assert(is_digit(d@[a as int]) && is_digit(d@[a as int + 1]));
    assert(digits_value(sub.drop_last()) == x) by {
        reveal_with_fuel(digits_value, 2);
    }
    x * 10 + y
}

/// Every character `digits_only` keeps is a digit.
proof fn lemma_digits_only_digits(s: Seq<char>)
    ensures
        forall|i: int| 0 <= i < digits_only(s).len() ==> is_digit(#[trigger] digits_only(s)[i]),
    decreases s.len(),
{
    if s.len() > 0 {
        lemma_digits_only_digits(s.drop_last());
        let p = digits_only(s.drop_last());
        if is_digit(s.last()) {
            assert(digits_only(s) == p.push(s.last()));
            assert forall|i: int| 0 <= i < digits_only(s).len() implies is_digit(
                #[trigger] digits_only(s)[i],
            ) by {
                if i < p.len() {
                    assert(digits_only(s)[i] == p[i]);
                }
            }
        }
    }
}

/// The position of the first zone mark in `s`, if any.
fn find_zone_mark(s: &Vec<char>) -> (r: Option<usize>)
    ensures
        match r {
            Some(i) => first_zone_mark(s@) == Some(i as int) && i < s.len(),
            None => first_zone_mark(s@) is None,
        },
{
    let mut i: usize = 0;
    assert(s@.skip(0) == s@);
    while i < s.len()
        invariant
            i <= s.len(),
            first_zone_mark(s@) == match first_zone_mark(s@.skip(i as int)) {
                Some(k) => Some(k + i),
                None => None::<int>,
            },
        decreases s.len() - i,
    {
        let c = s[i];
        assert(s@.skip(i as int)[0] == c);
        assert(s@.skip(i as int).drop_first() == s@.skip(i as int + 1));
        if c == '+' || c == '-' || c == 'Z' || c == 'z' {
            return Some(i);
        }
        i += 1;
    }
    assert(s@.skip(i as int).len() == 0);
    None
}

/// Parse the zone suffix of a timestamp into seconds east of UTC.
fn tz_offset_chars(rest: &Vec<char>) -> (r: i64)
    ensures
        r == zone_offset(rest@),
        -400_000 <= r <= 400_000,
{
    let t = trim_chars(rest);
    let z: Vec<char> = match find_zone_mark(&t) {
        Some(i) => slice_chars(&t, i, t.len()),
        None => Vec::new(),
    };
    proof {
        if let Some(i) = first_zone_mark(t@) {
            assert(t@.skip(i) == t@.subrange(i, t@.len() as int));
        }
    }
    if z.len() == 0 || z[0] == 'Z' || z[0] == 'z' {
        return 0;
    }
    let sign: i64 = if z[0] == '-' { -1 } else { 1 };
    let d = keep_digits(&z, 1);
    proof {
        assert(z@.skip(1) == z@.drop_first());
        lemma_digits_only_digits(z@.drop_first());
    }
    if d.len() < 2 {
        return 0;
    }
    let hh = two_digits(&d, 0);
    assert(d@.subrange(0, 2) == d@.take(2));
    let mm: i64 = if d.len() >= 4 { two_digits(&d, 2) } else { 0 };
    sign * (hh * 3600 + mm * 60)
}

/// The unsigned number in `s[a..b]`.
fn field_u32(s: &Vec<char>, a: usize, b: usize) -> (r: Option<u32>)
    requires
        a <= b <= s.len(),
    ensures
        r == u32_field(s@, a as int, b as int),
{
    let sub = slice_chars(s, a, b);
    parse_u32(&sub)
}

/// The RFC 3339 timestamp spelled by `s`.
fn rfc3339_chars(s: &Vec<char>) -> (r: Option<i64>)
    ensures
        r == rfc3339_value(s@),
{
    if s.len() < 19 {
        return None;
    }
    let mut k: usize = 0;
    while k < 19
        invariant
            k <= 19 <= s.len(),
            ascii_prefix(s@, k as int),
        decreases 19 - k,
    {
        if s[k] as u32 >= 128 {
            return None;
        }
        k += 1;
    }
    if s[4] != '-' || s[7] != '-' {
        return None;
    }
    let ys = slice_chars(s, 0, 4);
    let year = match parse_i64(&ys) {
        Some(v) => v,
        None => return None,
    };
    let month = match field_u32(s, 5, 7) {
        Some(v) => v,
        None => return None,
    };
    let day = match field_u32(s, 8, 10) {
        Some(v) => v,
        None => return None,
    };
    let hour = match field_u32(s, 11, 13) {
        Some(v) => v,
        None => return None,
    };
    let min = match field_u32(s, 14, 16) {
        Some(v) => v,
        None => return None,
    };
    let sec = match field_u32(s, 17, 19) {
        Some(v) => v,
        None => return None,
    };
    if month == 0 || month > 12 || day == 0 || day > 31 || hour > 23 || min > 59 || sec > 60 {
        return None;
    }
    proof {
        crate::num::lemma_year_field_small(ys@);
    }
    let base = to_timestamp(year, month, day, hour, min, sec);
    let rest = slice_chars(s, 19, s.len());
    assert(rest@ == s@.skip(19));
    let offset = tz_offset_chars(&rest);
    Some(base - offset)
}

/// The month number of a three-letter English month abbreviation.
pub open spec fn month_number(m: Seq<char>) -> Option<u32> {
    if m == "Jan"@ {
        Some(1)
    } else if m == "Feb"@ {
        Some(2)
    } else if m == "Mar"@ {
        Some(3)
    } else if m == "Apr"@ {
        Some(4)
    } else if m == "May"@ {
        Some(5)
    } else if m == "Jun"@ {
        Some(6)
    } else if m == "Jul"@ {
        Some(7)
    } else if m == "Aug"@ {
        Some(8)
    } else if m == "Sep"@ {
        Some(9)
    } else if m == "Oct"@ {
        Some(10)
    } else if m == "Nov"@ {
        Some(11)
    } else if m == "Dec"@ {
        Some(12)
    } else {
        None
    }
}

/// The offset east of UTC a named RFC 822 zone denotes; a numeric zone is
/// read as in RFC 3339.
pub open spec fn named_zone_offset(tz: Seq<char>) -> int {
    if tz == "GMT"@ || tz == "UTC"@ || tz == "UT"@ || tz == "Z"@ {
        0
    } else if tz == "EST"@ {
        -5 * 3600
    } else if tz == "EDT"@ {
        -4 * 3600
    } else if tz == "CST"@ {
        -6 * 3600
    } else if tz == "CDT"@ {
        -5 * 3600
    } else if tz == "MST"@ {
        -7 * 3600
    } else if tz == "MDT"@ {
        -6 * 3600
    } else if tz == "PST"@ {
        -8 * 3600
    } else if tz == "PDT"@ {
        -7 * 3600
    } else {
        zone_offset(tz)
    }
}

/// The first index at which `s` holds `", "`.
pub open spec fn comma_space(s: Seq<char>) -> Option<int>
    decreases s.len(),
{
    if s.len() < 2 {
        None
    } else if s[0] == ',' && s[1] == ' ' {
        Some(0)
    } else {
        match comma_space(s.drop_first()) {
            Some(i) => Some(i + 1),
            None => None,
        }
    }
}

/// `s` without a leading `Weekday, ` token.
pub open spec fn after_weekday(s: Seq<char>) -> Seq<char> {
    match comma_space(s) {
        Some(i) => s.skip(i + 2),
        None => s,
    }
}

/// The timestamp an RFC 822 text (`Sat, 18 Jul 2026 14:30:00 GMT`) denotes:
/// day, month abbreviation, year (two-digit years are 20xx), `hh:mm[:ss]`
/// and an optional zone (GMT when absent).
pub open spec fn rfc822_value(s: Seq<char>) -> Option<i64> {
    let p = words(after_weekday(s));
    if p.len() < 4 {
        None
    } else {
        match (parse_u32_spec(p[0]), month_number(p[1]), parse_i64_spec(p[2])) {
            (Some(day), Some(month), Some(y0)) => {
                let year: int = if y0 < 100 { y0 + 2000 } else { y0 as int };
                let t = pieces(p[3], ':');
                let hm = (parse_u32_spec(t[0]), if t.len() >= 2 { parse_u32_spec(t[1]) } else { None });
                match hm {
                    (Some(h), Some(mi)) => {
                        let sec: u32 = if t.len() >= 3 {
                            match parse_u32_spec(t[2]) {
                                Some(x) => x,
                                None => 0,
                            }
                        } else {
                            0
                        };
                        let off = named_zone_offset(if p.len() >= 5 { p[4] } else { "GMT"@ });
                        if month == 0 || month > 12 || day == 0 || day > 31 || year
                            > MAX_YEAR_MAGNITUDE || year < -MAX_YEAR_MAGNITUDE {
                            None
                        } else {
                            Some(
                                (timestamp_of(year, month as int, day as int, h as int, mi as int, sec as int) - off) as i64,
                            )
                        }
                    },
                    _ => None,
                }
            },
            _ => None,
        }
    }
}

/// The named time zones RFC 822 dates use, as data: each name with its
/// offset from UTC in hours.
pub open spec fn named_zones() -> Seq<(Seq<char>, int)> {
    seq![
        ("GMT"@, 0int),
        ("UTC"@, 0int),
        ("UT"@, 0int),
        ("Z"@, 0int),
        ("EST"@, -5int),
        ("EDT"@, -4int),
        ("CST"@, -6int),
        ("CDT"@, -5int),
        ("MST"@, -7int),
        ("MDT"@, -6int),
        ("PST"@, -8int),
        ("PDT"@, -7int),
    ]
}

/// Each named zone reads as its offset from UTC.
pub proof fn law_named_zones(i: int)
    requires
        0 <= i < named_zones().len(),
    ensures
        named_zone_offset(named_zones()[i].0) == named_zones()[i].1 * 3600,
{
    reveal_strlit("GMT");
    reveal_strlit("UTC");
    reveal_strlit("UT");
    reveal_strlit("Z");
    reveal_strlit("EST");
    reveal_strlit("EDT");
    reveal_strlit("CST");
    reveal_strlit("CDT");
    reveal_strlit("MST");
    reveal_strlit("MDT");
    reveal_strlit("PST");
    reveal_strlit("PDT");
    assert("GMT"@.len() == 3 && "GMT"@[0] == 'G' && "GMT"@[1] == 'M' && "GMT"@[2] == 'T');
    assert("UTC"@.len() == 3 && "UTC"@[0] == 'U' && "UTC"@[1] == 'T' && "UTC"@[2] == 'C');
    assert("UT"@.len() == 2 && "UT"@[0] == 'U' && "UT"@[1] == 'T');
    assert("Z"@.len() == 1 && "Z"@[0] == 'Z');
    assert("EST"@.len() == 3 && "EST"@[0] == 'E' && "EST"@[1] == 'S' && "EST"@[2] == 'T');
    assert("EDT"@.len() == 3 && "EDT"@[0] == 'E' && "EDT"@[1] == 'D' && "EDT"@[2] == 'T');
    assert("CST"@.len() == 3 && "CST"@[0] == 'C' && "CST"@[1] == 'S' && "CST"@[2] == 'T');
    assert("CDT"@.len() == 3 && "CDT"@[0] == 'C' && "CDT"@[1] == 'D' && "CDT"@[2] == 'T');
    assert("MST"@.len() == 3 && "MST"@[0] == 'M' && "MST"@[1] == 'S' && "MST"@[2] == 'T');
    assert("MDT"@.len() == 3 && "MDT"@[0] == 'M' && "MDT"@[1] == 'D' && "MDT"@[2] == 'T');
    assert("PST"@.len() == 3 && "PST"@[0] == 'P' && "PST"@[1] == 'S' && "PST"@[2] == 'T');
    assert("PDT"@.len() == 3 && "PDT"@[0] == 'P' && "PDT"@[1] == 'D' && "PDT"@[2] == 'T');
    let z = named_zones();
    assert(z[0] == ("GMT"@, 0int));
    assert(z[1] == ("UTC"@, 0int));
    assert(z[2] == ("UT"@, 0int));
    assert(z[3] == ("Z"@, 0int));
    assert(z[4] == ("EST"@, -5int));
    assert(z[5] == ("EDT"@, -4int));
    assert(z[6] == ("CST"@, -6int));
    assert(z[7] == ("CDT"@, -5int));
    assert(z[8] == ("MST"@, -7int));
    assert(z[9] == ("MDT"@, -6int));
    assert(z[10] == ("PST"@, -8int));
    assert(z[11] == ("PDT"@, -7int));
}

/// The English month abbreviations in calendar order.
pub open spec fn calendar_months() -> Seq<Seq<char>> {
    seq![seq!['J', 'a', 'n'], seq!['F', 'e', 'b'], seq!['M', 'a', 'r'], seq!['A', 'p', 'r'], seq!['M', 'a', 'y'], seq!['J', 'u', 'n'], seq!['J', 'u', 'l'], seq!['A', 'u', 'g'], seq!['S', 'e', 'p'], seq!['O', 'c', 't'], seq!['N', 'o', 'v'], seq!['D', 'e', 'c']]
}

/// The month abbreviations read as their places in the calendar: the
/// `i`-th abbreviation (from zero) is month `i + 1`, so every month has its
/// own number, from January's 1 to December's 12; and no other text is a
/// month.
pub proof fn law_months_in_calendar_order(i: int, m: Seq<char>)
    requires
        0 <= i < 12,
    ensures
        month_number(calendar_months()[i]) == Some((i + 1) as u32),
        month_number(m) matches Some(k) ==> 1 <= k <= 12 && m == calendar_months()[k - 1],
{
    reveal_strlit("Jan");
    reveal_strlit("Feb");
    reveal_strlit("Mar");
    reveal_strlit("Apr");
    reveal_strlit("May");
    reveal_strlit("Jun");
    reveal_strlit("Jul");
    reveal_strlit("Aug");
    reveal_strlit("Sep");
    reveal_strlit("Oct");
    reveal_strlit("Nov");
    reveal_strlit("Dec");
    let ms = calendar_months();
    assert(ms[0] =~= "Jan"@);
    assert(ms[1] =~= "Feb"@);
    assert(ms[2] =~= "Mar"@);
    assert(ms[3] =~= "Apr"@);
    assert(ms[4] =~= "May"@);
    assert(ms[5] =~= "Jun"@);
    assert(ms[6] =~= "Jul"@);
    assert(ms[7] =~= "Aug"@);
    assert(ms[8] =~= "Sep"@);
    assert(ms[9] =~= "Oct"@);
    assert(ms[10] =~= "Nov"@);
    assert(ms[11] =~= "Dec"@);
}

/// The month number of an abbreviation.
fn month_chars(m: &Vec<char>) -> (r: Option<u32>)
    ensures
        r == month_number(m@),
{
    if is_text(m, "Jan") {
        Some(1)
    } else if is_text(m, "Feb") {
        Some(2)
    } else if is_text(m, "Mar") {
        Some(3)
    } else if is_text(m, "Apr") {
        Some(4)
    } else if is_text(m, "May") {
        Some(5)
    } else if is_text(m, "Jun") {
        Some(6)
    } else if is_text(m, "Jul") {
        Some(7)
    } else if is_text(m, "Aug") {
        Some(8)
    } else if is_text(m, "Sep") {
        Some(9)
    } else if is_text(m, "Oct") {
        Some(10)
    } else if is_text(m, "Nov") {
        Some(11)
    } else if is_text(m, "Dec") {
        Some(12)
    } else {
        None
    }
}

/// The month number of a three-letter English month abbreviation.
pub fn month_from_abbr(m: &str) -> (r: Option<u32>)
    ensures
        r == month_number(m@),
{
    let c = chars_of(m);
    month_chars(&c)
}

/// The offset of a named zone.
fn named_offset_chars(tz: &Vec<char>) -> (r: i64)
    ensures
        r == named_zone_offset(tz@),
        -400_000 <= r <= 400_000,
{
    if is_text(tz, "GMT") || is_text(tz, "UTC") || is_text(tz, "UT") || is_text(tz, "Z") {
        0
    } else if is_text(tz, "EST") {
        -5 * 3600
    } else if is_text(tz, "EDT") {
        -4 * 3600
    } else if is_text(tz, "CST") {
        -6 * 3600
    } else if is_text(tz, "CDT") {
        -5 * 3600
    } else if is_text(tz, "MST") {
        -7 * 3600
    } else if is_text(tz, "MDT") {
        -6 * 3600
    } else if is_text(tz, "PST") {
        -8 * 3600
    } else if is_text(tz, "PDT") {
        -7 * 3600
    } else {
        tz_offset_chars(tz)
    }
}

/// The offset east of UTC of an RFC 822 zone name or numeric zone.
pub fn rfc822_offset(tz: &str) -> (r: i64)
    ensures
        r == named_zone_offset(tz@),
{
    let c = chars_of(tz);
    named_offset_chars(&c)
}

/// The offset east of UTC of a zone suffix, with any fractional seconds ahead
/// of it skipped.
pub fn parse_tz_offset(rest: &str) -> (r: i64)
    ensures
        r == zone_offset(rest@),
{
    let c = chars_of(rest);
    tz_offset_chars(&c)
}

/// Where `s` holds its first `", "`.
fn find_comma_space(s: &Vec<char>) -> (r: Option<usize>)
    ensures
        match r {
            Some(i) => comma_space(s@) == Some(i as int) && i + 2 <= s.len(),
            None => comma_space(s@) is None,
        },
{
    let mut i: usize = 0;
    assert(s@.skip(0) == s@);
    while s.len() > 0 && i < s.len() - 1
        invariant
            i <= s.len(),
            comma_space(s@) == match comma_space(s@.skip(i as int)) {
                Some(k) => Some(k + i),
                None => None::<int>,
            },
        decreases s.len() - i,
    {
        assert(s@.skip(i as int)[0] == s[i as int]);
        assert(s@.skip(i as int)[1] == s[i as int + 1]);
        assert(s@.skip(i as int).drop_first() == s@.skip(i as int + 1));
        if s[i] == ',' && s[i + 1] == ' ' {
            return Some(i);
        }
        i += 1;
    }
    assert(s@.skip(i as int).len() < 2);
    None
}

/// The RFC 822 timestamp spelled by `s`.
fn rfc822_chars(s: &Vec<char>) -> (r: Option<i64>)
    ensures
        r == rfc822_value(s@),
{
    let body: Vec<char> = match find_comma_space(s) {
        Some(i) => slice_chars(s, i + 2, s.len()),
        None => slice_chars(s, 0, s.len()),
    };
    proof {
        match comma_space(s@) {
            Some(i) => assert(s@.skip(i + 2) == s@.subrange(i + 2, s@.len() as int)),
            None => assert(s@.subrange(0, s@.len() as int) == s@),
        }
    }
    let parts = split_whitespace(&body);
    let ghost p = parts@.map_values(|w: Vec<char>| w@);
    if parts.len() < 4 {
        return None;
    }
    assert(p[0] == parts@[0]@ && p[1] == parts@[1]@ && p[2] == parts@[2]@ && p[3] == parts@[3]@);
    let day = match parse_u32(&parts[0]) {
        Some(v) => v,
        None => return None,
    };
    let month = match month_chars(&parts[1]) {
        Some(v) => v,
        None => return None,
    };
    let y0 = match parse_i64(&parts[2]) {
        Some(v) => v,
        None => return None,
    };
    let year: i64 = if y0 < 100 { 2000 + y0 } else { y0 };
    let t = split_on(&parts[3], ':');
    let ghost tp = t@.map_values(|w: Vec<char>| w@);
    assert(tp[0] == t@[0]@);
    let hour = match parse_u32(&t[0]) {
        Some(v) => v,
        None => return None,
    };
    if t.len() < 2 {
        return None;
    }
    assert(tp[1] == t@[1]@);
    let min = match parse_u32(&t[1]) {
        Some(v) => v,
        None => return None,
    };
    let sec: u32 = if t.len() >= 3 {
        assert(tp[2] == t@[2]@);
        match parse_u32(&t[2]) {
            Some(x) => x,
            None => 0,
        }
    } else {
        0
    };
    let offset: i64 = if parts.len() >= 5 {
        assert(p[4] == parts@[4]@);
        named_offset_chars(&parts[4])
    } else {
        let g = chars_of("GMT");
        named_offset_chars(&g)
    };
    if month == 0 || month > 12 || day == 0 || day > 31 || year > MAX_YEAR_MAGNITUDE || year
        < -MAX_YEAR_MAGNITUDE {
        return None;
    }
    Some(to_timestamp(year, month, day, hour, min, sec) - offset)
}

/// Parse `2026-07-18T14:30:00Z` / `...+00:00` style timestamps.
pub fn parse_rfc3339(s: &str) -> (r: Option<i64>)
    ensures
        r == rfc3339_value(s@),
{
    let c = chars_of(s);
    rfc3339_chars(&c)
}

/// Parse `Sat, 18 Jul 2026 14:30:00 GMT` style (RFC 822/1123) dates.
pub fn parse_rfc822(s: &str) -> (r: Option<i64>)
    ensures
        r == rfc822_value(s@),
{
    let c = chars_of(s);
    rfc822_chars(&c)
}

/// The timestamp a feed date denotes, as RFC 3339 or else RFC 822, after
/// surrounding whitespace is trimmed.
pub open spec fn date_value(s: Seq<char>) -> Option<i64> {
    let t = trim(s);
    match rfc3339_value(t) {
        Some(v) => Some(v),
        None => rfc822_value(t),
    }
}

/// Parse an RFC 3339 or RFC 822 date to a unix timestamp (seconds).
pub fn parse_date(s: &str) -> (r: Option<i64>)
    ensures
        r == date_value(s@),
{
    let c = chars_of(s);
    date_chars(&c)
}

/// The feed date spelled by `s`.
fn date_chars(s: &Vec<char>) -> (r: Option<i64>)
    ensures
        r == date_value(s@),
{
    let t = trim_chars(s);
    match rfc3339_chars(&t) {
        Some(v) => Some(v),
        None => rfc822_chars(&t),
    }
}

// ---------------------------------------------------------------------------
// The XML document
// ---------------------------------------------------------------------------

/// One node of a parsed XML document, in document order.
#[derive(Debug, Clone)]
pub struct XmlNode {
    /// Whether this is an element (rather than text, a comment, or the root).
    pub element: bool,
    /// The element's local name (namespace prefix dropped); empty otherwise.
    pub name: String,
    /// For an element, its first child's text when that child is a text node.
    pub text: Option<String>,
    /// The element's attributes as `(local name, value)`, in document order.
    pub attrs: Vec<(String, String)>,
    /// The index of the parent node, if any.
    pub parent: Option<usize>,
}

/// A parsed XML document: every node in document order, and the index of the
/// root element.
#[derive(Debug, Clone)]
pub struct XmlDoc {
    /// The nodes, the document root first.
    pub nodes: Vec<XmlNode>,
    /// Index of the root element in `nodes`.
    pub root: usize,
}

/// What `roxmltree::Document::parse` makes of `body`: the document, or the
/// text of its error.
pub uninterp spec fn xml_document(body: Seq<char>) -> Result<XmlDoc, String>;

/// `roxmltree::Document::parse`, with the document copied out node by node in
/// document order. Claims the result is the named parse of `body` and that
/// the root element is one of the nodes (roxmltree documents that a parsed
/// document always has one).
#[verifier::external_body]
pub(crate) fn xml_parse(body: &str) -> (r: Result<XmlDoc, String>)
    ensures
        r == xml_document(body@),
        r matches Ok(d) ==> d.root < d.nodes@.len(),
{
    let doc = roxmltree::Document::parse(body).map_err(|e| e.to_string())?;
    let mut nodes = Vec::new();
    for n in doc.descendants() {
        let attrs = n.attributes().map(|a| (a.name().to_string(), a.value().to_string())).collect();
        let text = n.text().map(|t| t.to_string());
        let parent = n.parent().map(|p| p.id().get_usize());
        let name = n.tag_name().name().to_string();
        nodes.push(XmlNode { element: n.is_element(), name, text, attrs, parent });
    }
    Ok(XmlDoc { nodes, root: doc.root_element().id().get_usize() })
}

/// The first element child of node `p` named `local`, searching from node `k` on.
pub open spec fn named_child_from(nodes: Seq<XmlNode>, p: int, local: Seq<char>, k: int) -> Option<int>
    decreases nodes.len() - k,
{
    if k < 0 || k >= nodes.len() {
        None
    } else if nodes[k].element && nodes[k].parent == Some(p as usize) && nodes[k].name@ == local {
        Some(k)
    } else {
        named_child_from(nodes, p, local, k + 1)
    }
}

/// The trimmed, non-empty text of the first element child of `p` named `local`.
pub open spec fn child_text_of(nodes: Seq<XmlNode>, p: int, local: Seq<char>) -> Option<Seq<char>> {
    match named_child_from(nodes, p, local, 0) {
        Some(k) => match nodes[k].text {
            Some(t) => if trim(t@).len() > 0 {
                Some(trim(t@))
            } else {
                None
            },
            None => None,
        },
        None => None,
    }
}

/// An article's fields as character sequences.
pub struct ArticleView {
    /// Canonical URL.
    pub url: Seq<char>,
    /// Headline.
    pub title: Seq<char>,
    /// Body text.
    pub content: Seq<char>,
    /// Publication time.
    pub published_at: Option<i64>,
}

/// The view of a parsed article.
pub open spec fn article_view(a: ParsedArticle) -> ArticleView {
    ArticleView { url: a.url@, title: a.title@, content: a.content@, published_at: a.published_at }
}

/// `a`, or `b` when `a` is absent.
pub open spec fn or_text(a: Option<Seq<char>>, b: Option<Seq<char>>) -> Option<Seq<char>> {
    match a {
        Some(x) => Some(x),
        None => b,
    }
}

/// The text, or empty when absent.
pub open spec fn text_or_empty(a: Option<Seq<char>>) -> Seq<char> {
    match a {
        Some(x) => x,
        None => seq![],
    }
}

/// The publication time a date text denotes, if any.
pub open spec fn date_of(a: Option<Seq<char>>) -> Option<i64> {
    match a {
        Some(x) => date_value(x),
        None => None,
    }
}

/// The article an RSS `<item>` at node `k` describes; an item without a
/// `<link>` describes none.
pub open spec fn rss_item(nodes: Seq<XmlNode>, k: int) -> Option<ArticleView> {
    match child_text_of(nodes, k, "link"@) {
        Some(url) => Some(
            ArticleView {
                url,
                title: text_or_empty(child_text_of(nodes, k, "title"@)),
                content: text_or_empty(
                    or_text(child_text_of(nodes, k, "encoded"@), child_text_of(nodes, k, "description"@)),
                ),
                published_at: date_of(
                    or_text(child_text_of(nodes, k, "pubDate"@), child_text_of(nodes, k, "date"@)),
                ),
            },
        ),
        None => None,
    }
}

/// The value of the first attribute of node `k` whose local name is `name`.
pub open spec fn attr_of(nodes: Seq<XmlNode>, k: int, name: Seq<char>) -> Option<Seq<char>> {
    attr_from(nodes[k].attrs@, name, 0)
}

/// The value of the first attribute from position `i` on named `name`.
pub open spec fn attr_from(attrs: Seq<(String, String)>, name: Seq<char>, i: int) -> Option<Seq<char>>
    decreases attrs.len() - i,
{
    if i < 0 || i >= attrs.len() {
        None
    } else if attrs[i].0@ == name {
        Some(attrs[i].1@)
    } else {
        attr_from(attrs, name, i + 1)
    }
}

/// Whether an Atom `<link>` is the entry's alternate link: `rel="alternate"`
/// or no `rel` at all.
pub open spec fn is_alternate(nodes: Seq<XmlNode>, k: int) -> bool {
    match attr_of(nodes, k, "rel"@) {
        Some(r) => r == "alternate"@,
        None => true,
    }
}

/// The first alternate `<link>` child of `p`, searching from node `k` on.
pub open spec fn alternate_link_from(nodes: Seq<XmlNode>, p: int, k: int) -> Option<int>
    decreases nodes.len() - k,
{
    if k < 0 || k >= nodes.len() {
        None
    } else if nodes[k].element && nodes[k].parent == Some(p as usize) && nodes[k].name@ == "link"@
        && is_alternate(nodes, k) {
        Some(k)
    } else {
        alternate_link_from(nodes, p, k + 1)
    }
}

/// The URL of an Atom `<entry>` at node `p`: the `href` of its alternate link,
/// or of its first link when none is alternate, trimmed and non-empty.
pub open spec fn atom_link_of(nodes: Seq<XmlNode>, p: int) -> Option<Seq<char>> {
    let chosen = match alternate_link_from(nodes, p, 0) {
        Some(k) => Some(k),
        None => named_child_from(nodes, p, "link"@, 0),
    };
    match chosen {
        Some(k) => match attr_of(nodes, k, "href"@) {
            Some(h) => if trim(h).len() > 0 {
                Some(trim(h))
            } else {
                None
            },
            None => None,
        },
        None => None,
    }
}

/// The article an Atom `<entry>` at node `k` describes; an entry without a
/// usable link describes none.
pub open spec fn atom_entry(nodes: Seq<XmlNode>, k: int) -> Option<ArticleView> {
    match atom_link_of(nodes, k) {
        Some(url) => Some(
            ArticleView {
                url,
                title: text_or_empty(child_text_of(nodes, k, "title"@)),
                content: text_or_empty(
                    or_text(child_text_of(nodes, k, "content"@), child_text_of(nodes, k, "summary"@)),
                ),
                published_at: date_of(
                    or_text(child_text_of(nodes, k, "published"@), child_text_of(nodes, k, "updated"@)),
                ),
            },
        ),
        None => None,
    }
}

/// The articles of the entries named `entry` among the first `n` nodes, in
/// document order, read as Atom entries when `atom` and as RSS items otherwise.
pub open spec fn entries_upto(
    nodes: Seq<XmlNode>,
    entry: Seq<char>,
    atom: bool,
    n: int,
) -> Seq<ArticleView>
    decreases n,
{
    if n <= 0 || n > nodes.len() {
        seq![]
    } else {
        let prev = entries_upto(nodes, entry, atom, n - 1);
        let k = n - 1;
        if nodes[k].element && nodes[k].name@ == entry {
            let a = if atom { atom_entry(nodes, k) } else { rss_item(nodes, k) };
            match a {
                Some(v) => prev.push(v),
                None => prev,
            }
        } else {
            prev
        }
    }
}

/// The articles of an RSS document: every `<item>`, at any depth.
pub open spec fn rss_articles(doc: XmlDoc) -> Seq<ArticleView> {
    entries_upto(doc.nodes@, "item"@, false, doc.nodes@.len() as int)
}

/// The articles of an Atom document: every `<entry>`, at any depth.
pub open spec fn atom_articles(doc: XmlDoc) -> Seq<ArticleView> {
    entries_upto(doc.nodes@, "entry"@, true, doc.nodes@.len() as int)
}

/// The first element child of `p` named `local`, from node `k` on.
fn find_named_child(doc: &XmlDoc, p: usize, local: &Vec<char>, k: usize) -> (r: Option<usize>)
    ensures
        match r {
            Some(j) => named_child_from(doc.nodes@, p as int, local@, k as int) == Some(j as int) && j
                < doc.nodes@.len(),
            None => named_child_from(doc.nodes@, p as int, local@, k as int) is None,
        },
    decreases doc.nodes@.len() - k,
{
    if k >= doc.nodes.len() {
        return None;
    }
    let n = &doc.nodes[k];
    if n.element && n.parent == Some(p) {
        let nm = chars_of(n.name.as_str());
        if chars_eq(&nm, local) {
            return Some(k);
        }
    }
    find_named_child(doc, p, local, k + 1)
}

/// `child_text_of`, computed.
fn child_text(doc: &XmlDoc, p: usize, local: &str) -> (r: Option<Vec<char>>)
    ensures
        match r {
            Some(t) => child_text_of(doc.nodes@, p as int, local@) == Some(t@),
            None => child_text_of(doc.nodes@, p as int, local@) is None,
        },
{
    let l = chars_of(local);
    match find_named_child(doc, p, &l, 0) {
        Some(k) => match &doc.nodes[k].text {
            Some(t) => {
                let c = chars_of(t.as_str());
                let tt = trim_chars(&c);
                if tt.len() > 0 {
                    Some(tt)
                } else {
                    None
                }
            },
            None => None,
        },
        None => None,
    }
}

/// The first of two optional texts.
fn first_text(a: Option<Vec<char>>, b: Option<Vec<char>>) -> (r: Option<Vec<char>>)
    ensures
        match r {
            Some(t) => or_text(
                match a {
                    Some(x) => Some(x@),
                    None => None,
                },
                match b {
                    Some(x) => Some(x@),
                    None => None,
                },
            ) == Some(t@),
            None => a is None && b is None,
        },
{
    match a {
        Some(x) => Some(x),
        None => b,
    }
}

/// An optional text as a `String`, empty when absent.
fn text_string(a: &Option<Vec<char>>) -> (r: String)
    ensures
        r@ == text_or_empty(
            match a {
                Some(x) => Some(x@),
                None => None,
            },
        ),
{
    match a {
        Some(x) => string_of(x),
        None => string_of(&Vec::new()),
    }
}

/// The view of an optional character vector.
pub open spec fn opt_view(a: Option<Vec<char>>) -> Option<Seq<char>> {
    match a {
        Some(x) => Some(x@),
        None => None,
    }
}

/// The publication time of an optional date text.
fn date_from(a: &Option<Vec<char>>) -> (r: Option<i64>)
    ensures
        r == date_of(opt_view(*a)),
{
    match a {
        Some(x) => date_chars(x),
        None => None,
    }
}

/// The article of the RSS item at node `k`.
fn read_rss_item(doc: &XmlDoc, k: usize) -> (r: Option<ParsedArticle>)
    ensures
        match r {
            Some(a) => rss_item(doc.nodes@, k as int) == Some(article_view(a)),
            None => rss_item(doc.nodes@, k as int) is None,
        },
{
    let url = match child_text(doc, k, "link") {
        Some(u) => u,
        None => return None,
    };
    let title = child_text(doc, k, "title");
    let content = first_text(child_text(doc, k, "encoded"), child_text(doc, k, "description"));
    let date = first_text(child_text(doc, k, "pubDate"), child_text(doc, k, "date"));
    let published_at = date_from(&date);
    Some(ParsedArticle {
        url: string_of(&url),
        title: text_string(&title),
        content: text_string(&content),
        published_at,
    })
}

/// The value of the first attribute of node `k` named `name`, from position `i` on.
fn find_attr(doc: &XmlDoc, k: usize, name: &Vec<char>, i: usize) -> (r: Option<Vec<char>>)
    requires
        k < doc.nodes@.len(),
    ensures
        opt_view(r) == attr_from(doc.nodes@[k as int].attrs@, name@, i as int),
    decreases doc.nodes@[k as int].attrs@.len() - i,
{
    let attrs = &doc.nodes[k].attrs;
    if i >= attrs.len() {
        return None;
    }
    let an = chars_of(attrs[i].0.as_str());
    if chars_eq(&an, name) {
        return Some(chars_of(attrs[i].1.as_str()));
    }
    find_attr(doc, k, name, i + 1)
}

/// Whether the link at node `k` is an alternate link.
fn link_is_alternate(doc: &XmlDoc, k: usize) -> (r: bool)
    requires
        k < doc.nodes@.len(),
    ensures
        r == is_alternate(doc.nodes@, k as int),
{
    let rel = chars_of("rel");
    match find_attr(doc, k, &rel, 0) {
        Some(v) => is_text(&v, "alternate"),
        None => true,
    }
}

/// The first alternate link child of `p`, from node `k` on.
fn find_alternate(doc: &XmlDoc, p: usize, k: usize) -> (r: Option<usize>)
    ensures
        match r {
            Some(j) => alternate_link_from(doc.nodes@, p as int, k as int) == Some(j as int) && j
                < doc.nodes@.len(),
            None => alternate_link_from(doc.nodes@, p as int, k as int) is None,
        },
    decreases doc.nodes@.len() - k,
{
    if k >= doc.nodes.len() {
        return None;
    }
    let n = &doc.nodes[k];
    if n.element && n.parent == Some(p) {
        let nm = chars_of(n.name.as_str());
        if is_text(&nm, "link") && link_is_alternate(doc, k) {
            return Some(k);
        }
    }
    find_alternate(doc, p, k + 1)
}

/// The URL of the Atom entry at node `p`.
fn atom_link(doc: &XmlDoc, p: usize) -> (r: Option<Vec<char>>)
    ensures
        opt_view(r) == atom_link_of(doc.nodes@, p as int),
{
    let link = chars_of("link");
    let chosen = match find_alternate(doc, p, 0) {
        Some(k) => Some(k),
        None => find_named_child(doc, p, &link, 0),
    };
    match chosen {
        Some(k) => {
            let href = chars_of("href");
            match find_attr(doc, k, &href, 0) {
                Some(h) => {
                    let t = trim_chars(&h);
                    if t.len() > 0 {
                        Some(t)
                    } else {
                        None
                    }
                },
                None => None,
            }
        },
        None => None,
    }
}

/// The article of the Atom entry at node `k`.
fn read_atom_entry(doc: &XmlDoc, k: usize) -> (r: Option<ParsedArticle>)
    ensures
        match r {
            Some(a) => atom_entry(doc.nodes@, k as int) == Some(article_view(a)),
            None => atom_entry(doc.nodes@, k as int) is None,
        },
{
    let url = match atom_link(doc, k) {
        Some(u) => u,
        None => return None,
    };
    let title = child_text(doc, k, "title");
    let content = first_text(child_text(doc, k, "content"), child_text(doc, k, "summary"));
    let date = first_text(child_text(doc, k, "published"), child_text(doc, k, "updated"));
    let published_at = date_from(&date);
    Some(ParsedArticle {
        url: string_of(&url),
        title: text_string(&title),
        content: text_string(&content),
        published_at,
    })
}

/// Every entry named `entry`, read as RSS items or Atom entries.
fn read_entries(doc: &XmlDoc, entry: &str, atom: bool) -> (r: Vec<ParsedArticle>)
    ensures
        r@.map_values(|a: ParsedArticle| article_view(a)) == entries_upto(
            doc.nodes@,
            entry@,
            atom,
            doc.nodes@.len() as int,
        ),
{
    let e = chars_of(entry);
    let mut out: Vec<ParsedArticle> = Vec::new();
    let mut k: usize = 0;
    while k < doc.nodes.len()
        invariant
            k <= doc.nodes@.len(),
            e@ == entry@,
            out@.map_values(|a: ParsedArticle| article_view(a)) == entries_upto(
                doc.nodes@,
                entry@,
                atom,
                k as int,
            ),
        decreases doc.nodes@.len() - k,
    {
        let ghost before = out@;
        if doc.nodes[k].element {
            let nm = chars_of(doc.nodes[k].name.as_str());
            if chars_eq(&nm, &e) {
                let a = if atom { read_atom_entry(doc, k) } else { read_rss_item(doc, k) };
                if let Some(art) = a {
                    out.push(art);
                    assert(out@.map_values(|a: ParsedArticle| article_view(a)) == before.map_values(
                        |a: ParsedArticle| article_view(a),
                    ).push(article_view(art)));
                }
            }
        }
        k += 1;
    }
    out
}

/// What `parse_feed` answers for a feed body.
pub open spec fn feed_parse_ok(doc: XmlDoc) -> Option<Seq<ArticleView>> {
    let name = doc.nodes@[doc.root as int].name@;
    if name == "rss"@ || name == "RDF"@ {
        Some(rss_articles(doc))
    } else if name == "feed"@ {
        Some(atom_articles(doc))
    } else {
        None
    }
}

/// What parsing a feed body yields: its articles, or the reason it is not a feed.
pub open spec fn feed_outcome(body: Seq<char>) -> Result<Seq<ArticleView>, Seq<char>> {
    match xml_document(body) {
        Err(e) => Err("malformed XML: "@ + e@),
        Ok(doc) => match feed_parse_ok(doc) {
            Some(arts) => Ok(arts),
            None => Err(
                "unrecognized root element <"@ + doc.nodes@[doc.root as int].name@
                    + ">; expected <rss>, <rdf:RDF>, or <feed>"@,
            ),
        },
    }
}

/// Parse an RSS or Atom feed body into its articles.
///
/// The root element decides the format: `<rss>` or `<rdf:RDF>` is RSS,
/// `<feed>` is Atom. Entries missing a link are skipped; a feed with no usable
/// entries parses to an empty list.
pub fn parse_feed(body: &str) -> (r: CoreResult<Vec<ParsedArticle>>)
    ensures
        match feed_outcome(body@) {
            Ok(arts) => r matches Ok(v) && v@.map_values(|a: ParsedArticle| article_view(a)) == arts,
            Err(m) => r matches Err(CoreError::FeedParse(mm)) && mm@ == m,
        },
{
    let doc = match xml_parse(body) {
        Ok(d) => d,
        Err(e) => {
            let mut m = chars_of("malformed XML: ");
            let ec = chars_of(e.as_str());
            push_all(&mut m, &ec);
            return Err(CoreError::FeedParse(string_of(&m)));
        },
    };
    let name = chars_of(doc.nodes[doc.root].name.as_str());
    if is_text(&name, "rss") || is_text(&name, "RDF") {
        Ok(read_entries(&doc, "item", false))
    } else if is_text(&name, "feed") {
        Ok(read_entries(&doc, "entry", true))
    } else {
        let mut m = chars_of("unrecognized root element <");
        push_all(&mut m, &name);
        let tail = chars_of(">; expected <rss>, <rdf:RDF>, or <feed>");
        push_all(&mut m, &tail);
        Err(CoreError::FeedParse(string_of(&m)))
    }
}

// ---------------------------------------------------------------------------
// The calendar round trip
// ---------------------------------------------------------------------------

/// Within one 400-year era, the year-of-era and day-of-year that the
/// shift-to-March construction derives from a day-of-era are in range.
proof fn lemma_era_fields(doe: u32)
    requires
        doe < 146_097,
    ensures
        ({
            let yoe = (doe - doe / 1_460 + doe / 36_524 - doe / 146_096) / 365;
            let doy = doe - (365 * yoe + yoe / 4 - yoe / 100);
            0 <= yoe <= 399 && 0 <= doy <= 365
        }),
{
    assert(doe < 146_097 ==> ({
        let f = (doe - doe / 1_460 + doe / 36_524 - doe / 146_096) as u32;
        let yoe = f / 365;
        yoe <= 399 && 365 * yoe + yoe / 4 - yoe / 100 <= doe && doe - (365 * yoe + yoe / 4 - yoe
            / 100) <= 365
    })) by (bit_vector);
}

/// Reading a day number as a civil date and counting that date's days from
/// the epoch gives the day number back, and the date is well formed: the
/// month is `1..=12` and the day `1..=31`.
pub proof fn lemma_civil_round_trip(days: int)
    ensures
        ({
            let (y, m, d) = crate::budget::civil_from_days(days);
            &&& 1 <= m <= 12
            &&& 1 <= d <= 31
            &&& civil_days(y, m, d) == days
        }),
{
    let z = days + 719_468;
    let era = z / 146_097;
    let doe = z % 146_097;
    lemma_era_fields(doe as u32);
    let yoe = (doe - doe / 1_460 + doe / 36_524 - doe / 146_096) / 365;
    let doy = doe - (365 * yoe + yoe / 4 - yoe / 100);
    let mp = (5 * doy + 2) / 153;
    assert(0 <= mp <= 11);
    let d = doy - (153 * mp + 2) / 5 + 1;
    assert(1 <= d <= 31) by (nonlinear_arith)
        requires
            mp == (5 * doy + 2) / 153,
            d == doy - (153 * mp + 2) / 5 + 1,
            0 <= doy <= 365,
    ;
    let m = if mp < 10 { mp + 3 } else { mp - 9 };
    let y0 = yoe + era * 400;
    let y = if m <= 2 { y0 + 1 } else { y0 };
    let yy = if m <= 2 { y - 1 } else { y };
    assert(yy == y0);
    assert(yy / 400 == era) by {
        assert((yoe + era * 400) / 400 == era) by (nonlinear_arith)
            requires
                0 <= yoe < 400,
        ;
    }
    assert(z == era * 146_097 + doe);
}

} // verus!
