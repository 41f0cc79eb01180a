//! Decimal numerals: the integer parsing and formatting the crate's text
//! formats need, stated over exact integers.

use vstd::prelude::*;
use crate::text::{is_digit, digit_value};

verus! {

/// The value of a run of decimal digits, most significant first.
pub open spec fn digits_value(s: Seq<char>) -> int
    decreases s.len(),
{
    if s.len() == 0 {
        0
    } else {
        digits_value(s.drop_last()) * 10 + digit_value(s.last())
    }
}

/// Whether every character of `s` is a decimal digit.
pub open spec fn all_digits(s: Seq<char>) -> bool {
    forall|i: int| 0 <= i < s.len() ==> is_digit(#[trigger] s[i])
}

/// The integer a Rust `from_str` reads out of `s`, before its range check:
/// an optional sign (`-` only when `signed`) followed by at least one digit.
pub open spec fn decimal_value(s: Seq<char>, signed: bool) -> Option<int> {
    if s.len() > 1 && s[0] == '+' && all_digits(s.drop_first()) {
        Some(digits_value(s.drop_first()))
    } else if signed && s.len() > 1 && s[0] == '-' && all_digits(s.drop_first()) {
        Some(-digits_value(s.drop_first()))
    } else if s.len() > 0 && all_digits(s) {
        Some(digits_value(s))
    } else {
        None
    }
}

/// What `i64::from_str` returns for `s`.
pub open spec fn parse_i64_spec(s: Seq<char>) -> Option<i64> {
    match decimal_value(s, true) {
        Some(v) => if i64::MIN <= v <= i64::MAX {
            Some(v as i64)
        } else {
            None
        },
        None => None,
    }
}

/// What `u32::from_str` returns for `s`.
pub open spec fn parse_u32_spec(s: Seq<char>) -> Option<u32> {
    match decimal_value(s, false) {
        Some(v) => if 0 <= v <= u32::MAX {
            Some(v as u32)
        } else {
            None
        },
        None => None,
    }
}

/// A digit run is worth at least zero, and extending it never lowers it.
pub proof fn lemma_digits_value_nonneg(s: Seq<char>)
    requires
        all_digits(s),
    ensures
        digits_value(s) >= 0,
    decreases s.len(),
{
    if s.len() > 0 {
        assert(all_digits(s.drop_last())) by {
            assert forall|i: int| 0 <= i < s.drop_last().len() implies is_digit(
                #[trigger] s.drop_last()[i],
            ) by {
                assert(s.drop_last()[i] == s[i]);
            }
        }
        lemma_digits_value_nonneg(s.drop_last());
        assert(is_digit(s[s.len() - 1]));
    }
}

/// The magnitude read from the digits `s[from..]`, or `None` when a character
/// is not a digit, the run is empty, or the magnitude exceeds `limit`.
fn digits_upto(s: &Vec<char>, from: usize, limit: u64) -> (r: Option<u64>)
    requires
        from <= s.len(),
        9 <= limit <= 10_000_000_000_000_000_000,
    ensures
        match r {
            Some(v) => s@.len() > from && all_digits(s@.subrange(from as int, s@.len() as int))
                && v == digits_value(s@.subrange(from as int, s@.len() as int)) && v <= limit,
            None => !(s@.len() > from && all_digits(s@.subrange(from as int, s@.len() as int))
                && digits_value(s@.subrange(from as int, s@.len() as int)) <= limit),
        },
{
    if from == s.len() {
        return None;
    }
    let mut v: u64 = 0;
    let mut big = false;
    let mut i: usize = from;
    while i < s.len()
        invariant
            from <= i <= s.len(),
            9 <= limit <= 10_000_000_000_000_000_000,
            all_digits(s@.subrange(from as int, i as int)),
            !big ==> v == digits_value(s@.subrange(from as int, i as int)) && v <= limit,
            big ==> digits_value(s@.subrange(from as int, i as int)) > limit,
        decreases s.len() - i,
    {
        let c = s[i];
        let ghost pre = s@.subrange(from as int, i as int);
        let ghost post = s@.subrange(from as int, i as int + 1);
        assert(post.drop_last() == pre);
        assert(post.last() == c);
        if !('0' <= c && c <= '9') {
            assert(!all_digits(s@.subrange(from as int, s@.len() as int))) by {
                assert(s@.subrange(from as int, s@.len() as int)[i - from] == c);
            }
            return None;
        }
        let d: u64 = (c as u32 - '0' as u32) as u64;
        proof {
            lemma_digits_value_nonneg(pre);
        }
        if !big {
            if v > (limit - d) / 10 {
                big = true;
                assert(v * 10 + d > limit) by (nonlinear_arith)
                    requires
                        v > (limit - d) / 10,
                        d <= 9,
                        d <= limit || true,
                ;
            } else {
                assert(v * 10 + d <= limit) by (nonlinear_arith)
                    requires
                        v <= (limit - d) / 10,
                        d <= limit,
                ;
                v = v * 10 + d;
            }
        } else {
            assert(digits_value(post) >= digits_value(pre)) by (nonlinear_arith)
                requires
                    digits_value(post) == digits_value(pre) * 10 + (c as int - '0' as int),
                    digits_value(pre) >= 0,
                    '0' <= c,
            ;
        }
        assert(all_digits(post)) by {
            assert forall|j: int| 0 <= j < post.len() implies is_digit(#[trigger] post[j]) by {
                if j < pre.len() {
                    assert(post[j] == pre[j]);
                }
            }
        }
        i += 1;
    }
    if big {
        None
    } else {
        Some(v)
    }
}

/// `i64::from_str` over a character vector.
pub fn parse_i64(s: &Vec<char>) -> (r: Option<i64>)
    ensures
        r == parse_i64_spec(s@),
{
    if s.len() > 1 && (s[0] == '+' || s[0] == '-') {
        let neg = s[0] == '-';
        let limit: u64 = if neg { 9_223_372_036_854_775_808 } else { 9_223_372_036_854_775_807 };
        let m = digits_upto(s, 1, limit);
        proof {
            assert(s@.subrange(1, s@.len() as int) == s@.drop_first());
        }
        match m {
            Some(v) => {
                if neg {
                    if v == 9_223_372_036_854_775_808 {
                        Some(i64::MIN)
                    } else {
                        Some(-(v as i64))
                    }
                } else {
                    Some(v as i64)
                }
            },
            None => None,
        }
    } else {
        let m = digits_upto(s, 0, 9_223_372_036_854_775_807);
        proof {
            assert(s@.subrange(0, s@.len() as int) == s@);
            if s@.len() > 0 && (s@[0] == '+' || s@[0] == '-') {
                assert(!is_digit(s@[0]));
            }
        }
        match m {
            Some(v) => Some(v as i64),
            None => None,
        }
    }
}

/// `u32::from_str` over a character vector.
pub fn parse_u32(s: &Vec<char>) -> (r: Option<u32>)
    ensures
        r == parse_u32_spec(s@),
{
    if s.len() > 1 && s[0] == '+' {
        let m = digits_upto(s, 1, 4_294_967_295);
        proof {
            assert(s@.subrange(1, s@.len() as int) == s@.drop_first());
        }
        match m {
            Some(v) => Some(v as u32),
            None => None,
        }
    } else {
        let m = digits_upto(s, 0, 4_294_967_295);
        proof {
            assert(s@.subrange(0, s@.len() as int) == s@);
            if s@.len() > 0 && s@[0] == '+' {
                assert(!is_digit(s@[0]));
            }
        }
        match m {
            Some(v) => Some(v as u32),
            None => None,
        }
    }
}

/// A number read from at most four characters is below ten thousand in magnitude.
pub proof fn lemma_year_field_small(s: Seq<char>)
    requires
        s.len() <= 4,
    ensures
        match parse_i64_spec(s) {
            Some(v) => -9999 <= v <= 9999,
            None => true,
        },
{
    reveal_with_fuel(pow10, 5);
    lemma_digits_value_bound(s);
    lemma_digits_value_bound(s.drop_first());
    if s.len() > 0 && all_digits(s) {
        lemma_digits_value_nonneg(s);
    }
    if s.len() > 1 && all_digits(s.drop_first()) {
        lemma_digits_value_nonneg(s.drop_first());
    }
}

/// A digit run of length `n` is worth less than `10^n`.
pub proof fn lemma_digits_value_bound(s: Seq<char>)
    ensures
        all_digits(s) ==> digits_value(s) < pow10(s.len()),
    decreases s.len(),
{
    if s.len() > 0 && all_digits(s) {
        assert(all_digits(s.drop_last())) by {
            assert forall|i: int| 0 <= i < s.drop_last().len() implies is_digit(
                #[trigger] s.drop_last()[i],
            ) by {
                assert(s.drop_last()[i] == s[i]);
            }
        }
        lemma_digits_value_bound(s.drop_last());
        lemma_digits_value_nonneg(s.drop_last());
        assert(is_digit(s[s.len() - 1]));
        let p = pow10((s.len() - 1) as nat);
        assert(digits_value(s.drop_last()) * 10 + 9 < p * 10) by (nonlinear_arith)
            requires
                digits_value(s.drop_last()) < p,
        ;
    }
}

/// Ten to the `n`.
pub open spec fn pow10(n: nat) -> int
    decreases n,
{
    if n == 0 {
        1
    } else {
        10 * pow10((n - 1) as nat)
    }
}

// ---------------------------------------------------------------------------
// Formatting
// ---------------------------------------------------------------------------

/// The ASCII digit for `d < 10`.
pub open spec fn digit_char(d: int) -> char {
    ((d + '0' as int) as u32) as char
}

/// The decimal numeral of `n`, with no leading zeros (`"0"` for zero).
pub open spec fn decimal(n: nat) -> Seq<char>
    decreases n,
{
    if n < 10 {
        seq![digit_char(n as int)]
    } else {
        decimal(n / 10).push(digit_char((n % 10) as int))
    }
}

/// `s` left-padded with zeros to at least `width` characters.
pub open spec fn zero_pad(s: Seq<char>, width: nat) -> Seq<char> {
    if s.len() >= width {
        s
    } else {
        Seq::new((width - s.len()) as nat, |i: int| '0') + s
    }
}

/// What `format!("{:0w$}", v)` writes for an integer: the sign counts
/// towards the width and the zeros go after it.
pub open spec fn padded_int(v: int, width: nat) -> Seq<char> {
    if v >= 0 {
        zero_pad(decimal(v as nat), width)
    } else {
        seq!['-'] + zero_pad(decimal((-v) as nat), if width >= 1 { (width - 1) as nat } else { 0 })
    }
}

/// The ASCII digit character for `d`.
fn digit_to_char(d: u64) -> (r: char)
    requires
        d < 10,
    ensures
        r == digit_char(d as int),
{
    let b: u8 = (d as u8) + 48;
    b as char
}

/// The decimal numeral of `n`.
pub fn u64_to_decimal(n: u64) -> (r: Vec<char>)
    ensures
        r@ == decimal(n as nat),
        r@.len() >= 1,
{
    let mut out: Vec<char> = Vec::new();
    let mut q: u64 = n;
    let mut first = true;
    while first || q > 0
        invariant
            first ==> q == n && out@.len() == 0,
            !first && q == 0 ==> decimal(n as nat) == out@,
            q > 0 ==> decimal(n as nat) == decimal(q as nat) + out@,
            !first ==> out@.len() >= 1,
        decreases q as int + (if first { 1int } else { 0int }),
    {
        let d = q % 10;
        let c = digit_to_char(d);
        proof {
            if q >= 10 {
                assert(decimal(q as nat) == decimal((q / 10) as nat).push(c));
                assert(decimal(q as nat) + out@ == decimal((q / 10) as nat) + (seq![c] + out@));
            } else {
                assert(decimal(q as nat) == seq![c]);
            }
            if first && q == 0 {
                assert(decimal(0) == seq![c]);
            }
        }
        out.insert(0, c);
        q = q / 10;
        first = false;
    }
    out
}

/// `v` formatted as with `format!("{:0width$}", v)`.
pub fn i64_to_padded(v: i64, width: usize) -> (r: Vec<char>)
    ensures
        r@ == padded_int(v as int, width as nat),
{
    let neg = v < 0;
    let mag: u64 = if neg {
        if v == i64::MIN {
            9_223_372_036_854_775_808
        } else {
            (-v) as u64
        }
    } else {
        v as u64
    };
    let digits = u64_to_decimal(mag);
    let w: usize = if neg {
        if width >= 1 { width - 1 } else { 0 }
    } else {
        width
    };
    let mut out: Vec<char> = Vec::new();
    if neg {
        out.push('-');
    }
    let ghost start = out@;
    if digits.len() < w {
        let pad = w - digits.len();
        let mut i: usize = 0;
        while i < pad
            invariant
                i <= pad,
                out@ == start + Seq::new(i as nat, |j: int| '0'),
            decreases pad - i,
        {
            out.push('0');
            proof {
                assert(Seq::new((i + 1) as nat, |j: int| '0') == Seq::new(i as nat, |j: int| '0').push('0'));
            }
            i += 1;
        }
    }
    let ghost padded = out@;
    crate::text::push_all(&mut out, &digits);
    proof {
        if neg {
            assert(out@ == seq!['-'] + zero_pad(decimal(mag as nat), w as nat));
        } else {
            assert(out@ == zero_pad(decimal(mag as nat), w as nat));
        }
    }
    out
}


/// The digit written for `d < 10` is a digit, and reads back as `d`.
pub proof fn lemma_digit_char(d: int)
    requires
        0 <= d < 10,
    ensures
        is_digit(digit_char(d)),
        digit_value(digit_char(d)) == d,
{
    let c = digit_char(d);
    assert(c as int == d + 48);
}

/// The decimal numeral of `n` is a non-empty run of digits worth `n`.
pub proof fn lemma_decimal_reads_back(n: nat)
    ensures
        decimal(n).len() >= 1,
        all_digits(decimal(n)),
        digits_value(decimal(n)) == n,
    decreases n,
{
    if n < 10 {
        lemma_digit_char(n as int);
        assert(decimal(n).drop_last() =~= seq![]);
        assert(digits_value(seq![]) == 0);
        assert(digits_value(decimal(n)) == digits_value(decimal(n).drop_last()) * 10 + digit_value(decimal(n).last()));
    } else {
        lemma_decimal_reads_back(n / 10);
        lemma_digit_char((n % 10) as int);
        let s = decimal(n / 10);
        assert(decimal(n).drop_last() =~= s);
        assert(decimal(n).last() == digit_char((n % 10) as int));
        assert(digits_value(decimal(n)) == digits_value(s) * 10 + digit_value(decimal(n).last()));
        assert((n / 10) * 10 + n % 10 == n);
        assert forall|i: int| 0 <= i < decimal(n).len() implies is_digit(#[trigger] decimal(n)[i]) by {
            if i < s.len() {
                assert(decimal(n)[i] == s[i]);
            }
        }
    }
}

/// An `i64` written in decimal reads back as itself.
pub proof fn lemma_padded_reads_back(v: i64)
    ensures
        parse_i64_spec(padded_int(v as int, 0)) == Some(v),
{
    if v >= 0 {
        lemma_decimal_reads_back(v as nat);
        let s = decimal(v as nat);
        assert(padded_int(v as int, 0) == s);
        assert(is_digit(s[0]));
    } else {
        lemma_decimal_reads_back((-v) as nat);
        let s = decimal((-v) as nat);
        let t = seq!['-'] + s;
        assert(padded_int(v as int, 0) == t);
        assert(t.drop_first() =~= s);
    }
}


/// A run of zeros is a run of digits worth nothing.
proof fn lemma_zeros_value(k: nat)
    ensures
        all_digits(Seq::new(k, |i: int| '0')),
        digits_value(Seq::new(k, |i: int| '0')) == 0,
    decreases k,
{
    lemma_digit_char(0);
    if k > 0 {
        lemma_zeros_value((k - 1) as nat);
        assert(Seq::new(k, |i: int| '0').drop_last() =~= Seq::new((k - 1) as nat, |i: int| '0'));
    }
}

/// Leading zeros add digits but no value.
proof fn lemma_leading_zeros_value(k: nat, s: Seq<char>)
    requires
        all_digits(s),
    ensures
        all_digits(Seq::new(k, |i: int| '0') + s),
        digits_value(Seq::new(k, |i: int| '0') + s) == digits_value(s),
    decreases s.len(),
{
    let z = Seq::new(k, |i: int| '0');
    lemma_zeros_value(k);
    if s.len() == 0 {
        assert(z + s =~= z);
    } else {
        lemma_leading_zeros_value(k, s.drop_last());
        assert((z + s).drop_last() =~= z + s.drop_last());
        assert((z + s).last() == s.last());
    }
    assert forall|i: int| 0 <= i < (z + s).len() implies is_digit(#[trigger] (z + s)[i]) by {
        if i >= k {
            assert((z + s)[i] == s[i - k]);
        }
    }
}

/// A zero-padded numeral is a non-empty run of digits worth the number.
pub proof fn lemma_zero_pad_value(n: nat, width: nat)
    ensures
        zero_pad(decimal(n), width).len() >= 1,
        all_digits(zero_pad(decimal(n), width)),
        digits_value(zero_pad(decimal(n), width)) == n,
{
    lemma_decimal_reads_back(n);
    if decimal(n).len() < width {
        lemma_leading_zeros_value((width - decimal(n).len()) as nat, decimal(n));
    }
}

/// Different integers are written differently at any width.
pub proof fn lemma_padded_int_injective(a: int, b: int, width: nat)
    requires
        padded_int(a, width) == padded_int(b, width),
    ensures
        a == b,
{
    let sa = padded_int(a, width);
    if a >= 0 {
        lemma_zero_pad_value(a as nat, width);
        assert(is_digit(sa[0]));
        if b >= 0 {
            lemma_zero_pad_value(b as nat, width);
        } else {
            assert(sa[0] == '-');
        }
    } else {
        let w = if width >= 1 { (width - 1) as nat } else { 0nat };
        lemma_zero_pad_value((-a) as nat, w);
        assert(sa.drop_first() =~= zero_pad(decimal((-a) as nat), w));
        if b >= 0 {
            lemma_zero_pad_value(b as nat, width);
            assert(is_digit(sa[0]));
        } else {
            lemma_zero_pad_value((-b) as nat, w);
            assert(padded_int(b, width).drop_first() =~= zero_pad(decimal((-b) as nat), w));
        }
    }
}

/// A number from 1 to 99 is written in exactly two characters at width 2.
pub proof fn lemma_two_wide(v: int)
    requires
        1 <= v <= 99,
    ensures
        padded_int(v, 2).len() == 2,
{
    if v >= 10 {
        assert(decimal((v / 10) as nat).len() == 1);
    }
}


/// A number below `10^k` (`k >= 1`) has at most `k` digits.
pub proof fn lemma_decimal_len(n: nat, k: nat)
    requires
        k >= 1,
        n < pow10(k),
    ensures
        decimal(n).len() <= k,
    decreases n,
{
    if n >= 10 {
        assert(pow10(k) == 10 * pow10((k - 1) as nat));
        if k == 1 {
            assert(pow10(0) == 1);
        }
        lemma_decimal_len(n / 10, (k - 1) as nat);
    }
}
} // verus!
