//! Decimal float text read exactly: the grammar `f64::from_str` accepts for
//! finite values, and the relevance score such a number denotes once read as
//! the nearest `f64`, rounded half away from zero and clamped to `0..=100`.
//! The reading is modelled in integers: it matters only where it overflows
//! and where a value just below a half is read as the half itself.

use vstd::prelude::*;
use vstd::arithmetic::div_mod::lemma_fundamental_div_mod_converse;
use crate::text::{is_digit, digit_value, slice_chars, push_all};
use crate::num::{decimal, padded_int, zero_pad, i64_to_padded, u64_to_decimal, lemma_zero_pad_value,
    lemma_decimal_len, lemma_decimal_reads_back};
use crate::num::{digits_value, all_digits, decimal_value, pow10, lemma_digits_value_nonneg,
    lemma_digits_value_bound};

verus! {

// ---------------------------------------------------------------------------
// Powers of ten and digit runs
// ---------------------------------------------------------------------------

/// Powers of ten are positive.
pub proof fn lemma_pow10_pos(n: nat)
    ensures
        pow10(n) >= 1,
    decreases n,
{
    if n > 0 {
        lemma_pow10_pos((n - 1) as nat);
    }
}

/// `10^(a+b) == 10^a * 10^b`.
pub proof fn lemma_pow10_add(a: nat, b: nat)
    ensures
        pow10(a + b) == pow10(a) * pow10(b),
    decreases b,
{
    if b > 0 {
        lemma_pow10_add(a, (b - 1) as nat);
        assert(pow10(a + b) == 10 * pow10((a + b - 1) as nat));
        assert(pow10(a) * pow10(b) == pow10(a) * (10 * pow10((b - 1) as nat)));
        assert(pow10(a) * (10 * pow10((b - 1) as nat)) == 10 * (pow10(a) * pow10((b - 1) as nat)))
            by (nonlinear_arith);
    }
}

/// Powers of ten grow with the exponent.
pub proof fn lemma_pow10_mono(a: nat, b: nat)
    requires
        a <= b,
    ensures
        pow10(a) <= pow10(b),
{
    lemma_pow10_add(a, (b - a) as nat);
    lemma_pow10_pos(a);
    lemma_pow10_pos((b - a) as nat);
    assert(pow10(a) * pow10((b - a) as nat) >= pow10(a)) by (nonlinear_arith)
        requires
            pow10(a) >= 1,
            pow10((b - a) as nat) >= 1,
    ;
    assert(a + (b - a) as nat == b);
}

/// Splitting a digit run after `j` digits: `v(s) == v(s[..j]) * 10^(n-j) + v(s[j..])`.
pub proof fn lemma_digits_split(s: Seq<char>, j: int)
    requires
        0 <= j <= s.len(),
    ensures
        digits_value(s) == digits_value(s.take(j)) * pow10((s.len() - j) as nat) + digits_value(
            s.skip(j),
        ),
    decreases s.len(),
{
    if j == s.len() {
        assert(s.take(j) == s);
        assert(s.skip(j).len() == 0);
        assert(pow10(0) == 1);
        assert(digits_value(s.skip(j)) == 0);
    } else {
        let t = s.drop_last();
        lemma_digits_split(t, j);
        assert(t.take(j) == s.take(j));
        assert(s.skip(j).drop_last() == t.skip(j));
        assert(s.skip(j).last() == s.last());
        let a = digits_value(s.take(j));
        let p = pow10((t.len() - j) as nat);
        let b = digits_value(t.skip(j));
        assert(pow10((s.len() - j) as nat) == 10 * p);
        assert((a * p + b) * 10 + digit_value(s.last()) == a * (10 * p) + (b * 10 + digit_value(
            s.last(),
        ))) by (nonlinear_arith);
    }
}

/// A run of zeros is worth nothing.
pub proof fn lemma_zeros_value(s: Seq<char>)
    requires
        forall|k: int| 0 <= k < s.len() ==> s[k] == '0',
    ensures
        digits_value(s) == 0,
    decreases s.len(),
{
    if s.len() > 0 {
        lemma_zeros_value(s.drop_last());
    }
}

/// Sub-runs of a digit run are digit runs.
pub proof fn lemma_all_digits_sub(s: Seq<char>, a: int, b: int)
    requires
        all_digits(s),
        0 <= a <= b <= s.len(),
    ensures
        all_digits(s.subrange(a, b)),
{
    assert forall|k: int| 0 <= k < b - a implies is_digit(#[trigger] s.subrange(a, b)[k]) by {
        assert(s.subrange(a, b)[k] == s[a + k]);
    }
}

/// A digit run that starts with a nonzero digit is worth at least `10^(n-1)`.
pub proof fn lemma_leading_digit(s: Seq<char>)
    requires
        all_digits(s),
        s.len() >= 1,
        s[0] != '0',
    ensures
        pow10((s.len() - 1) as nat) <= digits_value(s) < pow10(s.len()),
{
    lemma_digits_split(s, 1);
    lemma_digits_value_bound(s);
    lemma_all_digits_sub(s, 1, s.len() as int);
    assert(s.skip(1) == s.subrange(1, s.len() as int));
    lemma_digits_value_nonneg(s.skip(1));
    assert(s.take(1).drop_last().len() == 0);
    assert(digits_value(s.take(1).drop_last()) == 0);
    assert(s.take(1).last() == s[0]);
    assert(digits_value(s.take(1)) == digit_value(s[0]));
    assert(is_digit(s[0]));
    lemma_pow10_pos((s.len() - 1) as nat);
    assert(digits_value(s.take(1)) * pow10((s.len() - 1) as nat) >= pow10((s.len() - 1) as nat))
        by (nonlinear_arith)
        requires
            digits_value(s.take(1)) >= 1,
            pow10((s.len() - 1) as nat) >= 1,
    ;
}

// ---------------------------------------------------------------------------
// The grammar
// ---------------------------------------------------------------------------

/// The index of the first exponent mark (`e` or `E`) at or after `i`, or the
/// length of `s` when there is none.
pub open spec fn exp_mark_from(s: Seq<char>, i: int) -> int
    decreases s.len() - i,
{
    if i < 0 || i >= s.len() {
        s.len() as int
    } else if s[i] == 'e' || s[i] == 'E' {
        i
    } else {
        exp_mark_from(s, i + 1)
    }
}

/// The index of the first `.` in `s` at or after `i`, or the length of `s`.
pub open spec fn point_from(s: Seq<char>, i: int) -> int
    decreases s.len() - i,
{
    if i < 0 || i >= s.len() {
        s.len() as int
    } else if s[i] == '.' {
        i
    } else {
        point_from(s, i + 1)
    }
}

/// The length of the sign `s` starts with (0 or 1).
pub open spec fn sign_len(s: Seq<char>) -> int {
    if s.len() > 0 && (s[0] == '+' || s[0] == '-') {
        1
    } else {
        0
    }
}

/// A finite decimal float as `f64::from_str` reads it, exactly: whether it is
/// negative, its digits with the point removed, and the point's position
/// counted in digits from the left once the exponent is applied (so the value
/// is `digits * 10^(point - digits.len())`). `None` for text outside the
/// grammar: an optional sign, digits with at most one point and at least one
/// digit, then optionally `e`/`E`, an optional sign and at least one digit.
/// (`inf` and `nan` are outside it too: they denote no finite value.)
pub open spec fn float_parts(s: Seq<char>) -> Option<(bool, Seq<char>, int)> {
    let sl = sign_len(s);
    let em = exp_mark_from(s, sl);
    let body = s.subrange(sl, em);
    let dot = point_from(body, 0);
    let ip = body.take(dot);
    let fp = if dot < body.len() { body.skip(dot + 1) } else { seq![] };
    let exp = if em == s.len() { Some(0int) } else { decimal_value(s.skip(em + 1), true) };
    if all_digits(ip) && all_digits(fp) && ip.len() + fp.len() > 0 && exp is Some {
        Some((sl == 1 && s[0] == '-', ip + fp, ip.len() + exp->0))
    } else {
        None
    }
}

// ---------------------------------------------------------------------------
// The score
// ---------------------------------------------------------------------------

/// `2^n`.
pub open spec fn pow_two(n: nat) -> int
    decreases n,
{
    if n == 0 {
        1
    } else {
        2 * pow_two((n - 1) as nat)
    }
}

/// The least magnitude that reading as `f64` rounds to infinity: halfway
/// between `f64::MAX` (`2^1024 - 2^971`) and `2^1024`, which rounds up
/// because `f64::MAX` has an odd significand.
pub open spec fn f64_overflow() -> int {
    pow_two(1024) - pow_two(970)
}

/// Whether `m * 10^e` reads as an infinite `f64`: its magnitude reaches
/// `f64_overflow()`.
pub open spec fn beyond_f64(m: int, e: int) -> bool {
    if e >= 0 {
        m * pow10(e as nat) >= f64_overflow()
    } else {
        m >= f64_overflow() * pow10((-e) as nat)
    }
}

/// For `0 <= k < 100`: the `g` with `2^-g` half the gap between `k + 1/2`
/// and the `f64` just below it (`k + 1/2` lies in `[2^b, 2^(b+1))` where the
/// gap is `2^(b-52)`; below `1/2` the gap halves).
pub open spec fn half_gap_exp(k: int) -> nat {
    if k == 0 {
        55
    } else if k == 1 {
        53
    } else if k < 4 {
        52
    } else if k < 8 {
        51
    } else if k < 16 {
        50
    } else if k < 32 {
        49
    } else if k < 64 {
        48
    } else {
        47
    }
}

/// Whether `k + f / 10^places`, for `0 <= f < 10^places`, reads as an `f64`
/// of at least `k + 1/2`: reading rounds to the nearest `f64`, ties to the
/// even significand (which `k + 1/2` has), so this holds exactly when the
/// fraction is at least `1/2 - 2^-g` with `g = half_gap_exp(k)`.
pub open spec fn reaches_half(f: int, places: nat, k: int) -> bool {
    let g = half_gap_exp(k);
    pow_two(g) * f >= (pow_two((g - 1) as nat) - 1) * pow10(places)
}

/// `m * 10^e` read as the nearest `f64` and rounded half away from zero
/// (`f64::round`), for `m >= 0` and a value that is not beyond `f64`. Only
/// the rounding of values below 100 is told apart; from 100 on the value is
/// at least 100 either way.
pub open spec fn round_f64(m: int, e: int) -> int {
    if e >= 0 {
        m * pow10(e as nat)
    } else {
        let p = pow10((-e) as nat);
        let k = m / p;
        if k < 100 && reaches_half(m % p, (-e) as nat, k) {
            k + 1
        } else {
            k
        }
    }
}

/// The score the number `±digits * 10^(point - digits.len())` gives as
/// `f64::from_str`, `f64::round` and the clamp compute it: `None` when it
/// reads as an infinite `f64`, otherwise the value read as the nearest `f64`,
/// rounded half away from zero and clamped to `0..=100`.
pub open spec fn score_parts(neg: bool, digits: Seq<char>, point: int) -> Option<u8> {
    let m = digits_value(digits);
    let e = point - digits.len();
    if m == 0 {
        Some(0u8)
    } else if beyond_f64(m, e) {
        None
    } else if neg {
        Some(0u8)
    } else {
        let v = round_f64(m, e);
        Some(if v > 100 { 100u8 } else { v as u8 })
    }
}

/// The number written by the base-`10^18` digits `cs`, most significant
/// first.
pub open spec fn base18(cs: Seq<int>, n: nat) -> int
    decreases n,
{
    if n == 0 {
        0
    } else {
        base18(cs, (n - 1) as nat) * pow10(18) + cs[n - 1]
    }
}

/// The decimal digits of `f64_overflow()` in groups of eighteen, after its
/// first three.
pub open spec fn overflow_groups() -> Seq<int> {
    seq![
        179int,
        769313486231580793,
        728971405303415079,
        934132710037826936,
        173778980444968292,
        764750946649017977,
        587207096330286416,
        692887910946555547,
        851940402630657488,
        671505820681908902,
        708383676273854,
        845817711531764475,
        730270069855571366,
        959622842914819860,
        834936475292719074,
        168444365510704342,
        711559699508093042,
        880177904174497792,
    ]
}

/// `2^(a+b) == 2^a * 2^b`.
proof fn lemma_pow_two_add(a: nat, b: nat)
    ensures
        pow_two(a + b) == pow_two(a) * pow_two(b),
    decreases b,
{
    if b > 0 {
        lemma_pow_two_add(a, (b - 1) as nat);
        assert(pow_two(a) * (2 * pow_two((b - 1) as nat)) == 2 * (pow_two(a) * pow_two((b - 1) as nat)))
            by (nonlinear_arith);
    }
}

/// The overflow threshold lies between `10^308` and `10^309` and is written
/// by its groups.
proof fn lemma_f64_constants()
    ensures
        pow10(308) <= f64_overflow() < pow10(309),
        f64_overflow() == base18(overflow_groups(), 18),
{
    assert(pow_two(16) == 65536) by {
        reveal_with_fuel(pow_two, 17);
    }
    lemma_pow_two_add(16, 16);
    assert(pow_two(32) == 4294967296);
    lemma_pow_two_add(32, 32);
    assert(pow_two(64) == 18446744073709551616);
    lemma_pow_two_add(64, 64);
    assert(pow_two(128) == 340282366920938463463374607431768211456);
    lemma_pow_two_add(128, 128);
    assert(pow_two(256) == 115792089237316195423570985008687907853269984665640564039457584007913129639936);
    lemma_pow_two_add(256, 256);
    assert(pow_two(512) == 13407807929942597099574024998205846127479365820592393377723561443721764030073546976801874298166903427690031858186486050853753882811946569946433649006084096);
    lemma_pow_two_add(512, 512);
    assert(pow_two(1024) == 179769313486231590772930519078902473361797697894230657273430081157732675805500963132708477322407536021120113879871393357658789768814416622492847430639474124377767893424865485276302219601246094119453082952085005768838150682342462881473913110540827237163350510684586298239947245938479716304835356329624224137216);
    assert(pow_two(2) == 4 && pow_two(8) == 256) by {
        reveal_with_fuel(pow_two, 9);
    }
    lemma_pow_two_add(8, 2);
    assert(pow_two(10) == 1024);
    lemma_pow_two_add(64, 10);
    assert(pow_two(74) == 18889465931478580854784);
    lemma_pow_two_add(128, 74);
    assert(pow_two(202) == 6427752177035961102167848369364650410088811975131171341205504);
    lemma_pow_two_add(256, 202);
    assert(pow_two(458) == 744282853678701455922507579277316643178128753343813693728245963960974631028119473486019635930893891134220822124816566203939432067701407744);
    lemma_pow_two_add(512, 458);
    assert(pow_two(970) == 9979201547673599058281863565184192830337256302177287707512736212186059459344820328924789827463178505446712234220962476219862189941967968303695858991424157101600028364755428382587688607221814935913266783722719619966654052275604351944444276342240220787535604534378780208211792476151720049639424);
    assert(f64_overflow() == 179769313486231580793728971405303415079934132710037826936173778980444968292764750946649017977587207096330286416692887910946555547851940402630657488671505820681908902000708383676273854845817711531764475730270069855571366959622842914819860834936475292719074168444365510704342711559699508093042880177904174497792);
    assert(pow10(18) == 1_000_000_000_000_000_000) by {
        reveal_with_fuel(pow10, 19);
    }
    assert(base18(overflow_groups(), 18) == 179769313486231580793728971405303415079934132710037826936173778980444968292764750946649017977587207096330286416692887910946555547851940402630657488671505820681908902000708383676273854845817711531764475730270069855571366959622842914819860834936475292719074168444365510704342711559699508093042880177904174497792) by {
        reveal_with_fuel(base18, 19);
    }
    lemma_pow10_add(18, 18);
    assert(pow10(36) == 1000000000000000000000000000000000000);
    lemma_pow10_add(36, 36);
    assert(pow10(72) == 1000000000000000000000000000000000000000000000000000000000000000000000000);
    lemma_pow10_add(72, 72);
    assert(pow10(144) == 1000000000000000000000000000000000000000000000000000000000000000000000000000000000000000000000000000000000000000000000000000000000000000000000000);
    lemma_pow10_add(144, 144);
    assert(pow10(288) == 1000000000000000000000000000000000000000000000000000000000000000000000000000000000000000000000000000000000000000000000000000000000000000000000000000000000000000000000000000000000000000000000000000000000000000000000000000000000000000000000000000000000000000000000000000000000000000000000000);
    lemma_pow10_add(288, 18);
    assert(pow10(306) == 1000000000000000000000000000000000000000000000000000000000000000000000000000000000000000000000000000000000000000000000000000000000000000000000000000000000000000000000000000000000000000000000000000000000000000000000000000000000000000000000000000000000000000000000000000000000000000000000000000000000000000000);
    assert(pow10(2) == 100 && pow10(1) == 10) by {
        reveal_with_fuel(pow10, 3);
    }
    lemma_pow10_add(306, 2);
    assert(pow10(308) == 100000000000000000000000000000000000000000000000000000000000000000000000000000000000000000000000000000000000000000000000000000000000000000000000000000000000000000000000000000000000000000000000000000000000000000000000000000000000000000000000000000000000000000000000000000000000000000000000000000000000000000000);
    lemma_pow10_add(308, 1);
    assert(pow10(309) == 1000000000000000000000000000000000000000000000000000000000000000000000000000000000000000000000000000000000000000000000000000000000000000000000000000000000000000000000000000000000000000000000000000000000000000000000000000000000000000000000000000000000000000000000000000000000000000000000000000000000000000000000);
}

/// The score a decimal float text gives, when it is one.
pub open spec fn score_text(s: Seq<char>) -> Option<u8> {
    match float_parts(s) {
        Some((neg, digits, point)) => score_parts(neg, digits, point),
        None => None,
    }
}

// ---------------------------------------------------------------------------
// The score, digit by digit
// ---------------------------------------------------------------------------

/// A score clamped to `0..=100`, for `v >= 0`.
pub open spec fn clamp100(v: int) -> u8 {
    if v > 100 {
        100u8
    } else {
        v as u8
    }
}

/// `s` cut or padded with zeros to `n` digits.
pub open spec fn pad_to(s: Seq<char>, n: nat) -> Seq<char> {
    Seq::new(n, |i: int| if i < s.len() { s[i] } else { '0' })
}

/// The integer part of `m * 10^e` (`m >= 0`) is written by the first
/// `l + e` digits of `m`'s numeral, padded with zeros.
proof fn lemma_trunc_pad(s: Seq<char>, n: nat)
    requires
        all_digits(s),
    ensures
        all_digits(pad_to(s, n)),
        trunc_scaled(digits_value(s), n - s.len()) == digits_value(pad_to(s, n)),
{
    let p = pad_to(s, n);
    assert forall|k: int| 0 <= k < p.len() implies is_digit(#[trigger] p[k]) by {
        if k < s.len() {
            assert(is_digit(s[k]));
        }
    }
    if n <= s.len() {
        assert(p == s.take(n as int));
        let k = (s.len() - n) as nat;
        let q = pow10(k);
        lemma_pow10_pos(k);
        lemma_digits_split(s, n as int);
        lemma_all_digits_sub(s, n as int, s.len() as int);
        assert(s.skip(n as int) == s.subrange(n as int, s.len() as int));
        lemma_digits_value_bound(s.skip(n as int));
        lemma_digits_value_nonneg(s.skip(n as int));
        if k == 0 {
            assert(pow10(0) == 1);
            assert(s.skip(n as int).len() == 0);
            assert(s.take(n as int) == s);
            assert(trunc_scaled(digits_value(s), n - s.len()) == digits_value(s) * pow10(0));
        } else {
            lemma_fundamental_div_mod_converse(
                digits_value(s),
                q,
                digits_value(s.take(n as int)),
                digits_value(s.skip(n as int)),
            );
        }
    } else {
        lemma_digits_split(p, s.len() as int);
        assert(p.take(s.len() as int) == s);
        assert forall|k: int| 0 <= k < p.skip(s.len() as int).len() implies #[trigger] p.skip(
            s.len() as int,
        )[k] == '0' by {
            assert(p.skip(s.len() as int)[k] == p[s.len() + k]);
        }
        lemma_zeros_value(p.skip(s.len() as int));
        assert(n - s.len() >= 0);
        assert(trunc_scaled(digits_value(s), n - s.len()) == digits_value(s) * pow10((n - s.len()) as nat));
    }
}

/// A value with `l` significant digits scaled by `10^e` is beyond `f64`
/// with 310 or more integer digits, not with 308 or fewer, and otherwise
/// exactly when its integer part reaches the overflow threshold.
proof fn lemma_beyond(m: int, l: nat, e: int)
    requires
        l >= 1,
        pow10((l - 1) as nat) <= m < pow10(l),
    ensures
        l + e >= 310 ==> beyond_f64(m, e),
        l + e <= 308 ==> !beyond_f64(m, e),
        beyond_f64(m, e) <==> trunc_scaled(m, e) >= f64_overflow(),
{
    lemma_f64_constants();
    let b = f64_overflow();
    lemma_pow10_pos((l - 1) as nat);
    if e >= 0 {
        let pe = pow10(e as nat);
        lemma_pow10_pos(e as nat);
        lemma_pow10_add((l - 1) as nat, e as nat);
        lemma_pow10_add(l, e as nat);
        assert(pow10((l - 1) as nat) * pe <= m * pe) by (nonlinear_arith)
            requires
                pow10((l - 1) as nat) <= m,
                pe >= 1,
        ;
        assert(m * pe < pow10(l) * pe) by (nonlinear_arith)
            requires
                m < pow10(l),
                pe >= 1,
        ;
        if l + e >= 310 {
            lemma_pow10_mono(309, (l - 1 + e) as nat);
        } else if l + e <= 308 {
            lemma_pow10_mono((l + e) as nat, 308);
        }
    } else {
        let k = (-e) as nat;
        let p = pow10(k);
        lemma_pow10_pos(k);
        if l + e >= 310 {
            lemma_pow10_mono((309 - e) as nat, (l - 1) as nat);
            lemma_pow10_add(309, k);
            assert(b * p < pow10(309) * p) by (nonlinear_arith)
                requires
                    b < pow10(309),
                    p >= 1,
            ;
        } else if l + e <= 308 {
            lemma_pow10_mono(l, (308 - e) as nat);
            lemma_pow10_add(308, k);
            assert(pow10(308) * p <= b * p) by (nonlinear_arith)
                requires
                    pow10(308) <= b,
                    p >= 1,
            ;
        }
        vstd::arithmetic::div_mod::lemma_fundamental_div_mod(m, p);
        vstd::arithmetic::div_mod::lemma_mod_pos_bound(m, p);
        let q = m / p;
        assert(m >= b * p <==> q >= b) by (nonlinear_arith)
            requires
                m == p * q + m % p,
                0 <= m % p < p,
                p > 0,
        ;
    }
}

/// Powers of two up to `2^55`.
proof fn lemma_pow_two_small()
    ensures
        pow_two(46) == 70368744177664,
        pow_two(47) == 140737488355328,
        pow_two(48) == 281474976710656,
        pow_two(49) == 562949953421312,
        pow_two(50) == 1125899906842624,
        pow_two(51) == 2251799813685248,
        pow_two(52) == 4503599627370496,
        pow_two(53) == 9007199254740992,
        pow_two(54) == 18014398509481984,
        pow_two(55) == 36028797018963968,
{
    reveal_with_fuel(pow_two, 56);
}

/// A value with at least four integer digits rounds to more than 100.
proof fn lemma_round_big(m: int, l: nat, e: int)
    requires
        l >= 1,
        pow10((l - 1) as nat) <= m,
        l + e >= 4,
    ensures
        round_f64(m, e) > 100,
{
    lemma_pow10_mono(3, (l - 1 + e) as nat);
    assert(pow10(3) == 1000) by {
        reveal_with_fuel(pow10, 4);
    }
    if e >= 0 {
        let pe = pow10(e as nat);
        lemma_pow10_pos(e as nat);
        lemma_pow10_add((l - 1) as nat, e as nat);
        assert(pow10((l - 1) as nat) * pe <= m * pe) by (nonlinear_arith)
            requires
                pow10((l - 1) as nat) <= m,
                pe >= 1,
        ;
    } else {
        let k = (-e) as nat;
        let p = pow10(k);
        lemma_pow10_pos(k);
        lemma_pow10_add(k, (l - 1 - k) as nat);
        assert(k + (l - 1 - k) as nat == (l - 1) as nat);
        let big = pow10((l - 1 - k) as nat);
        vstd::arithmetic::div_mod::lemma_fundamental_div_mod(m, p);
        vstd::arithmetic::div_mod::lemma_mod_pos_bound(m, p);
        assert(m / p >= big) by (nonlinear_arith)
            requires
                m == p * (m / p) + m % p,
                0 <= m % p < p,
                m >= p * big,
                p > 0,
        ;
    }
}

/// A value below a tenth rounds to zero.
proof fn lemma_round_small(m: int, l: nat, e: int)
    requires
        0 <= m < pow10(l),
        l + e <= -1,
    ensures
        round_f64(m, e) == 0,
{
    let k = (-e) as nat;
    let p = pow10(k);
    lemma_pow10_mono(l, (k - 1) as nat);
    assert(p == 10 * pow10((k - 1) as nat));
    lemma_fundamental_div_mod_converse(m, p, 0, m);
    lemma_pow_two_small();
    assert(half_gap_exp(0) == 55);
    assert(36028797018963968 * m < 18014398509481983int * p) by (nonlinear_arith)
        requires
            10 * m < p,
            m >= 0,
    ;
}

/// Reading `s` as a value with `n` integer digits: the integer part is
/// written by the first `n` digits and the fraction by the rest.
proof fn lemma_split_point(s: Seq<char>, n: int)
    requires
        all_digits(s),
        0 <= n < s.len(),
    ensures
        digits_value(s) / pow10((s.len() - n) as nat) == digits_value(s.take(n)),
        digits_value(s) % pow10((s.len() - n) as nat) == digits_value(s.skip(n)),
{
    let k = (s.len() - n) as nat;
    lemma_pow10_pos(k);
    lemma_digits_split(s, n);
    lemma_all_digits_sub(s, n, s.len() as int);
    assert(s.skip(n) == s.subrange(n, s.len() as int));
    lemma_digits_value_bound(s.skip(n));
    lemma_digits_value_nonneg(s.skip(n));
    lemma_fundamental_div_mod_converse(digits_value(s), pow10(k), digits_value(s.take(n)), digits_value(s.skip(n)));
}

/// The score of `±digits` with the point at `point`, read off the digits
/// from the first nonzero one (at `z`): the count `n` of integer digits
/// decides the far cases (with exactly 309 the integer part is compared
/// with the overflow threshold), and otherwise the first `n` significant
/// digits and the fraction after them give the rounded value.
pub proof fn lemma_score_by_digits(neg: bool, d: Seq<char>, point: int, z: int)
    requires
        all_digits(d),
        0 <= z < d.len(),
        forall|k: int| 0 <= k < z ==> d[k] == '0',
        d[z] != '0',
    ensures
        ({
            let sd = d.skip(z);
            let l = d.len() - z;
            let n = point - z;
            score_parts(neg, d, point) == if n >= 310 {
                None
            } else if n == 309 && digits_value(pad_to(sd, 309)) >= f64_overflow() {
                None
            } else if neg || n < 0 {
                Some(0u8)
            } else if n >= 4 {
                Some(100u8)
            } else if n < l {
                let q = digits_value(sd.take(n));
                Some(clamp100(if q < 100 && reaches_half(digits_value(sd.skip(n)), (l - n) as nat, q) {
                    q + 1
                } else {
                    q
                }))
            } else {
                Some(clamp100(digits_value(sd) * pow10((n - l) as nat)))
            }
        }),
{
    let sd = d.skip(z);
    let l = (d.len() - z) as nat;
    let n = point - z;
    let e = point - d.len();
    lemma_digits_split(d, z);
    assert(d.take(z) == d.subrange(0, z));
    lemma_zeros_value(d.take(z));
    lemma_all_digits_sub(d, z, d.len() as int);
    assert(sd == d.subrange(z, d.len() as int));
    assert(sd[0] == d[z]);
    lemma_leading_digit(sd);
    let m = digits_value(d);
    assert(m == digits_value(sd));
    lemma_pow10_pos((l - 1) as nat);
    lemma_beyond(m, l, e);
    assert(l + e == n);
    if n == 309 {
        lemma_trunc_pad(sd, 309);
        assert(309 - sd.len() == e);
    }
    if n < 310 && !neg {
        if n >= 4 {
            lemma_round_big(m, l, e);
        } else if n < 0 {
            lemma_round_small(m, l, e);
        } else if n < l {
            lemma_split_point(sd, n);
            assert((-e) as nat == (sd.len() - n) as nat);
        }
    }
}

// ---------------------------------------------------------------------------
// Reading the text
// ---------------------------------------------------------------------------

/// Exponents are read only up to this magnitude: past it every nonzero
/// value is either beyond `f64` or rounds to zero, whatever the digits.
pub const EXP_CAP: i128 = 1_000_000_000_000_000_000_000_000_000_000;

/// An exponent capped to `±EXP_CAP`.
pub open spec fn capped(v: int) -> int {
    if v > EXP_CAP {
        EXP_CAP as int
    } else if v < -EXP_CAP {
        -EXP_CAP
    } else {
        v
    }
}

/// Capping the exponent does not change the score.
proof fn lemma_score_capped(neg: bool, d: Seq<char>, il: int, x: int)
    requires
        all_digits(d),
        0 <= il <= d.len() <= usize::MAX,
    ensures
        score_parts(neg, d, il + x) == score_parts(neg, d, il + capped(x)),
{
    if x != capped(x) {
        lemma_first_nonzero(d, 0);
        let z = first_nonzero(d, 0);
        if z == d.len() {
            lemma_zeros_value(d);
        } else {
            lemma_score_by_digits(neg, d, il + x, z);
            lemma_score_by_digits(neg, d, il + capped(x), z);
        }
    }
}

/// The index of the first character of `d` at or after `i` that is not `0`,
/// or the length of `d`.
pub open spec fn first_nonzero(d: Seq<char>, i: int) -> int
    decreases d.len() - i,
{
    if i < 0 || i >= d.len() {
        d.len() as int
    } else if d[i] != '0' {
        i
    } else {
        first_nonzero(d, i + 1)
    }
}

/// Everything before the first nonzero character is `0`.
pub proof fn lemma_first_nonzero(d: Seq<char>, i: int)
    requires
        0 <= i <= d.len(),
        forall|k: int| 0 <= k < i ==> d[k] == '0',
    ensures
        i <= first_nonzero(d, i) <= d.len(),
        forall|k: int| 0 <= k < first_nonzero(d, i) ==> d[k] == '0',
        first_nonzero(d, i) < d.len() ==> d[first_nonzero(d, i)] != '0',
    decreases d.len() - i,
{
    if i < d.len() && d[i] == '0' {
        lemma_first_nonzero(d, i + 1);
    }
}

/// The index of the first `e` or `E` in `s` at or after `from`, or its length.
fn exp_mark(s: &Vec<char>, from: usize) -> (r: usize)
    requires
        from <= s.len(),
    ensures
        r == exp_mark_from(s@, from as int),
        from <= r <= s.len(),
{
    let mut i = from;
    while i < s.len() && s[i] != 'e' && s[i] != 'E'
        invariant
            from <= i <= s.len(),
            exp_mark_from(s@, from as int) == exp_mark_from(s@, i as int),
        decreases s.len() - i,
    {
        i += 1;
    }
    i
}

/// The index of the first `.` in `s`, or its length.
fn point_index(s: &Vec<char>) -> (r: usize)
    ensures
        r == point_from(s@, 0),
        r <= s.len(),
{
    let mut i: usize = 0;
    while i < s.len() && s[i] != '.'
        invariant
            i <= s.len(),
            point_from(s@, 0) == point_from(s@, i as int),
        decreases s.len() - i,
    {
        i += 1;
    }
    i
}

/// Whether every character of `s` is a decimal digit.
pub fn all_digit_chars(s: &Vec<char>) -> (r: bool)
    ensures
        r == all_digits(s@),
{
    let mut i: usize = 0;
    while i < s.len()
        invariant
            i <= s.len(),
            forall|k: int| 0 <= k < i ==> is_digit(#[trigger] s@[k]),
        decreases s.len() - i,
    {
        if !('0' <= s[i] && s[i] <= '9') {
            return false;
        }
        i += 1;
    }
    true
}

/// The value of the digits `s[a..b]`, capped at `EXP_CAP`.
fn capped_digits(s: &Vec<char>, a: usize, b: usize) -> (r: i128)
    requires
        a <= b <= s.len(),
        all_digits(s@.subrange(a as int, b as int)),
    ensures
        r == capped(digits_value(s@.subrange(a as int, b as int))),
        0 <= r,
{
    let mut v: i128 = 0;
    let mut i: usize = a;
    while i < b
        invariant
            a <= i <= b <= s.len(),
            all_digits(s@.subrange(a as int, b as int)),
            0 <= digits_value(s@.subrange(a as int, i as int)),
            v == capped(digits_value(s@.subrange(a as int, i as int))),
        decreases b - i,
    {
        let ghost pre = s@.subrange(a as int, i as int);
        let ghost post = s@.subrange(a as int, i as int + 1);
        assert(post.drop_last() == pre);
        assert(post.last() == s@[i as int]);
        assert(s@.subrange(a as int, b as int)[i - a] == s@[i as int]);
        let dig = (s[i] as u32 - '0' as u32) as i128;
        if v < EXP_CAP {
            let nv = v * 10 + dig;
            v = if nv > EXP_CAP { EXP_CAP } else { nv };
        }
        i += 1;
    }
    v
}

/// An exponent: an optional sign then at least one digit, its value capped.
fn capped_exponent(s: &Vec<char>, from: usize) -> (r: Option<i128>)
    requires
        from <= s.len(),
    ensures
        match decimal_value(s@.skip(from as int), true) {
            Some(v) => r == Some(capped(v) as i128),
            None => r is None,
        },
{
    let t = slice_chars(s, from, s.len());
    assert(t@ == s@.skip(from as int));
    let signed = t.len() > 1 && (t[0] == '+' || t[0] == '-');
    let start: usize = if signed { 1 } else { 0 };
    if t.len() == 0 {
        return None;
    }
    let digits = slice_chars(&t, start, t.len());
    if !all_digit_chars(&digits) {
        proof {
            if !signed && t@.len() > 1 && (t@[0] == '+' || t@[0] == '-') {
            }
            assert(t@.drop_first() == t@.subrange(1, t@.len() as int));
            if all_digits(t@) {
                assert(all_digits(t@.subrange(0, t@.len() as int)));
                assert(t@.subrange(0, t@.len() as int) == t@);
            }
        }
        return None;
    }
    proof {
        assert(t@.drop_first() == t@.subrange(1, t@.len() as int));
        assert(digits@ == t@.subrange(start as int, t@.len() as int));
        if !signed {
            assert(digits@ == t@);
            if t@.len() > 1 && (t@[0] == '+' || t@[0] == '-') {
                assert(false);
            }
            if t@[0] == '+' || t@[0] == '-' {
                assert(!is_digit(digits@[0]));
            }
        }
    }
    let v = capped_digits(&t, start, t.len());
    if start == 1 && t[0] == '-' {
        Some(-v)
    } else {
        Some(v)
    }
}

/// Append the eighteen-digit numeral of `g` (zero-padded) to `b`.
fn push_group(b: &mut Vec<char>, g: u64)
    requires
        g < 1_000_000_000_000_000_000,
        all_digits(old(b)@),
    ensures
        final(b)@.len() == old(b)@.len() + 18,
        all_digits(final(b)@),
        digits_value(final(b)@) == digits_value(old(b)@) * pow10(18) + g,
{
    let ghost before = b@;
    let w = i64_to_padded(g as i64, 18);
    proof {
        assert(pow10(18) == 1_000_000_000_000_000_000) by {
            reveal_with_fuel(pow10, 19);
        }
        lemma_decimal_len(g as nat, 18);
        lemma_zero_pad_value(g as nat, 18);
        assert(w@ == zero_pad(decimal(g as nat), 18));
    }
    push_all(b, &w);
    proof {
        assert(b@ == before + w@);
        lemma_digits_split(b@, before.len() as int);
        assert(b@.take(before.len() as int) == before);
        assert(b@.skip(before.len() as int) == w@);
        assert forall|k: int| 0 <= k < b@.len() implies is_digit(#[trigger] b@[k]) by {
            if k < before.len() {
                assert(b@[k] == before[k]);
            } else {
                assert(b@[k] == w@[k - before.len()]);
            }
        }
    }
}

/// The 309 digits of `f64_overflow()`.
fn overflow_digits() -> (r: Vec<char>)
    ensures
        r@.len() == 309,
        all_digits(r@),
        digits_value(r@) == f64_overflow(),
{
    let groups: Vec<u64> = vec![
        769313486231580793,
        728971405303415079,
        934132710037826936,
        173778980444968292,
        764750946649017977,
        587207096330286416,
        692887910946555547,
        851940402630657488,
        671505820681908902,
        708383676273854,
        845817711531764475,
        730270069855571366,
        959622842914819860,
        834936475292719074,
        168444365510704342,
        711559699508093042,
        880177904174497792,
    ];
    let mut b = u64_to_decimal(179);
    proof {
        lemma_decimal_reads_back(179);
        assert(pow10(2) == 100 && pow10(3) == 1000) by {
            reveal_with_fuel(pow10, 4);
        }
        lemma_decimal_len(179, 3);
        lemma_digits_value_bound(b@);
        if b@.len() <= 2 {
            lemma_pow10_mono(b@.len(), 2);
        }
        assert(base18(overflow_groups(), 1) == 179) by {
            reveal_with_fuel(base18, 2);
        }
        assert forall|j: int| 0 <= j < 17 implies (#[trigger] groups@[j]) as int == overflow_groups()[j + 1]
            && groups@[j] < 1_000_000_000_000_000_000 by {
        }
    }
    let mut i: usize = 0;
    while i < groups.len()
        invariant
            groups@.len() == 17,
            i <= 17,
            b@.len() == 3 + 18 * i,
            all_digits(b@),
            digits_value(b@) == base18(overflow_groups(), (i + 1) as nat),
            forall|j: int| 0 <= j < 17 ==> (#[trigger] groups@[j]) as int == overflow_groups()[j + 1]
                && groups@[j] < 1_000_000_000_000_000_000,
        decreases groups.len() - i,
    {
        push_group(&mut b, groups[i]);
        i += 1;
    }
    proof {
        lemma_f64_constants();
    }
    b
}

/// Whether the integer part of a value whose significant digits are
/// `d[z..]` and that has 309 integer digits reaches the overflow threshold.
fn reaches_overflow(d: &Vec<char>, z: usize) -> (r: bool)
    requires
        all_digits(d@),
        z <= d.len(),
    ensures
        r == (digits_value(pad_to(d@.skip(z as int), 309)) >= f64_overflow()),
{
    let b = overflow_digits();
    let ghost x = pad_to(d@.skip(z as int), 309);
    proof {
        assert forall|k: int| 0 <= k < x.len() implies is_digit(#[trigger] x[k]) by {
            if k < d@.skip(z as int).len() {
                assert(x[k] == d@[z + k]);
            }
        }
    }
    // The sign of `x[..i] - b[..i]`, read digit by digit.
    let mut sign: i8 = 0;
    let mut i: usize = 0;
    while i < 309
        invariant
            i <= 309,
            b@.len() == 309,
            x.len() == 309,
            all_digits(b@),
            all_digits(x),
            x == pad_to(d@.skip(z as int), 309),
            z <= d.len(),
            sign == 0 ==> digits_value(x.take(i as int)) == digits_value(b@.take(i as int)),
            sign == 1 ==> digits_value(x.take(i as int)) >= digits_value(b@.take(i as int)) + 1,
            sign == -1 ==> digits_value(x.take(i as int)) + 1 <= digits_value(b@.take(i as int)),
            sign == 0 || sign == 1 || sign == -1,
        decreases 309 - i,
    {
        let c = if i < d.len() - z {
            d[z + i]
        } else {
            '0'
        };
        assert(c == x[i as int]);
        let y = b[i];
        proof {
            assert(x.take(i as int + 1).drop_last() == x.take(i as int));
            assert(b@.take(i as int + 1).drop_last() == b@.take(i as int));
            assert(x.take(i as int + 1).last() == c);
            assert(b@.take(i as int + 1).last() == y);
            assert(is_digit(c) && is_digit(y));
        }
        if sign == 0 {
            if c > y {
                sign = 1;
            } else if c < y {
                sign = -1;
            }
        }
        i += 1;
    }
    proof {
        assert(x.take(309) == x);
        assert(b@.take(309) == b@);
    }
    sign >= 0
}

/// The `g` of `half_gap_exp(k)`.
fn gap_exp(k: u32) -> (r: u32)
    ensures
        r == half_gap_exp(k as int),
{
    if k == 0 {
        55
    } else if k == 1 {
        53
    } else if k < 4 {
        52
    } else if k < 8 {
        51
    } else if k < 16 {
        50
    } else if k < 32 {
        49
    } else if k < 64 {
        48
    } else {
        47
    }
}

/// `2^g` for `47 <= g <= 55`.
fn two_to(g: u32) -> (r: i64)
    requires
        47 <= g <= 55,
    ensures
        r == pow_two(g as nat),
{
    proof {
        lemma_pow_two_small();
    }
    if g == 47 {
        140737488355328
    } else if g == 48 {
        281474976710656
    } else if g == 49 {
        562949953421312
    } else if g == 50 {
        1125899906842624
    } else if g == 51 {
        2251799813685248
    } else if g == 52 {
        4503599627370496
    } else if g == 53 {
        9007199254740992
    } else if g == 54 {
        18014398509481984
    } else {
        36028797018963968
    }
}

/// How far the fraction written by the first `j` digits of `f` falls short
/// of `1/2 - 2^-g`, scaled by `2^g * 10^j`.
pub open spec fn shortfall(f: Seq<char>, g: nat, j: int) -> int {
    (pow_two((g - 1) as nat) - 1) * pow10(j as nat) - pow_two(g) * digits_value(f.take(j))
}

/// One more digit multiplies the shortfall by ten and takes off the digit's
/// share.
proof fn lemma_shortfall_step(f: Seq<char>, g: nat, j: int)
    requires
        all_digits(f),
        0 <= j < f.len(),
    ensures
        shortfall(f, g, j + 1) == 10 * shortfall(f, g, j) - pow_two(g) * digit_value(f[j]),
{
    assert(f.take(j + 1).drop_last() == f.take(j));
    assert(f.take(j + 1).last() == f[j]);
    let a = digits_value(f.take(j));
    let c = pow_two((g - 1) as nat) - 1;
    let t = pow_two(g);
    let p = pow10(j as nat);
    assert(pow10((j + 1) as nat) == 10 * p);
    assert(c * (10 * p) - t * (a * 10 + digit_value(f[j])) == 10 * (c * p - t * a) - t * digit_value(f[j]))
        by (nonlinear_arith);
}

/// Once the shortfall is nothing, or a whole `2^g`, it stays so to the end.
proof fn lemma_shortfall_settles(f: Seq<char>, g: nat, j: int)
    requires
        all_digits(f),
        0 <= j <= f.len(),
        pow_two(g) > 0,
    ensures
        shortfall(f, g, j) <= 0 ==> shortfall(f, g, f.len() as int) <= 0,
        shortfall(f, g, j) >= pow_two(g) ==> shortfall(f, g, f.len() as int) >= pow_two(g),
    decreases f.len() - j,
{
    if j < f.len() {
        lemma_shortfall_step(f, g, j);
        assert(is_digit(f[j]));
        let s = shortfall(f, g, j);
        let t = pow_two(g);
        let dv = digit_value(f[j]);
        assert(s <= 0 ==> 10 * s - t * dv <= 0) by (nonlinear_arith)
            requires
                t > 0,
                0 <= dv <= 9,
        ;
        assert(s >= t ==> 10 * s - t * dv >= t) by (nonlinear_arith)
            requires
                t > 0,
                0 <= dv <= 9,
        ;
        lemma_shortfall_settles(f, g, j + 1);
    }
}

/// Whether the fraction written by `d[from..]` lifts `k` to `k + 1` once read
/// as an `f64` and rounded (see `reaches_half`).
fn half_reached(d: &Vec<char>, from: usize, k: u32) -> (r: bool)
    requires
        all_digits(d@),
        from <= d.len(),
        k < 100,
    ensures
        r == reaches_half(digits_value(d@.skip(from as int)), (d.len() - from) as nat, k as int),
{
    let g = gap_exp(k);
    let two = two_to(g);
    let ghost f = d@.skip(from as int);
    proof {
        lemma_pow_two_small();
        assert(pow_two((g - 1) as nat) * 2 == pow_two(g as nat));
        assert(f.take(0).len() == 0);
        assert(pow10(0) == 1);
        assert forall|k2: int| 0 <= k2 < f.len() implies is_digit(#[trigger] f[k2]) by {
            assert(f[k2] == d@[from + k2]);
        }
    }
    let mut short: i64 = two / 2 - 1;
    let mut i: usize = from;
    while i < d.len() && 0 < short && short < two
        invariant
            from <= i <= d.len(),
            f == d@.skip(from as int),
            all_digits(f),
            g == half_gap_exp(k as int),
            47 <= g <= 55,
            two == pow_two(g as nat),
            pow_two(g as nat) <= 36028797018963968,
            short == shortfall(f, g as nat, (i - from) as int),
            -9 * 36028797018963968 < short < 10 * 36028797018963968,
        decreases d.len() - i,
    {
        let c = d[i];
        assert(f[(i - from) as int] == c);
        proof {
            lemma_shortfall_step(f, g as nat, (i - from) as int);
            assert(is_digit(c));
        }
        let dv = (c as u32 - '0' as u32) as i64;
        assert(0 <= dv <= 9);
        assert(0 <= two * dv <= 9 * 36028797018963968) by (nonlinear_arith)
            requires
                0 < two <= 36028797018963968,
                0 <= dv <= 9,
        ;
        short = 10 * short - two * dv;
        i += 1;
    }
    proof {
        lemma_shortfall_settles(f, g as nat, (i - from) as int);
        assert(f.take(f.len() as int) == f);
        assert(f.len() == d.len() - from);
    }
    short <= 0
}

/// The score of `±d` with the point at `point`.
#[verifier::rlimit(50)]
fn score_digits(neg: bool, d: &Vec<char>, point: i128) -> (r: Option<u8>)
    requires
        all_digits(d@),
        -EXP_CAP - 0x1_0000_0000_0000_0000 <= point <= EXP_CAP + 0x1_0000_0000_0000_0000,
    ensures
        r == score_parts(neg, d@, point as int),
{
    let mut z: usize = 0;
    while z < d.len() && d[z] == '0'
        invariant
            z <= d.len(),
            forall|k: int| 0 <= k < z ==> d@[k] == '0',
        decreases d.len() - z,
    {
        z += 1;
    }
    if z == d.len() {
        proof {
            lemma_zeros_value(d@);
        }
        return Some(0);
    }
    proof {
        lemma_score_by_digits(neg, d@, point as int, z as int);
    }
    let n: i128 = point - z as i128;
    if n >= 310 {
        return None;
    }
    if n == 309 && reaches_overflow(d, z) {
        return None;
    }
    if neg || n < 0 {
        return Some(0);
    }
    if n >= 4 {
        return Some(100);
    }
    let n: usize = n as usize;
    let l: usize = d.len() - z;
    let ghost sd = d@.skip(z as int);
    proof {
        lemma_all_digits_sub(d@, z as int, d@.len() as int);
        assert(sd == d@.subrange(z as int, d@.len() as int));
        assert(pow10(1) == 10 && pow10(2) == 100 && pow10(3) == 1000) by {
            reveal_with_fuel(pow10, 4);
        }
    }
    let take: usize = if n < l { n } else { l };
    let mut q: u32 = 0;
    let mut j: usize = 0;
    while j < take
        invariant
            j <= take <= 3,
            take <= l,
            l == d@.len() - z,
            z + take <= d.len(),
            z < d@.len(),
            sd == d@.skip(z as int),
            all_digits(sd),
            q == digits_value(sd.take(j as int)),
            q < pow10(j as nat),
            pow10(1) == 10 && pow10(2) == 100 && pow10(3) == 1000,
        decreases take - j,
    {
        let c = d[z + j];
        assert(sd[j as int] == c);
        assert(sd.take(j as int + 1).drop_last() == sd.take(j as int));
        assert(sd.take(j as int + 1).last() == c);
        assert(is_digit(sd[j as int]));
        q = q * 10 + (c as u32 - '0' as u32);
        j += 1;
    }
    if n < l {
        assert(sd.skip(n as int) == d@.skip((z + n) as int));
        let v = if q < 100 && half_reached(d, z + n, q) {
            q + 1
        } else {
            q
        };
        Some(if v > 100 { 100 } else { v as u8 })
    } else {
        assert(sd.take(l as int) == sd);
        assert(pow10(0) == 1);
        assert(digits_value(sd) * pow10(0) == digits_value(sd));
        let mut k: usize = l;
        while k < n
            invariant
                l <= k <= n <= 3,
                q == digits_value(sd) * pow10((k - l) as nat),
                q < pow10(k as nat),
                pow10(1) == 10 && pow10(2) == 100 && pow10(3) == 1000,
            decreases n - k,
        {
            assert(pow10((k + 1 - l) as nat) == 10 * pow10((k - l) as nat));
            assert(digits_value(sd) * (10 * pow10((k - l) as nat)) == (digits_value(sd) * pow10(
                (k - l) as nat,
            )) * 10) by (nonlinear_arith);
            q = q * 10;
            k += 1;
        }
        Some(if q > 100 { 100 } else { q as u8 })
    }
}

/// The relevance score a decimal float text denotes: `None` when the text is
/// not a decimal float (`f64::from_str` grammar, `inf`/`nan` excluded) or
/// reads as an infinite `f64`, otherwise its value read as the nearest
/// `f64`, rounded half away from zero and clamped to `0..=100`.
pub fn score_of_text(s: &Vec<char>) -> (r: Option<u8>)
    ensures
        r == score_text(s@),
{
    let sl: usize = if s.len() > 0 && (s[0] == '+' || s[0] == '-') { 1 } else { 0 };
    let neg = sl == 1 && s[0] == '-';
    let em = exp_mark(s, sl);
    let body = slice_chars(s, sl, em);
    let dot = point_index(&body);
    let ip = slice_chars(&body, 0, dot);
    let fp = if dot < body.len() { slice_chars(&body, dot + 1, body.len()) } else { Vec::new() };
    proof {
        assert(ip@ == body@.take(dot as int));
        if dot < body.len() {
            assert(fp@ == body@.skip(dot as int + 1));
        } else {
            assert(fp@ == Seq::<char>::empty());
        }
    }
    if !(all_digit_chars(&ip) && all_digit_chars(&fp) && (ip.len() > 0 || fp.len() > 0)) {
        return None;
    }
    let x: i128 = if em == s.len() {
        0
    } else {
        match capped_exponent(s, em + 1) {
            Some(x) => x,
            None => return None,
        }
    };
    let mut d: Vec<char> = Vec::new();
    push_all(&mut d, &ip);
    push_all(&mut d, &fp);
    assert(d@ == ip@ + fp@);
    proof {
        lemma_all_digits_concat(ip@, fp@);
        let xt: int = if em == s.len() { 0 } else { decimal_value(s@.skip(em + 1), true)->0 };
        assert(x == capped(xt));
        lemma_score_capped(neg, d@, ip@.len() as int, xt);
    }
    score_digits(neg, &d, ip.len() as i128 + x)
}

/// Two digit runs make a digit run.
proof fn lemma_all_digits_concat(a: Seq<char>, b: Seq<char>)
    requires
        all_digits(a),
        all_digits(b),
    ensures
        all_digits(a + b),
{
    assert forall|k: int| 0 <= k < (a + b).len() implies is_digit(#[trigger] (a + b)[k]) by {
        if k < a.len() {
            assert((a + b)[k] == a[k]);
        } else {
            assert((a + b)[k] == b[k - a.len()]);
        }
    }
}

// ---------------------------------------------------------------------------
// Integers out of decimal floats
// ---------------------------------------------------------------------------

/// `m * 10^e` truncated toward zero, for `m >= 0`.
pub open spec fn trunc_scaled(m: int, e: int) -> int {
    if e >= 0 {
        m * pow10(e as nat)
    } else {
        m / pow10((-e) as nat)
    }
}

/// An integer saturated to the `i64` range (what `f as i64` does).
pub open spec fn saturate_i64(v: int) -> i64 {
    if v > i64::MAX {
        i64::MAX
    } else if v < i64::MIN {
        i64::MIN
    } else {
        v as i64
    }
}

/// The `i64` a decimal float text gives when read as a float and cast:
/// truncated toward zero and saturated to the `i64` range.
pub open spec fn truncated_i64(s: Seq<char>) -> Option<i64> {
    match float_parts(s) {
        Some((neg, digits, point)) => {
            let t = trunc_scaled(digits_value(digits), point - digits.len());
            Some(saturate_i64(if neg { -t } else { t }))
        },
        None => None,
    }
}

/// The truncated value read off the digits from the first nonzero one (at
/// `z`): zero with no integer digit, at least `10^19` with twenty or more,
/// otherwise the first `n` significant digits (padded with zeros).
proof fn lemma_trunc_by_digits(d: Seq<char>, point: int, z: int)
    requires
        all_digits(d),
        0 <= z < d.len(),
        forall|k: int| 0 <= k < z ==> d[k] == '0',
        d[z] != '0',
    ensures
        trunc_scaled(digits_value(d), point - d.len()) >= 0,
        point - z <= 0 ==> trunc_scaled(digits_value(d), point - d.len()) == 0,
        point - z >= 20 ==> trunc_scaled(digits_value(d), point - d.len()) >= pow10(19),
        (0 < point - z < 20 && point - z <= d.len() - z) ==> trunc_scaled(digits_value(d), point
            - d.len()) == digits_value(d.skip(z).take(point - z)),
        (0 < point - z < 20 && point - z > d.len() - z) ==> trunc_scaled(digits_value(d), point
            - d.len()) == digits_value(d.skip(z)) * pow10((point - d.len()) as nat),
{
    let sd = d.skip(z);
    let l = (d.len() - z) as nat;
    let n = point - z;
    let e = point - d.len();
    lemma_digits_split(d, z);
    assert(d.take(z) == d.subrange(0, z));
    lemma_zeros_value(d.take(z));
    lemma_all_digits_sub(d, z, d.len() as int);
    assert(sd == d.subrange(z, d.len() as int));
    assert(sd[0] == d[z]);
    lemma_leading_digit(sd);
    let m = digits_value(d);
    assert(m == digits_value(sd));
    lemma_pow10_pos((l - 1) as nat);
    if e >= 0 {
        let pe = pow10(e as nat);
        lemma_pow10_pos(e as nat);
        assert(m * pe >= 0) by (nonlinear_arith)
            requires
                m >= 0,
                pe >= 1,
        ;
        if e == 0 {
            assert(sd.take(l as int) == sd);
            assert(pow10(0) == 1);
        }
        if n >= 20 {
            lemma_pow10_add((l - 1) as nat, e as nat);
            assert(pow10((l - 1) as nat) * pe <= m * pe) by (nonlinear_arith)
                requires
                    pow10((l - 1) as nat) <= m,
                    pe >= 1,
            ;
            lemma_pow10_mono(19, (l - 1 + e) as nat);
        }
    } else {
        let k = (-e) as nat;
        let p = pow10(k);
        lemma_pow10_pos(k);
        vstd::arithmetic::div_mod::lemma_fundamental_div_mod(m, p);
        vstd::arithmetic::div_mod::lemma_mod_pos_bound(m, p);
        if n <= 0 {
            lemma_pow10_mono(l, k);
            lemma_fundamental_div_mod_converse(m, p, 0, m);
        } else if n >= 20 {
            lemma_pow10_add(k, (l - 1 - k) as nat);
            assert(k + (l - 1 - k) as nat == (l - 1) as nat);
            lemma_pow10_mono(19, (l - 1 - k) as nat);
            let big = pow10((l - 1 - k) as nat);
            assert(m / p >= big) by (nonlinear_arith)
                requires
                    m == p * (m / p) + m % p,
                    0 <= m % p < p,
                    m >= p * big,
                    p > 0,
            ;
        } else {
            lemma_digits_split(sd, n);
            assert((sd.len() - n) as nat == k);
            lemma_all_digits_sub(sd, n, sd.len() as int);
            assert(sd.skip(n) == sd.subrange(n, sd.len() as int));
            lemma_digits_value_bound(sd.skip(n));
            lemma_digits_value_nonneg(sd.skip(n));
            lemma_all_digits_sub(sd, 0, n);
            assert(sd.take(n) == sd.subrange(0, n));
            lemma_digits_value_nonneg(sd.take(n));
            lemma_fundamental_div_mod_converse(m, p, digits_value(sd.take(n)), digits_value(sd.skip(n)));
        }
    }
}

/// The `i64` that `±d` with the point at `point` truncates and saturates to.
pub open spec fn trunc_parts(neg: bool, d: Seq<char>, point: int) -> i64 {
    let t = trunc_scaled(digits_value(d), point - d.len());
    saturate_i64(if neg { -t } else { t })
}

/// Capping the exponent does not change the truncated value.
proof fn lemma_trunc_capped(neg: bool, d: Seq<char>, il: int, x: int)
    requires
        all_digits(d),
        0 <= il <= d.len() <= usize::MAX,
    ensures
        trunc_parts(neg, d, il + x) == trunc_parts(neg, d, il + capped(x)),
{
    if x != capped(x) {
        lemma_first_nonzero(d, 0);
        let z = first_nonzero(d, 0);
        assert(pow10(19) == 10_000_000_000_000_000_000) by {
            reveal_with_fuel(pow10, 20);
        }
        if z == d.len() {
            lemma_zeros_value(d);
            let e1 = il + x - d.len();
            let e2 = il + capped(x) - d.len();
            if e1 < 0 {
                lemma_pow10_pos((-e1) as nat);
            }
            if e2 < 0 {
                lemma_pow10_pos((-e2) as nat);
            }
        } else {
            lemma_trunc_by_digits(d, il + x, z);
            lemma_trunc_by_digits(d, il + capped(x), z);
        }
    }
}

/// The truncated, saturated value of `±d` with the point at `point`.
fn trunc_digits(neg: bool, d: &Vec<char>, point: i128) -> (r: i64)
    requires
        all_digits(d@),
        -EXP_CAP - 0x1_0000_0000_0000_0000 <= point <= EXP_CAP + 0x1_0000_0000_0000_0000,
    ensures
        r == trunc_parts(neg, d@, point as int),
{
    let mut z: usize = 0;
    while z < d.len() && d[z] == '0'
        invariant
            z <= d.len(),
            forall|k: int| 0 <= k < z ==> d@[k] == '0',
        decreases d.len() - z,
    {
        z += 1;
    }
    proof {
        assert(pow10(19) == 10_000_000_000_000_000_000) by {
            reveal_with_fuel(pow10, 20);
        }
    }
    if z == d.len() {
        proof {
            lemma_zeros_value(d@);
            if point - d@.len() < 0 {
                lemma_pow10_pos((-(point - d@.len())) as nat);
            }
        }
        return 0;
    }
    proof {
        lemma_trunc_by_digits(d@, point as int, z as int);
    }
    let n: i128 = point - z as i128;
    if n <= 0 {
        return 0;
    }
    if n >= 20 {
        return if neg { i64::MIN } else { i64::MAX };
    }
    let n: usize = n as usize;
    let l: usize = d.len() - z;
    let ghost sd = d@.skip(z as int);
    proof {
        lemma_all_digits_sub(d@, z as int, d@.len() as int);
        assert(sd == d@.subrange(z as int, d@.len() as int));
    }
    let take: usize = if n < l { n } else { l };
    let mut q: u128 = 0;
    let mut j: usize = 0;
    while j < take
        invariant
            j <= take <= 19,
            take <= l,
            l == d@.len() - z,
            z + take <= d.len(),
            sd == d@.skip(z as int),
            all_digits(sd),
            q == digits_value(sd.take(j as int)),
            q < pow10(j as nat),
            pow10(19) == 10_000_000_000_000_000_000,
        decreases take - j,
    {
        let c = d[z + j];
        assert(sd[j as int] == c);
        assert(sd.take(j as int + 1).drop_last() == sd.take(j as int));
        assert(sd.take(j as int + 1).last() == c);
        assert(is_digit(sd[j as int]));
        proof {
            lemma_pow10_mono(j as nat, 19);
        }
        assert(pow10(j as nat + 1) == 10 * pow10(j as nat));
        q = q * 10 + (c as u32 - '0' as u32) as u128;
        j += 1;
    }
    if n > l {
        assert(sd.take(l as int) == sd);
        assert(pow10(0) == 1);
        assert(digits_value(sd) * pow10(0) == digits_value(sd));
        let mut k: usize = l;
        while k < n
            invariant
                l <= k <= n <= 19,
                q == digits_value(sd) * pow10((k - l) as nat),
                q < pow10(k as nat),
                pow10(19) == 10_000_000_000_000_000_000,
            decreases n - k,
        {
            proof {
                lemma_pow10_mono(k as nat, 19);
            }
            assert(pow10((k + 1 - l) as nat) == 10 * pow10((k - l) as nat));
            assert(pow10(k as nat + 1) == 10 * pow10(k as nat));
            assert(digits_value(sd) * (10 * pow10((k - l) as nat)) == (digits_value(sd) * pow10(
                (k - l) as nat,
            )) * 10) by (nonlinear_arith);
            q = q * 10;
            k += 1;
        }
        assert((n - l) as nat == (point - d@.len()) as nat);
    }
    if neg {
        if q >= 9_223_372_036_854_775_808 {
            i64::MIN
        } else {
            -(q as i64)
        }
    } else {
        if q > 9_223_372_036_854_775_807 {
            i64::MAX
        } else {
            q as i64
        }
    }
}

/// The `i64` a decimal float text gives when read as a float and cast
/// (`Number::as_i64`, falling back to `as_f64` then `as i64`): truncated
/// toward zero and saturated to the `i64` range; `None` when the text is not
/// a finite decimal float.
pub fn number_to_i64(s: &Vec<char>) -> (r: Option<i64>)
    ensures
        r == truncated_i64(s@),
{
    let sl: usize = if s.len() > 0 && (s[0] == '+' || s[0] == '-') { 1 } else { 0 };
    let neg = sl == 1 && s[0] == '-';
    let em = exp_mark(s, sl);
    let body = slice_chars(s, sl, em);
    let dot = point_index(&body);
    let ip = slice_chars(&body, 0, dot);
    let fp = if dot < body.len() { slice_chars(&body, dot + 1, body.len()) } else { Vec::new() };
    proof {
        assert(ip@ == body@.take(dot as int));
        if dot < body.len() {
            assert(fp@ == body@.skip(dot as int + 1));
        } else {
            assert(fp@ == Seq::<char>::empty());
        }
    }
    if !(all_digit_chars(&ip) && all_digit_chars(&fp) && (ip.len() > 0 || fp.len() > 0)) {
        return None;
    }
    let x: i128 = if em == s.len() {
        0
    } else {
        match capped_exponent(s, em + 1) {
            Some(x) => x,
            None => return None,
        }
    };
    let mut d: Vec<char> = Vec::new();
    push_all(&mut d, &ip);
    push_all(&mut d, &fp);
    assert(d@ == ip@ + fp@);
    proof {
        lemma_all_digits_concat(ip@, fp@);
        let xt: int = if em == s.len() { 0 } else { decimal_value(s@.skip(em + 1), true)->0 };
        assert(x == capped(xt));
        lemma_trunc_capped(neg, d@, ip@.len() as int, xt);
    }
    Some(trunc_digits(neg, &d, ip.len() as i128 + x))
}

} // verus!
