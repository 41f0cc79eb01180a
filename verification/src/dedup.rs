//! Content hashing for near-duplicate detection.
//!
//! Two feeds syndicating the same story under different URLs produce the same
//! `content_hash` over normalized title and body, which lets the store
//! recognize the pair without a second network or model call.

use vstd::prelude::*;
use vstd::utf8::encode_utf8;
use vstd::utf8::encode_scalar;
use crate::text::{chars_of, string_of, push_all, is_whitespace, lower_char, unicode_whitespace, unicode_lower_char};

verus! {

/// Drop trailing spaces.
pub open spec fn strip_trailing_spaces(s: Seq<char>) -> Seq<char>
    decreases s.len(),
{
    if s.len() > 0 && s.last() == ' ' {
        strip_trailing_spaces(s.drop_last())
    } else {
        s
    }
}

/// The normalization scan: each whitespace run becomes one space (none
/// before the first word), every other character is lowercased, and
/// trailing spaces are dropped at the end. `prev` records that the last
/// character scanned was whitespace.
pub open spec fn normalize_from(s: Seq<char>, out: Seq<char>, prev: bool) -> Seq<char>
    decreases s.len(),
{
    if s.len() == 0 {
        strip_trailing_spaces(out)
    } else if unicode_whitespace(s[0]) {
        normalize_from(s.drop_first(), if !prev && out.len() > 0 { out.push(' ') } else { out }, true)
    } else {
        normalize_from(s.drop_first(), out + unicode_lower_char(s[0]), false)
    }
}

/// `s` lowercased, with whitespace runs collapsed to single spaces and trimmed.
pub open spec fn normalized(s: Seq<char>) -> Seq<char> {
    normalize_from(s, seq![], false)
}

/// Lowercase and collapse whitespace runs to single spaces, trimmed.
pub fn normalize(s: &str) -> (r: String)
    ensures
        r@ == normalized(s@),
{
    let c = chars_of(s);
    let mut out: Vec<char> = Vec::new();
    let mut prev_space = false;
    let mut i: usize = 0;
    assert(c@.skip(0) == c@);
    while i < c.len()
        invariant
            i <= c.len(),
            normalized(c@) == normalize_from(c@.skip(i as int), out@, prev_space),
        decreases c.len() - i,
    {
        let ghost rest = c@.skip(i as int);
        assert(rest[0] == c@[i as int]);
        assert(rest.drop_first() == c@.skip(i as int + 1));
        if is_whitespace(c[i]) {
            if !prev_space && out.len() > 0 {
                out.push(' ');
            }
            prev_space = true;
        } else {
            let low = lower_char(c[i]);
            push_all(&mut out, &low);
            prev_space = false;
        }
        i += 1;
    }
    assert(c@.skip(i as int).len() == 0);
    while out.len() > 0 && out[out.len() - 1] == ' '
        invariant
            strip_trailing_spaces(out@) == normalized(c@),
        decreases out.len(),
    {
        out.pop();
    }
    string_of(&out)
}

/// `a` and `b` differ at most in letter case: character by character they
/// lowercase alike (`char::to_lowercase`) and are white space alike.
pub open spec fn same_but_case(a: Seq<char>, b: Seq<char>) -> bool {
    &&& a.len() == b.len()
    &&& forall|i: int|
        0 <= i < a.len() ==> unicode_lower_char(#[trigger] a[i]) == unicode_lower_char(b[i])
            && unicode_whitespace(a[i]) == unicode_whitespace(b[i])
}

/// Texts that differ only in letter case, non-ASCII letters included,
/// normalize alike.
pub proof fn law_case_is_ignored(a: Seq<char>, b: Seq<char>)
    requires
        same_but_case(a, b),
    ensures
        normalized(a) == normalized(b),
{
    lemma_case_scan(a, b, seq![], false);
}

/// The normalization scan treats texts that differ only in case alike.
proof fn lemma_case_scan(a: Seq<char>, b: Seq<char>, out: Seq<char>, prev: bool)
    requires
        same_but_case(a, b),
    ensures
        normalize_from(a, out, prev) == normalize_from(b, out, prev),
    decreases a.len(),
{
    if a.len() > 0 {
        assert(unicode_lower_char(a[0]) == unicode_lower_char(b[0]) && unicode_whitespace(a[0])
            == unicode_whitespace(b[0]));
        let a1 = a.drop_first();
        let b1 = b.drop_first();
        assert forall|i: int| 0 <= i < a1.len() implies unicode_lower_char(#[trigger] a1[i])
            == unicode_lower_char(b1[i]) && unicode_whitespace(a1[i]) == unicode_whitespace(b1[i]) by {
            assert(a1[i] == a[i + 1] && b1[i] == b[i + 1]);
        }
        if unicode_whitespace(a[0]) {
            lemma_case_scan(a1, b1, if !prev && out.len() > 0 { out.push(' ') } else { out }, true);
        } else {
            lemma_case_scan(a1, b1, out + unicode_lower_char(a[0]), false);
        }
    }
}

/// Articles whose titles and bodies differ only in letter case hash alike.
pub proof fn law_case_blind_hash(t1: Seq<char>, b1: Seq<char>, t2: Seq<char>, b2: Seq<char>)
    requires
        same_but_case(t1, t2),
        same_but_case(b1, b2),
    ensures
        hex_text(sha256_digest(hashed_bytes(t1, b1))) == hex_text(sha256_digest(hashed_bytes(t2, b2))),
{
    law_case_is_ignored(t1, t2);
    law_case_is_ignored(b1, b2);
}

/// What SHA-256 digests `data` to.
pub uninterp spec fn sha256_digest(data: Seq<u8>) -> Seq<u8>;

/// `sha2::Sha256::digest`. Claims the result is the named digest of `data`
/// and is 32 bytes long.
#[verifier::external_body]
pub(crate) fn sha256(data: &[u8]) -> (r: Vec<u8>)
    ensures
        r@ == sha256_digest(data@),
        r@.len() == 32,
{
    <sha2::Sha256 as sha2::Digest>::digest(data).to_vec()
}

/// The lowercase hexadecimal digit for `v < 16`.
pub open spec fn hex_digit(v: int) -> char {
    if v < 10 {
        ((v + '0' as int) as u32) as char
    } else {
        ((v - 10 + 'a' as int) as u32) as char
    }
}

/// Bytes as lowercase hex, two digits per byte, high nibble first.
pub open spec fn hex_text(data: Seq<u8>) -> Seq<char>
    decreases data.len(),
{
    if data.len() == 0 {
        seq![]
    } else {
        hex_text(data.drop_last()) + seq![hex_digit(data.last() as int / 16), hex_digit(data.last() as int % 16)]
    }
}

/// `hex::encode`, which writes each byte as two lowercase hex digits. Claims
/// exactly that.
#[verifier::external_body]
pub(crate) fn hex_encode(data: &[u8]) -> (r: String)
    ensures
        r@ == hex_text(data@),
{
    hex::encode(data)
}

/// Hex text is two characters per byte, each a lowercase hex digit.
pub proof fn lemma_hex_text_shape(data: Seq<u8>)
    ensures
        hex_text(data).len() == 2 * data.len(),
        forall|i: int| 0 <= i < hex_text(data).len() ==> {
            let c = #[trigger] hex_text(data)[i];
            ('0' <= c <= '9') || ('a' <= c <= 'f')
        },
    decreases data.len(),
{
    if data.len() > 0 {
        lemma_hex_text_shape(data.drop_last());
        let prev = hex_text(data.drop_last());
        let b = data.last();
        assert forall|i: int| 0 <= i < hex_text(data).len() implies {
            let c = #[trigger] hex_text(data)[i];
            ('0' <= c <= '9') || ('a' <= c <= 'f')
        } by {
            if i >= prev.len() {
                assert(b / 16 < 16 && b % 16 < 16);
            } else {
                assert(hex_text(data)[i] == prev[i]);
            }
        }
    }
}

/// The bytes a content hash is taken over: the normalized title, a zero
/// byte separating the fields, and the normalized body, UTF-8 encoded.
pub open spec fn hashed_bytes(title: Seq<char>, body: Seq<char>) -> Seq<u8> {
    encode_utf8(normalized(title)) + seq![0u8] + encode_utf8(normalized(body))
}

/// Compute a stable hex-encoded SHA-256 over an article's normalized title and
/// body.
///
/// Two articles with the same normalized text hash equal even when their URLs
/// differ, which is the near-duplicate signal; the zero byte between the
/// fields keeps `"ab"|"c"` apart from `"a"|"bc"`.
pub fn content_hash(title: &str, body: &str) -> (r: String)
    ensures
        r@ == hex_text(sha256_digest(hashed_bytes(title@, body@))),
        r@.len() == 64,
{
    let t = normalize(title);
    let b = normalize(body);
    let mut bytes: Vec<u8> = Vec::new();
    let tb = t.as_str().as_bytes();
    let bb = b.as_str().as_bytes();
    let mut i: usize = 0;
    while i < tb.len()
        invariant
            i <= tb@.len(),
            bytes@ == tb@.take(i as int),
        decreases tb@.len() - i,
    {
        bytes.push(tb[i]);
        assert(tb@.take(i as int + 1) == tb@.take(i as int).push(tb@[i as int]));
        i += 1;
    }
    assert(tb@.take(tb@.len() as int) == tb@);
    bytes.push(0u8);
    let ghost mid = bytes@;
    let mut j: usize = 0;
    while j < bb.len()
        invariant
            j <= bb@.len(),
            bytes@ == mid + bb@.take(j as int),
        decreases bb@.len() - j,
    {
        bytes.push(bb[j]);
        assert(bb@.take(j as int + 1) == bb@.take(j as int).push(bb@[j as int]));
        j += 1;
    }
    assert(bb@.take(bb@.len() as int) == bb@);
    assert(tb@ == encode_utf8(normalized(title@)));
    assert(bb@ == encode_utf8(normalized(body@)));
    assert(bytes@ == hashed_bytes(title@, body@));
    let digest = sha256(bytes.as_slice());
    proof {
        lemma_hex_text_shape(digest@);
    }
    hex_encode(digest.as_slice())
}


/// Two articles whose titles and bodies normalize alike are hashed over the
/// same bytes, so they get the same content hash whatever their spacing
/// and case.
pub proof fn law_same_text_same_hash(t1: Seq<char>, b1: Seq<char>, t2: Seq<char>, b2: Seq<char>)
    requires
        normalized(t1) == normalized(t2),
        normalized(b1) == normalized(b2),
    ensures
        hashed_bytes(t1, b1) == hashed_bytes(t2, b2),
        hex_text(sha256_digest(hashed_bytes(t1, b1))) == hex_text(sha256_digest(hashed_bytes(t2, b2))),
{
}


/// No character but NUL encodes to a zero byte.
proof fn lemma_scalar_nonzero(c: char)
    requires
        c != '\0',
    ensures
        forall|i: int| 0 <= i < encode_scalar(c as u32).len() ==> #[trigger] encode_scalar(c as u32)[i] != 0,
{
    let v = c as u32;
    assert(v != 0);
    assert(forall|y: u8| #![auto] (0xC0u8 | y) != 0u8) by (bit_vector);
    assert(forall|y: u8| #![auto] (0xE0u8 | y) != 0u8) by (bit_vector);
    assert(forall|y: u8| #![auto] (0xF0u8 | y) != 0u8) by (bit_vector);
    assert(forall|y: u8| #![auto] (0x80u8 | y) != 0u8) by (bit_vector);
    if v <= 0x7F {
        assert((v & 0x7F) as u8 != 0) by (bit_vector)
            requires
                v <= 0x7F,
                v != 0,
        ;
    }
}

/// Text without NUL encodes without a zero byte.
proof fn lemma_encoding_nonzero(s: Seq<char>)
    requires
        !s.contains('\0'),
    ensures
        forall|i: int| 0 <= i < encode_utf8(s).len() ==> #[trigger] encode_utf8(s)[i] != 0,
    decreases s.len(),
{
    if s.len() > 0 {
        assert(s[0] != '\0');
        lemma_scalar_nonzero(s[0]);
        assert(!s.drop_first().contains('\0')) by {
            if s.drop_first().contains('\0') {
                let k = choose|k: int| 0 <= k < s.drop_first().len() && s.drop_first()[k] == '\0';
                assert(s[k + 1] == '\0');
            }
        }
        lemma_encoding_nonzero(s.drop_first());
        let a = encode_scalar(s[0] as u32);
        let b = encode_utf8(s.drop_first());
        assert forall|i: int| 0 <= i < encode_utf8(s).len() implies #[trigger] encode_utf8(s)[i] != 0 by {
            if i < a.len() {
                assert(encode_utf8(s)[i] == a[i]);
            } else {
                assert(encode_utf8(s)[i] == b[i - a.len()]);
            }
        }
    }
}

/// The zero byte keeps the fields apart: when neither normalized text holds
/// NUL, two articles are hashed over the same bytes only if their titles
/// and their bodies normalize alike (so `"ab"|"c"` and `"a"|"bc"` differ).
pub proof fn law_fields_kept_apart(t1: Seq<char>, b1: Seq<char>, t2: Seq<char>, b2: Seq<char>)
    requires
        !normalized(t1).contains('\0'),
        !normalized(t2).contains('\0'),
        hashed_bytes(t1, b1) == hashed_bytes(t2, b2),
    ensures
        normalized(t1) == normalized(t2),
        normalized(b1) == normalized(b2),
{
    let e1 = encode_utf8(normalized(t1));
    let e2 = encode_utf8(normalized(t2));
    let f1 = encode_utf8(normalized(b1));
    let f2 = encode_utf8(normalized(b2));
    let h = hashed_bytes(t1, b1);
    lemma_encoding_nonzero(normalized(t1));
    lemma_encoding_nonzero(normalized(t2));
    assert(h == e1 + seq![0u8] + f1);
    assert(h == e2 + seq![0u8] + f2);
    if e1.len() < e2.len() {
        assert(h[e1.len() as int] == 0u8);
        assert(h[e1.len() as int] == e2[e1.len() as int]);
        assert(false);
    }
    if e2.len() < e1.len() {
        assert(h[e2.len() as int] == 0u8);
        assert(h[e2.len() as int] == e1[e2.len() as int]);
        assert(false);
    }
    assert(e1 =~= h.take(e1.len() as int));
    assert(e2 =~= h.take(e2.len() as int));
    assert(f1 =~= h.skip(e1.len() as int + 1));
    assert(f2 =~= h.skip(e2.len() as int + 1));
    vstd::utf8::encode_utf8_decode_utf8(normalized(t1));
    vstd::utf8::encode_utf8_decode_utf8(normalized(t2));
    vstd::utf8::encode_utf8_decode_utf8(normalized(b1));
    vstd::utf8::encode_utf8_decode_utf8(normalized(b2));
}

} // verus!
