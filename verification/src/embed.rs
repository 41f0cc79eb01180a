//! The lexical side of the embed stage: recipe identifiers, the dimension
//! bounds, the tokenizer, and the hashing-trick slot a token lands in.
//!
//! Two vectors are only comparable when their recipe and dimension match,
//! which is why the recipe identifier embeds the dimension.

use vstd::prelude::*;
use crate::text::{chars_of, string_of, push_all, is_text, is_alphanumeric, unicode_alphanumeric,
    lower_str, unicode_lower_str};
use crate::num::{decimal, u64_to_decimal};
use crate::dedup::{sha256, sha256_digest};

verus! {

/// Identifier of the lexical vector recipe.
pub const VECTOR_RECIPE: &'static str = "lex-v1";
/// Default vector dimension.
pub const DEFAULT_DIMENSION: usize = 256;
/// Smallest dimension accepted.
pub const MIN_DIMENSION: usize = 32;
/// Largest dimension accepted.
pub const MAX_DIMENSION: usize = 2048;
/// Shortest token kept, in characters.
pub const MIN_TOKEN_LEN: usize = 3;
/// Identifier prefix of the semantic (model-embedding) recipe.
pub const SEMANTIC_RECIPE: &'static str = "sem-v1";

/// The recipe identifier stored beside a lexical vector of `dim` dimensions.
pub fn recipe_id(dim: usize) -> (r: String)
    ensures
        r@ == VECTOR_RECIPE@ + "/"@ + decimal(dim as nat),
{
    let mut out = chars_of(VECTOR_RECIPE);
    push_all(&mut out, &chars_of("/"));
    push_all(&mut out, &u64_to_decimal(dim as u64));
    string_of(&out)
}

/// The recipe identifier stored beside a vector the embeddings model `model`
/// produced.
pub fn semantic_recipe_id(model: &str) -> (r: String)
    ensures
        r@ == SEMANTIC_RECIPE@ + "/"@ + model@,
{
    let mut out = chars_of(SEMANTIC_RECIPE);
    push_all(&mut out, &chars_of("/"));
    push_all(&mut out, &chars_of(model));
    string_of(&out)
}

/// Clamp a configured dimension into `[MIN_DIMENSION, MAX_DIMENSION]`.
pub fn clamp_dimension(dim: usize) -> (r: usize)
    ensures
        r == (if dim < MIN_DIMENSION {
            MIN_DIMENSION
        } else if dim > MAX_DIMENSION {
            MAX_DIMENSION
        } else {
            dim
        }),
{
    if dim < MIN_DIMENSION {
        MIN_DIMENSION
    } else if dim > MAX_DIMENSION {
        MAX_DIMENSION
    } else {
        dim
    }
}

/// The runs of `s` between non-alphanumeric characters (`str::split` on
/// `!char::is_alphanumeric`), scanning with the run in progress `cur`.
pub open spec fn alnum_runs_from(s: Seq<char>, cur: Seq<char>, acc: Seq<Seq<char>>) -> Seq<Seq<char>>
    decreases s.len(),
{
    if s.len() == 0 {
        acc.push(cur)
    } else if !unicode_alphanumeric(s[0]) {
        alnum_runs_from(s.drop_first(), seq![], acc.push(cur))
    } else {
        alnum_runs_from(s.drop_first(), cur.push(s[0]), acc)
    }
}

/// Common English words too frequent to discriminate.
pub open spec fn is_stopword(t: Seq<char>) -> bool {
    t == "the"@ || t == "and"@ || t == "for"@ || t == "that"@ || t == "this"@ || t == "with"@ || t
        == "from"@ || t == "have"@ || t == "has"@ || t == "had"@ || t == "was"@ || t == "were"@ || t
        == "are"@ || t == "but"@ || t == "not"@ || t == "you"@ || t == "his"@ || t == "her"@ || t
        == "its"@ || t == "their"@ || t == "they"@ || t == "them"@ || t == "will"@ || t
        == "would"@ || t == "can"@ || t == "could"@ || t == "should"@ || t == "been"@ || t
        == "into"@ || t == "over"@ || t == "after"@ || t == "than"@ || t == "then"@ || t == "who"@
        || t == "what"@ || t == "when"@ || t == "where"@ || t == "which"@ || t == "while"@ || t
        == "about"@ || t == "said"@ || t == "says"@
}

/// The tokens of the runs `rs`: runs of at least `MIN_TOKEN_LEN` characters,
/// lowercased, stopwords dropped.
pub open spec fn tokens_of_runs(rs: Seq<Seq<char>>) -> Seq<Seq<char>>
    decreases rs.len(),
{
    if rs.len() == 0 {
        seq![]
    } else {
        let prev = tokens_of_runs(rs.drop_last());
        let r = rs.last();
        if r.len() >= MIN_TOKEN_LEN && !is_stopword(unicode_lower_str(r)) {
            prev.push(unicode_lower_str(r))
        } else {
            prev
        }
    }
}

/// The tokens of `text`.
pub open spec fn tokens(text: Seq<char>) -> Seq<Seq<char>> {
    tokens_of_runs(alnum_runs_from(text, seq![], seq![]))
}

/// The common English words tokenizing drops, as data.
pub open spec fn stopword_list() -> Seq<Seq<char>> {
    seq![
        "the"@,
        "and"@,
        "for"@,
        "that"@,
        "this"@,
        "with"@,
        "from"@,
        "have"@,
        "has"@,
        "had"@,
        "was"@,
        "were"@,
        "are"@,
        "but"@,
        "not"@,
        "you"@,
        "his"@,
        "her"@,
        "its"@,
        "their"@,
        "they"@,
        "them"@,
        "will"@,
        "would"@,
        "can"@,
        "could"@,
        "should"@,
        "been"@,
        "into"@,
        "over"@,
        "after"@,
        "than"@,
        "then"@,
        "who"@,
        "what"@,
        "when"@,
        "where"@,
        "which"@,
        "while"@,
        "about"@,
        "said"@,
        "says"@,
    ]
}

/// No token of any text is a word of the stopword list.
pub proof fn law_tokens_avoid_stopwords(text: Seq<char>, i: int, j: int)
    requires
        0 <= i < tokens(text).len(),
        0 <= j < stopword_list().len(),
    ensures
        tokens(text)[i] != stopword_list()[j],
{
    assert forall|k: int| 0 <= k < stopword_list().len() implies is_stopword(#[trigger] stopword_list()[k]) by {
    }
    lemma_tokens_not_stopwords(alnum_runs_from(text, seq![], seq![]));
}

/// Every token a list of runs gives passes the stopword check.
proof fn lemma_tokens_not_stopwords(rs: Seq<Seq<char>>)
    ensures
        forall|i: int| 0 <= i < tokens_of_runs(rs).len() ==> !is_stopword(#[trigger] tokens_of_runs(rs)[i]),
    decreases rs.len(),
{
    if rs.len() > 0 {
        lemma_tokens_not_stopwords(rs.drop_last());
        let prev = tokens_of_runs(rs.drop_last());
        let low = unicode_lower_str(rs.last());
        if rs.last().len() >= MIN_TOKEN_LEN && !is_stopword(low) {
            assert forall|i: int| 0 <= i < prev.push(low).len() implies !is_stopword(#[trigger] prev.push(low)[i]) by {
                if i < prev.len() {
                    assert(prev.push(low)[i] == prev[i]);
                }
            }
        }
    }
}

/// Whether `t` is a stopword.
fn stopword(t: &Vec<char>) -> (r: bool)
    ensures
        r == is_stopword(t@),
{
    is_text(t, "the") || is_text(t, "and") || is_text(t, "for") || is_text(t, "that") || is_text(
        t,
        "this",
    ) || is_text(t, "with") || is_text(t, "from") || is_text(t, "have") || is_text(t, "has")
        || is_text(t, "had") || is_text(t, "was") || is_text(t, "were") || is_text(t, "are")
        || is_text(t, "but") || is_text(t, "not") || is_text(t, "you") || is_text(t, "his")
        || is_text(t, "her") || is_text(t, "its") || is_text(t, "their") || is_text(t, "they")
        || is_text(t, "them") || is_text(t, "will") || is_text(t, "would") || is_text(t, "can")
        || is_text(t, "could") || is_text(t, "should") || is_text(t, "been") || is_text(t, "into")
        || is_text(t, "over") || is_text(t, "after") || is_text(t, "than") || is_text(t, "then")
        || is_text(t, "who") || is_text(t, "what") || is_text(t, "when") || is_text(t, "where")
        || is_text(t, "which") || is_text(t, "while") || is_text(t, "about") || is_text(t, "said")
        || is_text(t, "says")
}

/// Append the token a run gives, if any.
fn keep_token(out: &mut Vec<String>, run: &Vec<char>)
    ensures
        final(out)@.map_values(|t: String| t@) == old(out)@.map_values(|t: String| t@) + tokens_of_runs(
            seq![run@],
        ),
{
    assert(seq![run@].drop_last() == Seq::<Seq<char>>::empty());
    assert(seq![run@].last() == run@);
    assert(tokens_of_runs(Seq::<Seq<char>>::empty()) == Seq::<Seq<char>>::empty());
    let ghost before = out@;
    if run.len() >= MIN_TOKEN_LEN {
        let low = lower_str(run);
        if !stopword(&low) {
            out.push(string_of(&low));
            assert(tokens_of_runs(seq![run@]) == seq![low@]);
            assert(out@.map_values(|t: String| t@) == before.map_values(|t: String| t@) + seq![low@]);
            return;
        }
    }
    assert(tokens_of_runs(seq![run@]) == Seq::<Seq<char>>::empty());
    assert(out@.map_values(|t: String| t@) == before.map_values(|t: String| t@) + Seq::<Seq<char>>::empty());
}

/// The tokens of a list of runs split at its last run.
proof fn lemma_tokens_push(rs: Seq<Seq<char>>, r: Seq<char>)
    ensures
        tokens_of_runs(rs.push(r)) == tokens_of_runs(rs) + tokens_of_runs(seq![r]),
{
    assert(rs.push(r).drop_last() == rs);
    assert(rs.push(r).last() == r);
    assert(seq![r].drop_last() == Seq::<Seq<char>>::empty());
    assert(seq![r].last() == r);
    assert(tokens_of_runs(Seq::<Seq<char>>::empty()) == Seq::<Seq<char>>::empty());
    let low = unicode_lower_str(r);
    if r.len() >= MIN_TOKEN_LEN && !is_stopword(low) {
        assert(tokens_of_runs(seq![r]) == seq![low]);
        assert(tokens_of_runs(rs).push(low) == tokens_of_runs(rs) + seq![low]);
    } else {
        assert(tokens_of_runs(seq![r]) == Seq::<Seq<char>>::empty());
        assert(tokens_of_runs(rs) == tokens_of_runs(rs) + Seq::<Seq<char>>::empty());
    }
}

/// Split on non-alphanumeric characters, keep tokens of at least three
/// characters, lowercase them, and drop stopwords.
pub fn tokenize(text: &str) -> (r: Vec<String>)
    ensures
        r@.map_values(|t: String| t@) == tokens(text@),
{
    let s = chars_of(text);
    let mut out: Vec<String> = Vec::new();
    let mut cur: Vec<char> = Vec::new();
    let ghost mut done: Seq<Seq<char>> = seq![];
    let mut i: usize = 0;
    assert(s@.skip(0) == s@);
    while i < s.len()
        invariant
            i <= s.len(),
            tokens(s@) == tokens_of_runs(alnum_runs_from(s@.skip(i as int), cur@, done)),
            out@.map_values(|t: String| t@) == tokens_of_runs(done),
        decreases s.len() - i,
    {
        let ghost rest = s@.skip(i as int);
        assert(rest.drop_first() == s@.skip(i as int + 1));
        assert(rest[0] == s@[i as int]);
        if !is_alphanumeric(s[i]) {
            proof {
                lemma_tokens_push(done, cur@);
            }
            keep_token(&mut out, &cur);
            proof {
                done = done.push(cur@);
            }
            cur = Vec::new();
            assert(cur@ == Seq::<char>::empty());
        } else {
            cur.push(s[i]);
        }
        i += 1;
    }
    assert(s@.skip(i as int).len() == 0);
    proof {
        lemma_tokens_push(done, cur@);
    }
    keep_token(&mut out, &cur);
    out
}

/// The big-endian `u32` in the first four bytes of `d`.
pub open spec fn be_u32(d: Seq<u8>) -> int {
    ((d[0] as int) * 256 + d[1] as int) * 65536 + (d[2] as int) * 256 + d[3] as int
}

/// The dimension a token's hash picks in a vector of `dim` dimensions, and
/// whether its contribution is negated: the first four bytes of the token's
/// SHA-256 (big-endian) modulo `dim`, and the low bit of the fifth byte.
pub open spec fn token_slot(token: Seq<char>, dim: nat) -> (int, bool) {
    let d = sha256_digest(vstd::utf8::encode_utf8(token));
    (be_u32(d) % (dim as int), d[4] % 2 == 1)
}

/// The dimension a token lands in and whether its weight is negated.
pub fn hash_slot(token: &str, dim: usize) -> (r: (usize, bool))
    requires
        dim > 0,
    ensures
        (r.0 as int, r.1) == token_slot(token@, dim as nat),
        r.0 < dim,
{
    let bytes = token.as_bytes();
    let digest = sha256(bytes);
    proof {
        assert(bytes@ == vstd::utf8::encode_utf8(token@));
    }
    let raw: u64 = ((digest[0] as u64) * 256 + digest[1] as u64) * 65536 + (digest[2] as u64) * 256
        + digest[3] as u64;
    let index = (raw % (dim as u64)) as usize;
    (index, digest[4] % 2 == 1)
}

} // verus!
