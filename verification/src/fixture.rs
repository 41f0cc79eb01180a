//! Synthetic items for the plugin-host benchmarks: JSON payloads of a preset
//! size with the field layout of a blog post. Object members are written in
//! the order serde_json writes them (by name).

use vstd::prelude::*;
use crate::bench::PayloadSize;
use crate::json::{Json, json_text, json_quoted, json_escaped, json_escape, members_text, items_text, to_json_string};
use crate::num::{decimal, u64_to_decimal};
use crate::text::{join, string_of, chars_of, push_all};
use vstd::utf8::encode_utf8;

verus! {

/// One paragraph of body text.
pub const BASE_PARAGRAPH: &'static str = "<p>This is a moderately long blog post body that simulates real-world content. It contains multiple paragraphs of text that would be typical for a blog entry on a content management system. The purpose is to create a payload that reaches our target size when serialized to JSON. In production, blog posts would typically contain formatted HTML with various elements including links, lists, images, and other rich content.</p>";

/// The title every synthetic item carries.
pub const ITEM_TITLE: &'static str = "Benchmarking WASM Plugin Architecture in Trovato CMS";

/// A fresh version-7 UUID in its hyphenated form
/// (`uuid::Uuid::now_v7().to_string()`). The value depends on the clock and
/// on chance; the source shows only its form: 36 characters, lowercase hex
/// digits with hyphens at positions 8, 13, 18 and 23, the version digit `7`
/// at position 14 and the RFC 4122 variant digit (`8` to `b`) at 19.
#[verifier::external_body]
fn new_uuid_v7() -> (r: String)
    ensures
        uuid_text(r@),
{
    uuid::Uuid::now_v7().to_string()
}

/// The hyphenated form of a version-7, RFC 4122 variant UUID.
pub open spec fn uuid_text(s: Seq<char>) -> bool {
    &&& s.len() == 36
    &&& s[14] == '7'
    &&& ('8' <= s[19] <= '9' || 'a' <= s[19] <= 'b')
    &&& forall|i: int|
        0 <= i < 36 ==> if i == 8 || i == 13 || i == 18 || i == 23 {
            s[i] == '-'
        } else {
            ('0' <= #[trigger] s[i] <= '9') || ('a' <= s[i] <= 'f')
        }
}

// ---------------------------------------------------------------------------
// How much of everything a preset holds
// ---------------------------------------------------------------------------

/// Paragraphs of body text.
pub open spec fn body_paragraphs(p: PayloadSize) -> nat {
    match p {
        PayloadSize::Small => 2,
        PayloadSize::Medium => 15,
        PayloadSize::Large => 80,
        PayloadSize::XLarge => 170,
    }
}

/// Category references in `field_tags`.
pub open spec fn tag_count(p: PayloadSize) -> nat {
    match p {
        PayloadSize::Small => 3,
        PayloadSize::Medium => 10,
        PayloadSize::Large => 50,
        PayloadSize::XLarge => 100,
    }
}

/// Item references in `field_related`.
pub open spec fn related_count(p: PayloadSize) -> nat {
    match p {
        PayloadSize::Small => 2,
        PayloadSize::Medium => 5,
        PayloadSize::Large => 25,
        PayloadSize::XLarge => 50,
    }
}

/// Extra `field_extra_<i>` fields.
pub open spec fn extra_count(p: PayloadSize) -> nat {
    match p {
        PayloadSize::Small => 0,
        PayloadSize::Medium => 5,
        PayloadSize::Large => 20,
        PayloadSize::XLarge => 40,
    }
}

/// The identifiers an item of a preset takes: its own, its author's, its
/// revision's, one per tag and related item, the category's, the image
/// file's, and one author per extra field, in that order.
pub open spec fn id_count(p: PayloadSize) -> nat {
    5 + tag_count(p) + related_count(p) + extra_count(p)
}

fn counts_of(p: PayloadSize) -> (r: (usize, usize, usize, usize))
    ensures
        r.0 == body_paragraphs(p),
        r.1 == tag_count(p),
        r.2 == related_count(p),
        r.3 == extra_count(p),
{
    match p {
        PayloadSize::Small => (2, 3, 2, 0),
        PayloadSize::Medium => (15, 10, 5, 5),
        PayloadSize::Large => (80, 50, 25, 20),
        PayloadSize::XLarge => (170, 100, 50, 40),
    }
}

// ---------------------------------------------------------------------------
// JSON text, piece by piece
// ---------------------------------------------------------------------------

/// A member written as JSON: the quoted key, a colon, the value's text.
#[verifier::opaque]
pub open spec fn member_t(k: Seq<char>, v: Seq<char>) -> Seq<char> {
    json_quoted(k) + seq![':'] + v
}

/// An object written as JSON from its members' texts.
#[verifier::opaque]
pub open spec fn object_t(ms: Seq<Seq<char>>) -> Seq<char> {
    seq!['{'] + join(ms, seq![',']) + seq!['}']
}

/// An array written as JSON from its elements' texts.
#[verifier::opaque]
pub open spec fn array_t(xs: Seq<Seq<char>>) -> Seq<char> {
    seq!['['] + join(xs, seq![',']) + seq![']']
}

/// The texts of the members of an object.
#[verifier::opaque]
pub open spec fn member_texts(ms: Seq<(String, Json)>) -> Seq<Seq<char>> {
    Seq::new(ms.len(), |i: int| member_t(ms[i].0@, json_text(ms[i].1)))
}

/// The texts of the elements of an array.
#[verifier::opaque]
pub open spec fn element_texts(xs: Seq<Json>) -> Seq<Seq<char>> {
    Seq::new(xs.len(), |i: int| json_text(xs[i]))
}

proof fn lemma_members_join(ms: Seq<(String, Json)>)
    ensures
        members_text(ms) == join(member_texts(ms), seq![',']),
    decreases ms.len(),
{
    reveal(member_texts);
    reveal(member_t);
    if ms.len() > 1 {
        lemma_members_join(ms.drop_last());
        assert(member_texts(ms.drop_last()) =~= member_texts(ms).drop_last());
    }
}

proof fn lemma_items_join(xs: Seq<Json>)
    ensures
        items_text(xs) == join(element_texts(xs), seq![',']),
    decreases xs.len(),
{
    reveal(element_texts);
    if xs.len() > 1 {
        lemma_items_join(xs.drop_last());
        assert(element_texts(xs.drop_last()) =~= element_texts(xs).drop_last());
    }
}

fn object_of(ms: Vec<(String, Json)>) -> (r: Json)
    ensures
        json_text(r) == object_t(member_texts(ms@)),
{
    reveal(object_t);
    proof {
        lemma_members_join(ms@);
    }
    Json::Object(ms)
}

fn array_of(xs: Vec<Json>) -> (r: Json)
    ensures
        json_text(r) == array_t(element_texts(xs@)),
{
    reveal(array_t);
    proof {
        lemma_items_join(xs@);
    }
    Json::Array(xs)
}

fn text_value(s: &str) -> (r: Json)
    ensures
        json_text(r) == json_quoted(s@),
{
    Json::Str(s.to_owned())
}

fn number_value(s: &str) -> (r: Json)
    ensures
        json_text(r) == s@,
{
    Json::Number(s.to_owned())
}

/// Append the member `k: v`.
fn push_member(ms: &mut Vec<(String, Json)>, k: &str, v: Json)
    ensures
        member_texts(final(ms)@) == member_texts(old(ms)@).push(member_t(k@, json_text(v))),
{
    reveal(member_texts);
    let ghost t = json_text(v);
    ms.push((k.to_owned(), v));
    assert(member_texts(ms@) =~= member_texts(old(ms)@).push(member_t(k@, t)));
}

/// Append an element.
fn push_element(xs: &mut Vec<Json>, v: Json)
    ensures
        element_texts(final(xs)@) == element_texts(old(xs)@).push(json_text(v)),
{
    reveal(element_texts);
    let ghost t = json_text(v);
    xs.push(v);
    assert(element_texts(xs@) =~= element_texts(old(xs)@).push(t));
}


/// Append the member `k: v`, with a key made at run time.
fn push_named(ms: &mut Vec<(String, Json)>, k: String, v: Json)
    ensures
        member_texts(final(ms)@) == member_texts(old(ms)@).push(member_t(k@, json_text(v))),
{
    reveal(member_texts);
    let ghost t = json_text(v);
    let ghost kv = k@;
    ms.push((k, v));
    assert(member_texts(ms@) =~= member_texts(old(ms)@).push(member_t(kv, t)));
}

// ---------------------------------------------------------------------------
// The item, as text
// ---------------------------------------------------------------------------

/// The views of a list of strings.
pub open spec fn views(ids: Seq<String>) -> Seq<Seq<char>> {
    Seq::new(ids.len(), |i: int| ids[i]@)
}

/// `s` written `n` times over.
#[verifier::opaque]
pub open spec fn repeat_text(s: Seq<char>, n: nat) -> Seq<char>
    decreases n,
{
    if n == 0 {
        seq![]
    } else {
        repeat_text(s, (n - 1) as nat) + s
    }
}

/// An object holding one member, `value`.
#[verifier::opaque]
pub open spec fn value_t(v: Seq<char>) -> Seq<char> {
    object_t(seq![member_t("value"@, v)])
}

/// A reference to the entity `id` of the given kind.
#[verifier::opaque]
pub open spec fn reference_t(id: Seq<char>, kind: Seq<char>) -> Seq<char> {
    object_t(seq![member_t("target_id"@, json_quoted(id)), member_t("target_type"@, json_quoted(kind))])
}

/// An array of `n` references of one kind, to `ids[from]`, `ids[from + 1]`, ...
#[verifier::opaque]
pub open spec fn references_t(ids: Seq<Seq<char>>, from: int, n: nat, kind: Seq<char>) -> Seq<char> {
    array_t(Seq::new(n, |k: int| reference_t(ids[from + k], kind)))
}

/// The name of extra field `i`.
pub open spec fn extra_name(i: nat) -> Seq<char> {
    "field_extra_"@ + decimal(i)
}

/// Extra field `i`, written by `author`.
#[verifier::opaque]
pub open spec fn extra_t(i: nat, author: Seq<char>) -> Seq<char> {
    object_t(
        seq![
            member_t(
                "metadata"@,
                object_t(
                    seq![
                        member_t("author"@, json_quoted(author)),
                        member_t("created"@, "1707600000"@),
                        member_t("updated"@, "1707686400"@),
                    ],
                ),
            ),
            member_t(
                "value"@,
                json_quoted(
                    "Extra field value "@ + decimal(i)
                        + " with some additional text to increase payload size"@,
                ),
            ),
        ],
    )
}

/// How many of the two-digit extra fields start with the digit `d`, when
/// there are `n < 100` of them in all.
pub open spec fn two_digit_count(n: nat, d: nat) -> nat {
    if d == 0 || n <= 10 * d {
        0
    } else if n - 10 * d >= 10 {
        10
    } else {
        (n - 10 * d) as nat
    }
}

/// The numbers below `n < 100` whose names start with a digit below `d`,
/// in the order of their names: `d`, then `10 d .. 10 d + 9`, digit by digit.
#[verifier::opaque]
pub open spec fn extra_order_before(n: nat, d: nat) -> Seq<nat>
    decreases d,
{
    if d == 0 {
        seq![]
    } else {
        let e = (d - 1) as nat;
        extra_order_before(n, e) + (if e < n {
            seq![e]
        } else {
            seq![]
        }) + Seq::new(two_digit_count(n, e), |t: int| (10 * e + t) as nat)
    }
}

/// The numbers below `n < 100` in the order of their names.
#[verifier::opaque]
pub open spec fn extra_order(n: nat) -> Seq<nat> {
    extra_order_before(n, 10)
}

/// The extra fields named in `order`, field `i` written by `ids[base + i]`.
#[verifier::opaque]
pub open spec fn extras_t(ids: Seq<Seq<char>>, base: int, order: Seq<nat>) -> Seq<Seq<char>> {
    Seq::new(
        order.len(),
        |j: int| member_t(extra_name(order[j]), extra_t(order[j], ids[base + order[j]])),
    )
}

/// The members of the `fields` object that come before the extra fields.
#[verifier::opaque]
pub open spec fn fields_head_t(p: PayloadSize, ids: Seq<Seq<char>>) -> Seq<Seq<char>> {
    let t = tag_count(p) as int;
    let r = related_count(p) as int;
    seq![
        member_t(
            "field_body"@,
            object_t(
                seq![
                    member_t("format"@, json_quoted("filtered_html"@)),
                    member_t("value"@, json_quoted(repeat_text(BASE_PARAGRAPH@, body_paragraphs(p)))),
                ],
            ),
        ),
        member_t("field_category"@, reference_t(ids[3 + t + r], "category_term"@)),
        member_t("field_email"@, value_t(json_quoted("test@trovato.rs"@))),
    ]
}

/// The members of the `fields` object from `field_flags` to `field_rating`.
#[verifier::opaque]
pub open spec fn fields_middle_t(p: PayloadSize, ids: Seq<Seq<char>>) -> Seq<Seq<char>> {
    let t = tag_count(p) as int;
    let r = related_count(p) as int;
    seq![
        member_t(
            "field_flags"@,
            object_t(
                seq![
                    member_t("allow_comments"@, "true"@),
                    member_t("featured"@, "true"@),
                    member_t("sponsored"@, "false"@),
                ],
            ),
        ),
        member_t(
            "field_image"@,
            object_t(
                seq![
                    member_t("alt"@, json_quoted("Benchmark test image"@)),
                    member_t("file_id"@, json_quoted(ids[4 + t + r])),
                    member_t("title"@, json_quoted("Phase 0 Test"@)),
                ],
            ),
        ),
        member_t(
            "field_metadata"@,
            object_t(
                seq![
                    member_t("canonical_url"@, json_quoted("https://trovato.rs/blog/wasm-benchmarks"@)),
                    member_t("og_image"@, json_quoted("https://trovato.rs/images/benchmark.png"@)),
                    member_t(
                        "seo_description"@,
                        json_quoted("Phase 0 architecture validation for Trovato CMS"@),
                    ),
                    member_t("seo_title"@, json_quoted("WASM Benchmarks"@)),
                ],
            ),
        ),
        member_t("field_price"@, value_t("29.99"@)),
        member_t("field_published_date"@, value_t(json_quoted("2025-02-11"@))),
        member_t("field_rating"@, value_t("4"@)),
    ]
}

/// The members of the `fields` object from `field_related` on.
#[verifier::opaque]
pub open spec fn fields_tail_t(p: PayloadSize, ids: Seq<Seq<char>>) -> Seq<Seq<char>> {
    let t = tag_count(p) as int;
    seq![
        member_t("field_related"@, references_t(ids, 3 + t, related_count(p), "item"@)),
        member_t(
            "field_summary"@,
            object_t(
                seq![
                    member_t("format"@, json_quoted("plain_text"@)),
                    member_t(
                        "value"@,
                        json_quoted("A benchmark test post for Phase 0 WASM architecture validation."@),
                    ),
                ],
            ),
        ),
        member_t("field_tags"@, references_t(ids, 3, tag_count(p), "category_term"@)),
        member_t("field_views"@, value_t("1247"@)),
        member_t("field_word_count"@, value_t("342"@)),
    ]
}

/// The `fields` object of an item of preset `p`: its members in the order
/// of their names, the extra fields among them.
#[verifier::opaque]
pub open spec fn fields_t(p: PayloadSize, ids: Seq<Seq<char>>) -> Seq<char> {
    let t = tag_count(p) as int;
    let r = related_count(p) as int;
    object_t(
        fields_head_t(p, ids) + extras_t(ids, 5 + t + r, extra_order(extra_count(p))) + fields_middle_t(
            p,
            ids,
        ) + fields_tail_t(p, ids),
    )
}

/// A synthetic item of preset `p` written as compact JSON, its identifiers
/// taken from `ids` (see `id_count`).
#[verifier::opaque]
pub open spec fn item_t(p: PayloadSize, ids: Seq<Seq<char>>) -> Seq<char> {
    object_t(
        seq![
            member_t("author_id"@, json_quoted(ids[1])),
            member_t("changed"@, "1707686400"@),
            member_t("created"@, "1707600000"@),
            member_t("fields"@, fields_t(p, ids)),
            member_t("id"@, json_quoted(ids[0])),
            member_t("promote"@, "1"@),
            member_t("revision_id"@, json_quoted(ids[2])),
            member_t("status"@, "1"@),
            member_t("sticky"@, "0"@),
            member_t("title"@, json_quoted(ITEM_TITLE@)),
            member_t("type"@, json_quoted("blog"@)),
        ],
    )
}

/// A list of identifiers fit for an item of preset `p`.
pub open spec fn item_ids(p: PayloadSize, ids: Seq<Seq<char>>) -> bool {
    ids.len() == id_count(p) && forall|i: int| 0 <= i < ids.len() ==> uuid_text(#[trigger] ids[i])
}


// ---------------------------------------------------------------------------
// Building the item
// ---------------------------------------------------------------------------

fn object1(k1: &str, v1: Json) -> (r: Json)
    ensures
        json_text(r) == object_t(seq![member_t(k1@, json_text(v1))]),
{
    let ghost t1 = json_text(v1);
    let mut ms: Vec<(String, Json)> = Vec::new();
    assert(member_texts(ms@) =~= seq![]) by { reveal(member_texts); }
    push_member(&mut ms, k1, v1);
    assert(member_texts(ms@) =~= seq![member_t(k1@, t1)]);
    object_of(ms)
}

fn object2(k1: &str, v1: Json, k2: &str, v2: Json) -> (r: Json)
    ensures
        json_text(r) == object_t(seq![member_t(k1@, json_text(v1)), member_t(k2@, json_text(v2))]),
{
    let ghost t1 = json_text(v1);
    let ghost t2 = json_text(v2);
    let mut ms: Vec<(String, Json)> = Vec::new();
    assert(member_texts(ms@) =~= seq![]) by { reveal(member_texts); }
    push_member(&mut ms, k1, v1);
    push_member(&mut ms, k2, v2);
    assert(member_texts(ms@) =~= seq![member_t(k1@, t1), member_t(k2@, t2)]);
    object_of(ms)
}

fn object3(k1: &str, v1: Json, k2: &str, v2: Json, k3: &str, v3: Json) -> (r: Json)
    ensures
        json_text(r) == object_t(
            seq![
                member_t(k1@, json_text(v1)),
                member_t(k2@, json_text(v2)),
                member_t(k3@, json_text(v3)),
            ],
        ),
{
    let ghost t1 = json_text(v1);
    let ghost t2 = json_text(v2);
    let ghost t3 = json_text(v3);
    let mut ms: Vec<(String, Json)> = Vec::new();
    assert(member_texts(ms@) =~= seq![]) by { reveal(member_texts); }
    push_member(&mut ms, k1, v1);
    push_member(&mut ms, k2, v2);
    push_member(&mut ms, k3, v3);
    assert(member_texts(ms@) =~= seq![member_t(k1@, t1), member_t(k2@, t2), member_t(k3@, t3)]);
    object_of(ms)
}

/// A reference to the entity `id` of the given kind.
fn reference(id: &str, kind: &str) -> (r: Json)
    ensures
        json_text(r) == reference_t(id@, kind@),
{
    reveal(reference_t);
    object2("target_id", text_value(id), "target_type", text_value(kind))
}

/// `n` references of one kind, to `ids[from]` on.
fn references(ids: &Vec<String>, from: usize, n: usize, kind: &str) -> (r: Json)
    requires
        from + n <= ids.len(),
    ensures
        json_text(r) == references_t(views(ids@), from as int, n as nat, kind@),
{
    reveal(references_t);
    let mut xs: Vec<Json> = Vec::new();
    assert(element_texts(xs@) =~= Seq::new(0, |j: int| reference_t(views(ids@)[from + j], kind@))) by {
        reveal(element_texts);
    }
    let mut k: usize = 0;
    while k < n
        invariant
            k <= n,
            from + n <= ids.len(),
            element_texts(xs@) == Seq::new(k as nat, |j: int| reference_t(views(ids@)[from + j], kind@)),
        decreases n - k,
    {
        let e = reference(ids[from + k].as_str(), kind);
        push_element(&mut xs, e);
        assert(Seq::new(k as nat, |j: int| reference_t(views(ids@)[from + j], kind@)).push(
            reference_t(ids@[from + k as int]@, kind@),
        ) =~= Seq::new((k + 1) as nat, |j: int| reference_t(views(ids@)[from + j], kind@)));
        k += 1;
    }
    array_of(xs)
}

/// `s` written `n` times over.
fn repeat_str(s: &str, n: usize) -> (r: String)
    ensures
        r@ == repeat_text(s@, n as nat),
{
    reveal(repeat_text);
    let c = chars_of(s);
    let mut out: Vec<char> = Vec::new();
    let mut k: usize = 0;
    while k < n
        invariant
            k <= n,
            c@ == s@,
            out@ == repeat_text(s@, k as nat),
        decreases n - k,
    {
        assert(repeat_text(s@, (k + 1) as nat) == repeat_text(s@, k as nat) + s@) by {
            reveal(repeat_text);
        }
        push_all(&mut out, &c);
        k += 1;
    }
    string_of(&out)
}

/// Extra field `i`, written by `author`, as a member.
fn push_extra(ms: &mut Vec<(String, Json)>, i: usize, author: &str)
    ensures
        member_texts(final(ms)@) == member_texts(old(ms)@).push(
            member_t(extra_name(i as nat), extra_t(i as nat, author@)),
        ),
{
    reveal(extra_t);
    let digits = u64_to_decimal(i as u64);
    let mut name = chars_of("field_extra_");
    push_all(&mut name, &digits);
    let mut text = chars_of("Extra field value ");
    push_all(&mut text, &digits);
    push_all(&mut text, &chars_of(" with some additional text to increase payload size"));
    let meta = object3(
        "author",
        text_value(author),
        "created",
        number_value("1707600000"),
        "updated",
        number_value("1707686400"),
    );
    let value = Json::Str(string_of(&text));
    let field = object2("metadata", meta, "value", value);
    push_named(ms, string_of(&name), field);
}

/// The extra fields below `n`, in the order of their names, field `i`
/// written by `ids[base + i]`.
fn push_extras(ms: &mut Vec<(String, Json)>, ids: &Vec<String>, base: usize, n: usize)
    requires
        n < 100,
        base + n <= ids.len(),
    ensures
        member_texts(final(ms)@) == member_texts(old(ms)@) + extras_t(
            views(ids@),
            base as int,
            extra_order(n as nat),
        ),
{
    reveal(extras_t);
    reveal(extra_order);
    reveal(extra_order_before);
    let ghost v = views(ids@);
    let mut d: usize = 0;
    while d < 10
        invariant
            d <= 10,
            n < 100,
            base + n <= ids.len(),
            v == views(ids@),
            member_texts(ms@) == member_texts(old(ms)@) + extras_t(
                v,
                base as int,
                extra_order_before(n as nat, d as nat),
            ),
        decreases 10 - d,
    {
        reveal(extras_t);
        reveal(extra_order_before);
        let ghost o = extra_order_before(n as nat, d as nat);
        if d < n {
            push_extra(ms, d, ids[base + d].as_str());
            assert(extras_t(v, base as int, o + seq![d as nat]) =~= extras_t(v, base as int, o).push(
                member_t(extra_name(d as nat), extra_t(d as nat, v[base + d])),
            ));
        }
        let ghost o1 = o + (if d < n {
            seq![d as nat]
        } else {
            seq![]
        });
        assert(member_texts(ms@) == member_texts(old(ms)@) + extras_t(v, base as int, o1)) by {
            if !(d < n) {
                assert(o1 =~= o);
            }
        }
        let m: usize = if d == 0 || n <= 10 * d {
            0
        } else if n - 10 * d >= 10 {
            10
        } else {
            n - 10 * d
        };
        assert(m == two_digit_count(n as nat, d as nat));
        let mut t: usize = 0;
        while t < m
            invariant
                t <= m,
                d < 10,
                m == two_digit_count(n as nat, d as nat),
                n < 100,
                base + n <= ids.len(),
                v == views(ids@),
                member_texts(ms@) == member_texts(old(ms)@) + extras_t(
                    v,
                    base as int,
                    o1 + Seq::new(t as nat, |k: int| (10 * d + k) as nat),
                ),
            decreases m - t,
        {
            reveal(extras_t);
            let i = 10 * d + t;
            push_extra(ms, i, ids[base + i].as_str());
            assert(extras_t(v, base as int, o1 + Seq::new((t + 1) as nat, |k: int| (10 * d + k) as nat))
                =~= extras_t(v, base as int, o1 + Seq::new(t as nat, |k: int| (10 * d + k) as nat)).push(
                member_t(extra_name(i as nat), extra_t(i as nat, v[base + i])),
            ));
            t += 1;
        }
        assert(o1 + Seq::new(m as nat, |k: int| (10 * d + k) as nat) =~= extra_order_before(
            n as nat,
            (d + 1) as nat,
        ));
        d += 1;
    }
}


/// The members of the `fields` object before the extra fields.
fn push_fields_head(ms: &mut Vec<(String, Json)>, p: PayloadSize, ids: &Vec<String>, body: &str)
    requires
        ids.len() == id_count(p),
        body@ == repeat_text(BASE_PARAGRAPH@, body_paragraphs(p)),
    ensures
        member_texts(final(ms)@) == member_texts(old(ms)@) + fields_head_t(p, views(ids@)),
{
    reveal(fields_head_t);
    reveal(value_t);
    let (_, tags, related, _) = counts_of(p);
    let ghost start = member_texts(ms@);
    push_member(ms, "field_body", object2("format", text_value("filtered_html"), "value", text_value(body)));
    let ghost a = member_texts(ms@).last();
    push_member(ms, "field_category", reference(ids[3 + tags + related].as_str(), "category_term"));
    let ghost b = member_texts(ms@).last();
    push_member(ms, "field_email", object1("value", text_value("test@trovato.rs")));
    let ghost c = member_texts(ms@).last();
    assert(fields_head_t(p, views(ids@)) =~= seq![a, b, c]);
    assert(member_texts(ms@) =~= start + seq![a, b, c]);
}

/// The members of the `fields` object from `field_flags` to `field_rating`.
fn push_fields_middle(ms: &mut Vec<(String, Json)>, p: PayloadSize, ids: &Vec<String>)
    requires
        ids.len() == id_count(p),
    ensures
        member_texts(final(ms)@) == member_texts(old(ms)@) + fields_middle_t(p, views(ids@)),
{
    reveal(fields_middle_t);
    reveal(value_t);
    let (_, tags, related, _) = counts_of(p);
    let ghost start = member_texts(ms@);
    push_member(
        ms,
        "field_flags",
        object3("allow_comments", Json::Bool(true), "featured", Json::Bool(true), "sponsored", Json::Bool(false)),
    );
    let ghost a = member_texts(ms@).last();
    push_member(
        ms,
        "field_image",
        object3(
            "alt",
            text_value("Benchmark test image"),
            "file_id",
            text_value(ids[4 + tags + related].as_str()),
            "title",
            text_value("Phase 0 Test"),
        ),
    );
    let ghost b = member_texts(ms@).last();
    let mut m: Vec<(String, Json)> = Vec::new();
    assert(member_texts(m@) =~= seq![]) by {
        reveal(member_texts);
    }
    push_member(&mut m, "canonical_url", text_value("https://trovato.rs/blog/wasm-benchmarks"));
    push_member(&mut m, "og_image", text_value("https://trovato.rs/images/benchmark.png"));
    push_member(&mut m, "seo_description", text_value("Phase 0 architecture validation for Trovato CMS"));
    push_member(&mut m, "seo_title", text_value("WASM Benchmarks"));
    assert(member_texts(m@) =~= seq![
        member_t("canonical_url"@, json_quoted("https://trovato.rs/blog/wasm-benchmarks"@)),
        member_t("og_image"@, json_quoted("https://trovato.rs/images/benchmark.png"@)),
        member_t("seo_description"@, json_quoted("Phase 0 architecture validation for Trovato CMS"@)),
        member_t("seo_title"@, json_quoted("WASM Benchmarks"@)),
    ]);
    push_member(ms, "field_metadata", object_of(m));
    let ghost c = member_texts(ms@).last();
    push_member(ms, "field_price", object1("value", number_value("29.99")));
    let ghost d = member_texts(ms@).last();
    push_member(ms, "field_published_date", object1("value", text_value("2025-02-11")));
    let ghost e = member_texts(ms@).last();
    push_member(ms, "field_rating", object1("value", number_value("4")));
    let ghost f = member_texts(ms@).last();
    assert(fields_middle_t(p, views(ids@)) =~= seq![a, b, c, d, e, f]);
    assert(member_texts(ms@) =~= start + seq![a, b, c, d, e, f]);
}

/// The members of the `fields` object from `field_related` on.
fn push_fields_tail(ms: &mut Vec<(String, Json)>, p: PayloadSize, ids: &Vec<String>)
    requires
        ids.len() == id_count(p),
    ensures
        member_texts(final(ms)@) == member_texts(old(ms)@) + fields_tail_t(p, views(ids@)),
{
    reveal(fields_tail_t);
    reveal(value_t);
    let (_, tags, related, _) = counts_of(p);
    let ghost start = member_texts(ms@);
    push_member(ms, "field_related", references(ids, 3 + tags, related, "item"));
    let ghost a = member_texts(ms@).last();
    push_member(
        ms,
        "field_summary",
        object2(
            "format",
            text_value("plain_text"),
            "value",
            text_value("A benchmark test post for Phase 0 WASM architecture validation."),
        ),
    );
    let ghost b = member_texts(ms@).last();
    push_member(ms, "field_tags", references(ids, 3, tags, "category_term"));
    let ghost c = member_texts(ms@).last();
    push_member(ms, "field_views", object1("value", number_value("1247")));
    let ghost d = member_texts(ms@).last();
    push_member(ms, "field_word_count", object1("value", number_value("342")));
    let ghost e = member_texts(ms@).last();
    assert(fields_tail_t(p, views(ids@)) =~= seq![a, b, c, d, e]);
    assert(member_texts(ms@) =~= start + seq![a, b, c, d, e]);
}

/// The `fields` object of an item of preset `p`.
fn fields_of(p: PayloadSize, ids: &Vec<String>) -> (r: Json)
    requires
        ids.len() == id_count(p),
    ensures
        json_text(r) == fields_t(p, views(ids@)),
{
    reveal(fields_t);
    let (paragraphs, tags, related, extras) = counts_of(p);
    let body = repeat_str(BASE_PARAGRAPH, paragraphs);
    let mut ms: Vec<(String, Json)> = Vec::new();
    assert(member_texts(ms@) =~= seq![]) by {
        reveal(member_texts);
    }
    push_fields_head(&mut ms, p, ids, body.as_str());
    push_extras(&mut ms, ids, 5 + tags + related, extras);
    push_fields_middle(&mut ms, p, ids);
    push_fields_tail(&mut ms, p, ids);
    object_of(ms)
}

/// A synthetic item of preset `p`, its identifiers taken from `ids`:
/// the item's own, its author's, its revision's, one per tag and related
/// item, the category's, the image file's, and one author per extra field.
pub fn synthetic_item_with_ids(p: PayloadSize, ids: &Vec<String>) -> (r: Json)
    requires
        ids.len() == id_count(p),
    ensures
        json_text(r) == item_t(p, views(ids@)),
{
    reveal(item_t);
    let ghost v = views(ids@);
    let fields = fields_of(p, ids);
    let mut ms: Vec<(String, Json)> = Vec::new();
    assert(member_texts(ms@) =~= seq![]) by { reveal(member_texts); }
    push_member(&mut ms, "author_id", text_value(ids[1].as_str()));
    push_member(&mut ms, "changed", number_value("1707686400"));
    push_member(&mut ms, "created", number_value("1707600000"));
    push_member(&mut ms, "fields", fields);
    push_member(&mut ms, "id", text_value(ids[0].as_str()));
    push_member(&mut ms, "promote", number_value("1"));
    push_member(&mut ms, "revision_id", text_value(ids[2].as_str()));
    push_member(&mut ms, "status", number_value("1"));
    push_member(&mut ms, "sticky", number_value("0"));
    push_member(&mut ms, "title", text_value(ITEM_TITLE));
    push_member(&mut ms, "type", text_value("blog"));
    assert(member_texts(ms@) =~= seq![
        member_t("author_id"@, json_quoted(v[1])),
        member_t("changed"@, "1707686400"@),
        member_t("created"@, "1707600000"@),
        member_t("fields"@, fields_t(p, v)),
        member_t("id"@, json_quoted(v[0])),
        member_t("promote"@, "1"@),
        member_t("revision_id"@, json_quoted(v[2])),
        member_t("status"@, "1"@),
        member_t("sticky"@, "0"@),
        member_t("title"@, json_quoted(ITEM_TITLE@)),
        member_t("type"@, json_quoted("blog"@)),
    ]);
    object_of(ms)
}


/// `n` fresh identifiers.
fn new_ids(n: usize) -> (r: Vec<String>)
    ensures
        r.len() == n,
        forall|i: int| 0 <= i < n ==> uuid_text(#[trigger] r@[i]@),
{
    let mut ids: Vec<String> = Vec::new();
    let mut k: usize = 0;
    while k < n
        invariant
            k <= n,
            ids.len() == k,
            forall|i: int| 0 <= i < k ==> uuid_text(#[trigger] ids@[i]@),
        decreases n - k,
    {
        ids.push(new_uuid_v7());
        k += 1;
    }
    ids
}

/// A synthetic item of preset `p` with fresh identifiers.
pub fn synthetic_item_sized(p: PayloadSize) -> (r: Json)
    ensures
        exists|ids: Seq<Seq<char>>| item_ids(p, ids) && json_text(r) == item_t(p, ids),
{
    let (_, tags, related, extras) = counts_of(p);
    let ids = new_ids(5 + tags + related + extras);
    let r = synthetic_item_with_ids(p, &ids);
    assert(item_ids(p, views(ids@)));
    r
}

/// A synthetic item of the default (small) preset.
pub fn synthetic_item() -> (r: Json)
    ensures
        exists|ids: Seq<Seq<char>>| item_ids(PayloadSize::Small, ids) && json_text(r) == item_t(PayloadSize::Small, ids),
{
    synthetic_item_sized(PayloadSize::Small)
}

/// A synthetic item of preset `p` written as compact JSON.
pub fn synthetic_item_json(p: PayloadSize) -> (r: String)
    ensures
        exists|ids: Seq<Seq<char>>| item_ids(p, ids) && r@ == item_t(p, ids),
{
    let item = synthetic_item_sized(p);
    to_json_string(&item)
}

// ---------------------------------------------------------------------------
// The size of a preset does not depend on the identifiers drawn
// ---------------------------------------------------------------------------

/// `a` and `b` have the same length and differ only where both hold ASCII
/// characters, so they encode to the same number of bytes.
pub open spec fn aligned(a: Seq<char>, b: Seq<char>) -> bool {
    &&& a.len() == b.len()
    &&& forall|i: int|
        0 <= i < a.len() ==> #[trigger] a[i] == b[i] || ((a[i] as u32) < 128 && (b[i] as u32) < 128)
}

proof fn lemma_aligned_refl(a: Seq<char>)
    ensures
        aligned(a, a),
{
}

proof fn lemma_aligned_concat(a1: Seq<char>, b1: Seq<char>, a2: Seq<char>, b2: Seq<char>)
    requires
        aligned(a1, a2),
        aligned(b1, b2),
    ensures
        aligned(a1 + b1, a2 + b2),
{
    assert forall|i: int| 0 <= i < (a1 + b1).len() implies #[trigger] (a1 + b1)[i] == (a2 + b2)[i] || (((a1
        + b1)[i] as u32) < 128 && ((a2 + b2)[i] as u32) < 128) by {
        if i < a1.len() {
            assert((a1 + b1)[i] == a1[i] && (a2 + b2)[i] == a2[i]);
        } else {
            assert((a1 + b1)[i] == b1[i - a1.len()] && (a2 + b2)[i] == b2[i - a1.len()]);
        }
    }
}

/// Words aligned one by one join into aligned texts.
proof fn lemma_aligned_join(ws1: Seq<Seq<char>>, ws2: Seq<Seq<char>>, sep: Seq<char>)
    requires
        ws1.len() == ws2.len(),
        forall|i: int| 0 <= i < ws1.len() ==> aligned(#[trigger] ws1[i], ws2[i]),
    ensures
        aligned(join(ws1, sep), join(ws2, sep)),
    decreases ws1.len(),
{
    if ws1.len() > 1 {
        lemma_aligned_join(ws1.drop_last(), ws2.drop_last(), sep);
        lemma_aligned_refl(sep);
        lemma_aligned_concat(join(ws1.drop_last(), sep), sep, join(ws2.drop_last(), sep), sep);
        lemma_aligned_concat(
            join(ws1.drop_last(), sep) + sep,
            ws1.last(),
            join(ws2.drop_last(), sep) + sep,
            ws2.last(),
        );
    } else if ws1.len() == 1 {
        assert(aligned(ws1[0], ws2[0]));
    }
}

/// Aligned texts encode to the same number of bytes.
proof fn lemma_aligned_encoding(a: Seq<char>, b: Seq<char>)
    requires
        aligned(a, b),
    ensures
        encode_utf8(a).len() == encode_utf8(b).len(),
    decreases a.len(),
{
    if a.len() > 0 {
        assert(aligned(a.drop_first(), b.drop_first())) by {
            assert forall|i: int| 0 <= i < a.drop_first().len() implies #[trigger] a.drop_first()[i]
                == b.drop_first()[i] || ((a.drop_first()[i] as u32) < 128 && (b.drop_first()[i] as u32)
                < 128) by {
                assert(a.drop_first()[i] == a[i + 1] && b.drop_first()[i] == b[i + 1]);
            }
        }
        lemma_aligned_encoding(a.drop_first(), b.drop_first());
        assert(a[0] == b[0] || ((a[0] as u32) < 128 && (b[0] as u32) < 128));
    }
}

/// Hex digits and hyphens need no escaping.
proof fn lemma_plain_escaped(s: Seq<char>)
    requires
        forall|i: int| 0 <= i < s.len() ==> ('0' <= #[trigger] s[i] <= '9') || ('a' <= s[i] <= 'f') || s[i] == '-',
    ensures
        json_escaped(s) == s,
    decreases s.len(),
{
    if s.len() > 0 {
        lemma_plain_escaped(s.drop_last());
        let c = s.last();
        assert(('0' <= c <= '9') || ('a' <= c <= 'f') || c == '-');
        assert(json_escape(c) == seq![c]);
        assert(s.drop_last().push(c) =~= s);
    }
}

/// Two identifiers in UUID form, quoted, are aligned.
proof fn lemma_uuid_quoted(a: Seq<char>, b: Seq<char>)
    requires
        uuid_text(a),
        uuid_text(b),
    ensures
        aligned(json_quoted(a), json_quoted(b)),
{
    assert forall|i: int| 0 <= i < a.len() implies ('0' <= #[trigger] a[i] <= '9') || ('a' <= a[i] <= 'f')
        || a[i] == '-' by {
        if i == 8 || i == 13 || i == 18 || i == 23 {
        } else {
        }
    }
    assert forall|i: int| 0 <= i < b.len() implies ('0' <= #[trigger] b[i] <= '9') || ('a' <= b[i] <= 'f')
        || b[i] == '-' by {
        if i == 8 || i == 13 || i == 18 || i == 23 {
        } else {
        }
    }
    lemma_plain_escaped(a);
    lemma_plain_escaped(b);
    assert(aligned(a, b)) by {
        assert forall|i: int| 0 <= i < a.len() implies #[trigger] a[i] == b[i] || ((a[i] as u32) < 128 && (
        b[i] as u32) < 128) by {
            assert(('0' <= a[i] <= '9') || ('a' <= a[i] <= 'f') || a[i] == '-');
            assert(('0' <= b[i] <= '9') || ('a' <= b[i] <= 'f') || b[i] == '-');
        }
    }
    lemma_aligned_refl(seq!['"']);
    lemma_aligned_concat(seq!['"'], a, seq!['"'], b);
    lemma_aligned_concat(seq!['"'] + a, seq!['"'], seq!['"'] + b, seq!['"']);
}

/// Members with aligned values are aligned.
proof fn lemma_member_aligned(k: Seq<char>, v1: Seq<char>, v2: Seq<char>)
    requires
        aligned(v1, v2),
    ensures
        aligned(member_t(k, v1), member_t(k, v2)),
{
    reveal(member_t);
    lemma_aligned_refl(json_quoted(k) + seq![':']);
    lemma_aligned_concat(json_quoted(k) + seq![':'], v1, json_quoted(k) + seq![':'], v2);
}

/// Objects of aligned members, and arrays of aligned elements, are aligned.
proof fn lemma_container_aligned(ms1: Seq<Seq<char>>, ms2: Seq<Seq<char>>)
    requires
        ms1.len() == ms2.len(),
        forall|i: int| 0 <= i < ms1.len() ==> aligned(#[trigger] ms1[i], ms2[i]),
    ensures
        aligned(object_t(ms1), object_t(ms2)),
        aligned(array_t(ms1), array_t(ms2)),
{
    reveal(object_t);
    reveal(array_t);
    lemma_aligned_join(ms1, ms2, seq![',']);
    let j1 = join(ms1, seq![',']);
    let j2 = join(ms2, seq![',']);
    lemma_aligned_refl(seq!['{']);
    lemma_aligned_refl(seq!['}']);
    lemma_aligned_refl(seq!['[']);
    lemma_aligned_refl(seq![']']);
    lemma_aligned_concat(seq!['{'], j1, seq!['{'], j2);
    lemma_aligned_concat(seq!['{'] + j1, seq!['}'], seq!['{'] + j2, seq!['}']);
    lemma_aligned_concat(seq!['['], j1, seq!['['], j2);
    lemma_aligned_concat(seq!['['] + j1, seq![']'], seq!['['] + j2, seq![']']);
}

/// Two lists of texts aligned one by one.
pub open spec fn pointwise(ws1: Seq<Seq<char>>, ws2: Seq<Seq<char>>) -> bool {
    ws1.len() == ws2.len() && forall|i: int| 0 <= i < ws1.len() ==> aligned(#[trigger] ws1[i], ws2[i])
}

proof fn lemma_pointwise_concat(a1: Seq<Seq<char>>, b1: Seq<Seq<char>>, a2: Seq<Seq<char>>, b2: Seq<Seq<char>>)
    requires
        pointwise(a1, a2),
        pointwise(b1, b2),
    ensures
        pointwise(a1 + b1, a2 + b2),
{
    assert forall|i: int| 0 <= i < (a1 + b1).len() implies aligned(#[trigger] (a1 + b1)[i], (a2 + b2)[i]) by {
        if i < a1.len() {
            assert((a1 + b1)[i] == a1[i] && (a2 + b2)[i] == a2[i]);
        } else {
            assert((a1 + b1)[i] == b1[i - a1.len()] && (a2 + b2)[i] == b2[i - a1.len()]);
        }
    }
}

proof fn lemma_reference_aligned(a: Seq<char>, b: Seq<char>, kind: Seq<char>)
    requires
        uuid_text(a),
        uuid_text(b),
    ensures
        aligned(reference_t(a, kind), reference_t(b, kind)),
{
    reveal(reference_t);
    lemma_uuid_quoted(a, b);
    lemma_member_aligned("target_id"@, json_quoted(a), json_quoted(b));
    lemma_aligned_refl(member_t("target_type"@, json_quoted(kind)));
    let m1 = seq![member_t("target_id"@, json_quoted(a)), member_t("target_type"@, json_quoted(kind))];
    let m2 = seq![member_t("target_id"@, json_quoted(b)), member_t("target_type"@, json_quoted(kind))];
    assert(pointwise(m1, m2)) by {
        assert forall|i: int| 0 <= i < m1.len() implies aligned(#[trigger] m1[i], m2[i]) by {
            if i == 0 {
            } else {
            }
        }
    }
    lemma_container_aligned(m1, m2);
}

proof fn lemma_references_aligned(ids1: Seq<Seq<char>>, ids2: Seq<Seq<char>>, from: int, n: nat, kind: Seq<char>)
    requires
        forall|k: int| 0 <= k < n ==> uuid_text(#[trigger] ids1[from + k]) && uuid_text(ids2[from + k]),
    ensures
        aligned(references_t(ids1, from, n, kind), references_t(ids2, from, n, kind)),
{
    reveal(references_t);
    let r1 = Seq::new(n, |k: int| reference_t(ids1[from + k], kind));
    let r2 = Seq::new(n, |k: int| reference_t(ids2[from + k], kind));
    assert forall|k: int| 0 <= k < r1.len() implies aligned(#[trigger] r1[k], r2[k]) by {
        assert(uuid_text(ids1[from + k]) && uuid_text(ids2[from + k]));
        lemma_reference_aligned(ids1[from + k], ids2[from + k], kind);
    }
    lemma_container_aligned(r1, r2);
}

proof fn lemma_extra_aligned(i: nat, a: Seq<char>, b: Seq<char>)
    requires
        uuid_text(a),
        uuid_text(b),
    ensures
        aligned(extra_t(i, a), extra_t(i, b)),
{
    reveal(extra_t);
    lemma_uuid_quoted(a, b);
    lemma_member_aligned("author"@, json_quoted(a), json_quoted(b));
    let c = member_t("created"@, "1707600000"@);
    let u = member_t("updated"@, "1707686400"@);
    lemma_aligned_refl(c);
    lemma_aligned_refl(u);
    let m1 = seq![member_t("author"@, json_quoted(a)), c, u];
    let m2 = seq![member_t("author"@, json_quoted(b)), c, u];
    assert(pointwise(m1, m2)) by {
        assert forall|k: int| 0 <= k < m1.len() implies aligned(#[trigger] m1[k], m2[k]) by {
            if k == 0 {
            } else if k == 1 {
            } else {
            }
        }
    }
    lemma_container_aligned(m1, m2);
    lemma_member_aligned("metadata"@, object_t(m1), object_t(m2));
    let v = member_t(
        "value"@,
        json_quoted("Extra field value "@ + decimal(i) + " with some additional text to increase payload size"@),
    );
    lemma_aligned_refl(v);
    let o1 = seq![member_t("metadata"@, object_t(m1)), v];
    let o2 = seq![member_t("metadata"@, object_t(m2)), v];
    assert(pointwise(o1, o2)) by {
        assert forall|k: int| 0 <= k < o1.len() implies aligned(#[trigger] o1[k], o2[k]) by {
            if k == 0 {
            } else {
            }
        }
    }
    lemma_container_aligned(o1, o2);
}

/// The extra fields below `n` are numbered below `n`.
proof fn lemma_extra_order_bounded(n: nat, d: nat)
    ensures
        forall|j: int| 0 <= j < extra_order_before(n, d).len() ==> #[trigger] extra_order_before(n, d)[j] < n,
    decreases d,
{
    reveal(extra_order_before);
    if d > 0 {
        let e = (d - 1) as nat;
        lemma_extra_order_bounded(n, e);
        let a = extra_order_before(n, e);
        let b = if e < n {
            seq![e]
        } else {
            seq![]
        };
        let c = Seq::new(two_digit_count(n, e), |t: int| (10 * e + t) as nat);
        assert(extra_order_before(n, d) == a + b + c);
        assert forall|j: int| 0 <= j < (a + b + c).len() implies #[trigger] (a + b + c)[j] < n by {
            if j < a.len() {
                assert((a + b + c)[j] == a[j]);
            } else if j < a.len() + b.len() {
                assert((a + b + c)[j] == b[j - a.len()]);
            } else {
                assert((a + b + c)[j] == c[j - a.len() - b.len()]);
            }
        }
    }
}

proof fn lemma_extras_aligned(ids1: Seq<Seq<char>>, ids2: Seq<Seq<char>>, base: int, order: Seq<nat>, n: nat)
    requires
        forall|j: int| 0 <= j < order.len() ==> #[trigger] order[j] < n,
        forall|k: int| 0 <= k < n ==> uuid_text(#[trigger] ids1[base + k]) && uuid_text(ids2[base + k]),
    ensures
        pointwise(extras_t(ids1, base, order), extras_t(ids2, base, order)),
{
    reveal(extras_t);
    let e1 = extras_t(ids1, base, order);
    let e2 = extras_t(ids2, base, order);
    assert forall|j: int| 0 <= j < e1.len() implies aligned(#[trigger] e1[j], e2[j]) by {
        let k = order[j] as int;
        assert(uuid_text(ids1[base + k]) && uuid_text(ids2[base + k]));
        lemma_extra_aligned(order[j], ids1[base + k], ids2[base + k]);
        lemma_member_aligned(extra_name(order[j]), extra_t(order[j], ids1[base + k]), extra_t(order[j], ids2[base + k]));
    }
}

/// Whatever identifiers a preset's item takes, its text has the same
/// length and differs only in ASCII characters.
proof fn lemma_item_aligned(p: PayloadSize, ids1: Seq<Seq<char>>, ids2: Seq<Seq<char>>)
    requires
        item_ids(p, ids1),
        item_ids(p, ids2),
    ensures
        aligned(item_t(p, ids1), item_t(p, ids2)),
{
    let t = tag_count(p) as int;
    let r = related_count(p) as int;
    let n = id_count(p) as int;
    assert forall|k: int| 0 <= k < n implies uuid_text(#[trigger] ids1[k]) && uuid_text(ids2[k]) by {}
    // the head: the category reference differs
    assert(pointwise(fields_head_t(p, ids1), fields_head_t(p, ids2))) by {
        reveal(fields_head_t);
        assert(uuid_text(ids1[3 + t + r]) && uuid_text(ids2[3 + t + r]));
        lemma_reference_aligned(ids1[3 + t + r], ids2[3 + t + r], "category_term"@);
        lemma_member_aligned(
            "field_category"@,
            reference_t(ids1[3 + t + r], "category_term"@),
            reference_t(ids2[3 + t + r], "category_term"@),
        );
        let h1 = fields_head_t(p, ids1);
        let h2 = fields_head_t(p, ids2);
        assert forall|i: int| 0 <= i < h1.len() implies aligned(#[trigger] h1[i], h2[i]) by {
            if i != 1 {
                lemma_aligned_refl(h1[i]);
            }
        }
    }
    // the extra fields: each author differs
    assert(pointwise(
        extras_t(ids1, 5 + t + r, extra_order(extra_count(p))),
        extras_t(ids2, 5 + t + r, extra_order(extra_count(p))),
    )) by {
        reveal(extra_order);
        lemma_extra_order_bounded(extra_count(p), 10);
        assert forall|k: int| 0 <= k < extra_count(p) implies uuid_text(#[trigger] ids1[5 + t + r + k]) && uuid_text(
            ids2[5 + t + r + k],
        ) by {
            assert(uuid_text(ids1[5 + t + r + k]) && uuid_text(ids2[5 + t + r + k]));
        }
        lemma_extras_aligned(ids1, ids2, 5 + t + r, extra_order(extra_count(p)), extra_count(p));
    }
    // the middle: the image file differs
    assert(pointwise(fields_middle_t(p, ids1), fields_middle_t(p, ids2))) by {
        reveal(fields_middle_t);
        let a = ids1[4 + t + r];
        let b = ids2[4 + t + r];
        assert(uuid_text(a) && uuid_text(b));
        lemma_uuid_quoted(a, b);
        lemma_member_aligned("file_id"@, json_quoted(a), json_quoted(b));
        let alt = member_t("alt"@, json_quoted("Benchmark test image"@));
        let title = member_t("title"@, json_quoted("Phase 0 Test"@));
        lemma_aligned_refl(alt);
        lemma_aligned_refl(title);
        let i1 = seq![alt, member_t("file_id"@, json_quoted(a)), title];
        let i2 = seq![alt, member_t("file_id"@, json_quoted(b)), title];
        assert(pointwise(i1, i2)) by {
            assert forall|k: int| 0 <= k < i1.len() implies aligned(#[trigger] i1[k], i2[k]) by {
                if k == 0 {
                } else if k == 1 {
                } else {
                }
            }
        }
        lemma_container_aligned(i1, i2);
        lemma_member_aligned("field_image"@, object_t(i1), object_t(i2));
        let m1 = fields_middle_t(p, ids1);
        let m2 = fields_middle_t(p, ids2);
        assert forall|i: int| 0 <= i < m1.len() implies aligned(#[trigger] m1[i], m2[i]) by {
            if i != 1 {
                lemma_aligned_refl(m1[i]);
            }
        }
    }
    // the tail: the related items and the tags differ
    assert(pointwise(fields_tail_t(p, ids1), fields_tail_t(p, ids2))) by {
        reveal(fields_tail_t);
        assert forall|k: int| 0 <= k < related_count(p) implies uuid_text(#[trigger] ids1[3 + t + k]) && uuid_text(
            ids2[3 + t + k],
        ) by {
            assert(uuid_text(ids1[3 + t + k]) && uuid_text(ids2[3 + t + k]));
        }
        assert forall|k: int| 0 <= k < tag_count(p) implies uuid_text(#[trigger] ids1[3 + k]) && uuid_text(
            ids2[3 + k],
        ) by {
            assert(uuid_text(ids1[3 + k]) && uuid_text(ids2[3 + k]));
        }
        lemma_references_aligned(ids1, ids2, 3 + t, related_count(p), "item"@);
        lemma_references_aligned(ids1, ids2, 3, tag_count(p), "category_term"@);
        lemma_member_aligned(
            "field_related"@,
            references_t(ids1, 3 + t, related_count(p), "item"@),
            references_t(ids2, 3 + t, related_count(p), "item"@),
        );
        lemma_member_aligned(
            "field_tags"@,
            references_t(ids1, 3, tag_count(p), "category_term"@),
            references_t(ids2, 3, tag_count(p), "category_term"@),
        );
        let m1 = fields_tail_t(p, ids1);
        let m2 = fields_tail_t(p, ids2);
        assert forall|i: int| 0 <= i < m1.len() implies aligned(#[trigger] m1[i], m2[i]) by {
            if i != 0 && i != 2 {
                lemma_aligned_refl(m1[i]);
            }
        }
    }
    // the fields object
    let hd1 = fields_head_t(p, ids1);
    let hd2 = fields_head_t(p, ids2);
    let ex1 = extras_t(ids1, 5 + t + r, extra_order(extra_count(p)));
    let ex2 = extras_t(ids2, 5 + t + r, extra_order(extra_count(p)));
    lemma_pointwise_concat(hd1, ex1, hd2, ex2);
    lemma_pointwise_concat(hd1 + ex1, fields_middle_t(p, ids1), hd2 + ex2, fields_middle_t(p, ids2));
    lemma_pointwise_concat(
        hd1 + ex1 + fields_middle_t(p, ids1),
        fields_tail_t(p, ids1),
        hd2 + ex2 + fields_middle_t(p, ids2),
        fields_tail_t(p, ids2),
    );
    assert(aligned(fields_t(p, ids1), fields_t(p, ids2))) by {
        reveal(fields_t);
        lemma_container_aligned(
            hd1 + ex1 + fields_middle_t(p, ids1) + fields_tail_t(p, ids1),
            hd2 + ex2 + fields_middle_t(p, ids2) + fields_tail_t(p, ids2),
        );
    }
    // the item
    reveal(item_t);
    lemma_uuid_quoted(ids1[0], ids2[0]);
    lemma_uuid_quoted(ids1[1], ids2[1]);
    lemma_uuid_quoted(ids1[2], ids2[2]);
    lemma_member_aligned("author_id"@, json_quoted(ids1[1]), json_quoted(ids2[1]));
    lemma_member_aligned("fields"@, fields_t(p, ids1), fields_t(p, ids2));
    lemma_member_aligned("id"@, json_quoted(ids1[0]), json_quoted(ids2[0]));
    lemma_member_aligned("revision_id"@, json_quoted(ids1[2]), json_quoted(ids2[2]));
    let top1 = seq![
        member_t("author_id"@, json_quoted(ids1[1])),
        member_t("changed"@, "1707686400"@),
        member_t("created"@, "1707600000"@),
        member_t("fields"@, fields_t(p, ids1)),
        member_t("id"@, json_quoted(ids1[0])),
        member_t("promote"@, "1"@),
        member_t("revision_id"@, json_quoted(ids1[2])),
        member_t("status"@, "1"@),
        member_t("sticky"@, "0"@),
        member_t("title"@, json_quoted(ITEM_TITLE@)),
        member_t("type"@, json_quoted("blog"@)),
    ];
    let top2 = seq![
        member_t("author_id"@, json_quoted(ids2[1])),
        member_t("changed"@, "1707686400"@),
        member_t("created"@, "1707600000"@),
        member_t("fields"@, fields_t(p, ids2)),
        member_t("id"@, json_quoted(ids2[0])),
        member_t("promote"@, "1"@),
        member_t("revision_id"@, json_quoted(ids2[2])),
        member_t("status"@, "1"@),
        member_t("sticky"@, "0"@),
        member_t("title"@, json_quoted(ITEM_TITLE@)),
        member_t("type"@, json_quoted("blog"@)),
    ];
    assert forall|i: int| 0 <= i < top1.len() implies aligned(#[trigger] top1[i], top2[i]) by {
        if i != 0 && i != 3 && i != 4 && i != 6 {
            lemma_aligned_refl(top1[i]);
        }
    }
    lemma_container_aligned(top1, top2);
}

/// An identifier of the right form: the least version-7 UUID.
pub open spec fn nil_uuid() -> Seq<char> {
    Seq::new(
        36,
        |i: int|
            if i == 8 || i == 13 || i == 18 || i == 23 {
                '-'
            } else if i == 14 {
                '7'
            } else if i == 19 {
                '8'
            } else {
                '0'
            },
    )
}

/// Nil identifiers for every slot of a preset's item.
pub open spec fn nil_ids(p: PayloadSize) -> Seq<Seq<char>> {
    Seq::new(id_count(p), |i: int| nil_uuid())
}

/// The size in bytes of a preset's item written as JSON; the same for
/// every choice of identifiers (see `law_payload_size_fixed`).
pub open spec fn payload_size(p: PayloadSize) -> nat {
    encode_utf8(item_t(p, nil_ids(p))).len()
}

/// A preset's item has the same size whatever identifiers it was given.
pub proof fn law_payload_size_fixed(p: PayloadSize, ids: Seq<Seq<char>>)
    requires
        item_ids(p, ids),
    ensures
        encode_utf8(item_t(p, ids)).len() == payload_size(p),
{
    assert(item_ids(p, nil_ids(p))) by {
        assert forall|i: int| 0 <= i < nil_ids(p).len() implies uuid_text(#[trigger] nil_ids(p)[i]) by {
            assert(nil_ids(p)[i] == nil_uuid());
        }
    }
    lemma_item_aligned(p, ids, nil_ids(p));
    lemma_aligned_encoding(item_t(p, ids), item_t(p, nil_ids(p)));
}

/// The size in bytes of a synthetic item of preset `p` written as JSON.
pub fn synthetic_item_size_for(p: PayloadSize) -> (r: usize)
    ensures
        r == payload_size(p) as usize,
{
    let json = synthetic_item_json(p);
    let text = json.as_str();
    let n = text.len();
    proof {
        let ids = choose|ids: Seq<Seq<char>>| item_ids(p, ids) && json@ == item_t(p, ids);
        law_payload_size_fixed(p, ids);
    }
    n
}

/// The size in bytes of a synthetic item of the default preset written as
/// JSON.
pub fn synthetic_item_size() -> (r: usize)
    ensures
        r == payload_size(PayloadSize::Small) as usize,
{
    synthetic_item_size_for(PayloadSize::Small)
}

} // verus!
