//! JSON values as the pipeline reads them, and the recovery of one JSON
//! object out of a model's free-form reply (fenced, prefixed or suffixed by
//! prose).

use vstd::prelude::*;
use serde_json::Value;
use crate::text::{chars_of, string_of, slice_chars, str_eq};

verus! {

/// A JSON value. A number keeps the text serde_json renders for it; an
/// object keeps its members in the order the parser yields them.
#[derive(Debug, PartialEq)]
pub enum Json {
    Null,
    Bool(bool),
    Number(String),
    Str(String),
    Array(Vec<Json>),
    Object(Vec<(String, Json)>),
}

/// What `serde_json::from_str::<Value>` makes of `text`: the value, or
/// `None` when the text is not one JSON document.
pub uninterp spec fn json_text_value(text: Seq<char>) -> Option<Json>;

/// `serde_json::from_str::<serde_json::Value>`, with the value copied out
/// variant by variant (a nested value is copied by rendering it with
/// `to_string` and reading that text back, which serde_json round-trips
/// exactly). Claims the result is the named parse of `text`.
#[verifier::external_body]
pub(crate) fn parse_json(text: &str) -> (r: Option<Json>)
    ensures
        r == json_text_value(text@),
{
    Some(match serde_json::from_str::<Value>(text).ok()? {
        Value::Null => Json::Null,
        Value::Bool(b) => Json::Bool(b),
        Value::Number(n) => Json::Number(n.to_string()),
        Value::String(s) => Json::Str(s),
        Value::Array(a) => Json::Array(a.iter().map(|x| parse_json(&x.to_string())).collect::<Option<_>>()?),
        Value::Object(m) => Json::Object(
            m.iter().map(|(k, x)| Some((k.clone(), parse_json(&x.to_string())?))).collect::<Option<_>>()?,
        ),
    })
}

// ---------------------------------------------------------------------------
// Reading values
// ---------------------------------------------------------------------------

/// The value of the first member named `key`, searching from member `i` on.
pub open spec fn member_from(ms: Seq<(String, Json)>, key: Seq<char>, i: int) -> Option<Json>
    decreases ms.len() - i,
{
    if i < 0 || i >= ms.len() {
        None
    } else if ms[i].0@ == key {
        Some(ms[i].1)
    } else {
        member_from(ms, key, i + 1)
    }
}

/// The value of the first member named `key` (`Map::get`).
pub open spec fn member(ms: Seq<(String, Json)>, key: Seq<char>) -> Option<Json> {
    member_from(ms, key, 0)
}

/// The first of two lookups that finds something (`a.or_else(|| b)`).
pub open spec fn either(a: Option<Json>, b: Option<Json>) -> Option<Json> {
    match a {
        Some(v) => Some(v),
        None => b,
    }
}

/// The string a value holds, if it is a string (`Value::as_str`).
pub open spec fn json_str(v: Option<Json>) -> Option<Seq<char>> {
    match v {
        Some(Json::Str(s)) => Some(s@),
        _ => None,
    }
}

/// Whether `r` is the reference form of the optional value `v`.
pub open spec fn found(r: Option<&Json>, v: Option<Json>) -> bool {
    match r {
        Some(j) => v == Some(*j),
        None => v is None,
    }
}

/// The value of the first member of `ms` named `key`.
pub fn get_member<'a>(ms: &'a Vec<(String, Json)>, key: &str) -> (r: Option<&'a Json>)
    ensures
        found(r, member(ms@, key@)),
{
    let mut i: usize = 0;
    while i < ms.len()
        invariant
            i <= ms.len(),
            member(ms@, key@) == member_from(ms@, key@, i as int),
        decreases ms.len() - i,
    {
        if str_eq(ms[i].0.as_str(), key) {
            return Some(&ms[i].1);
        }
        i += 1;
    }
    None
}

/// The value of the first member named `a`, or else of the first named `b`.
pub fn get_either<'a>(ms: &'a Vec<(String, Json)>, a: &str, b: &str) -> (r: Option<&'a Json>)
    ensures
        found(r, either(member(ms@, a@), member(ms@, b@))),
{
    match get_member(ms, a) {
        Some(v) => Some(v),
        None => get_member(ms, b),
    }
}

/// The string a looked-up value holds, if it is a string.
pub fn str_of<'a>(v: Option<&'a Json>) -> (r: Option<&'a String>)
    ensures
        match r {
            Some(s) => v matches Some(j) && *j == Json::Str(*s),
            None => !(v matches Some(Json::Str(_))),
        },
{
    match v {
        Some(Json::Str(s)) => Some(s),
        _ => None,
    }
}

// ---------------------------------------------------------------------------
// Recovering an object from surrounding prose
// ---------------------------------------------------------------------------

/// The index of the first `c` in `s` at or after `i`.
pub open spec fn index_of_from(s: Seq<char>, c: char, i: int) -> Option<int>
    decreases s.len() - i,
{
    if i < 0 || i >= s.len() {
        None
    } else if s[i] == c {
        Some(i)
    } else {
        index_of_from(s, c, i + 1)
    }
}

/// Scanning `s` from `i` at brace depth `depth` (inside a string literal when
/// `in_str`, just after a backslash there when `escaped`): the index of the
/// brace that closes the outermost object. Braces inside string literals do
/// not count.
pub open spec fn object_end(s: Seq<char>, i: int, depth: int, in_str: bool, escaped: bool) -> Option<int>
    decreases s.len() - i,
{
    if i < 0 || i >= s.len() {
        None
    } else if in_str {
        if escaped {
            object_end(s, i + 1, depth, true, false)
        } else if s[i] == '\\' {
            object_end(s, i + 1, depth, true, true)
        } else if s[i] == '"' {
            object_end(s, i + 1, depth, false, false)
        } else {
            object_end(s, i + 1, depth, true, false)
        }
    } else if s[i] == '"' {
        object_end(s, i + 1, depth, true, false)
    } else if s[i] == '{' {
        object_end(s, i + 1, depth + 1, false, false)
    } else if s[i] == '}' {
        if depth <= 1 {
            Some(i)
        } else {
            object_end(s, i + 1, depth - 1, false, false)
        }
    } else {
        object_end(s, i + 1, depth, false, false)
    }
}

/// The object a model's reply carries: the balanced `{...}` that starts at
/// the reply's first `{`, when it parses as a JSON object.
pub open spec fn lenient_object(raw: Seq<char>) -> Option<Json> {
    match index_of_from(raw, '{', 0) {
        None => None,
        Some(p) => match object_end(raw, p, 0, false, false) {
            None => None,
            Some(e) => match json_text_value(raw.subrange(p, e + 1)) {
                Some(Json::Object(ms)) => Some(Json::Object(ms)),
                _ => None,
            },
        },
    }
}

/// The index of the first `c` in `s`, if any.
fn find_char(s: &Vec<char>, c: char) -> (r: Option<usize>)
    ensures
        match r {
            Some(i) => index_of_from(s@, c, 0) == Some(i as int),
            None => index_of_from(s@, c, 0) is None,
        },
{
    let mut i: usize = 0;
    while i < s.len()
        invariant
            i <= s.len(),
            index_of_from(s@, c, 0) == index_of_from(s@, c, i as int),
        decreases s.len() - i,
    {
        if s[i] == c {
            return Some(i);
        }
        i += 1;
    }
    None
}

/// The index of the brace closing the object that opens at `p`.
fn find_object_end(s: &Vec<char>, p: usize) -> (r: Option<usize>)
    requires
        p < s.len(),
    ensures
        match r {
            Some(e) => object_end(s@, p as int, 0, false, false) == Some(e as int) && p <= e < s.len(),
            None => object_end(s@, p as int, 0, false, false) is None,
        },
{
    let mut i: usize = p;
    let mut depth: usize = 0;
    let mut in_str = false;
    let mut escaped = false;
    while i < s.len()
        invariant
            p <= i <= s.len(),
            depth <= i - p,
            !in_str ==> !escaped,
            object_end(s@, p as int, 0, false, false) == object_end(s@, i as int, depth as int, in_str, escaped),
        decreases s.len() - i,
    {
        let c = s[i];
        let ghost (d0, q0, e0) = (depth as int, in_str, escaped);
        assert(object_end(s@, i as int, d0, q0, e0) == if q0 {
            if e0 {
                object_end(s@, i + 1, d0, true, false)
            } else if c == '\\' {
                object_end(s@, i + 1, d0, true, true)
            } else if c == '"' {
                object_end(s@, i + 1, d0, false, false)
            } else {
                object_end(s@, i + 1, d0, true, false)
            }
        } else if c == '"' {
            object_end(s@, i + 1, d0, true, false)
        } else if c == '{' {
            object_end(s@, i + 1, d0 + 1, false, false)
        } else if c == '}' {
            if d0 <= 1 {
                Some(i as int)
            } else {
                object_end(s@, i + 1, d0 - 1, false, false)
            }
        } else {
            object_end(s@, i + 1, d0, false, false)
        });
        if in_str {
            if escaped {
                escaped = false;
            } else if c == '\\' {
                escaped = true;
            } else if c == '"' {
                in_str = false;
            }
        } else if c == '"' {
            in_str = true;
        } else if c == '{' {
            depth += 1;
        } else if c == '}' {
            if depth <= 1 {
                return Some(i);
            }
            depth -= 1;
        }
        i += 1;
    }
    None
}

/// The members of the object a model's reply carries, recovered leniently:
/// the balanced `{...}` starting at the first `{` (braces inside string
/// literals are skipped), parsed as JSON, when it is an object.
pub fn lenient_members(raw: &str) -> (r: Option<Vec<(String, Json)>>)
    ensures
        match r {
            Some(ms) => lenient_object(raw@) == Some(Json::Object(ms)),
            None => lenient_object(raw@) is None,
        },
{
    let s = chars_of(raw);
    let p = match find_char(&s, '{') {
        Some(p) => p,
        None => return None,
    };
    assert(p < s@.len()) by {
        lemma_index_of_from_bounds(s@, '{', 0);
    }
    let e = match find_object_end(&s, p) {
        Some(e) => e,
        None => return None,
    };
    let candidate = string_of(&slice_chars(&s, p, e + 1));
    match parse_json(candidate.as_str()) {
        Some(Json::Object(ms)) => Some(ms),
        _ => None,
    }
}

/// A found index lies in the searched range.
proof fn lemma_index_of_from_bounds(s: Seq<char>, c: char, i: int)
    ensures
        index_of_from(s, c, i) matches Some(k) ==> i <= k < s.len() && s[k] == c,
    decreases s.len() - i,
{
    if 0 <= i < s.len() && s[i] != c {
        lemma_index_of_from_bounds(s, c, i + 1);
    }
}

// ---------------------------------------------------------------------------
// Writing JSON strings
// ---------------------------------------------------------------------------

/// The lowercase hexadecimal digit for `n < 16`.
pub open spec fn hex_char(n: int) -> char {
    if n < 10 {
        ('0' as int + n) as char
    } else {
        ('a' as int + n - 10) as char
    }
}

/// How one character is written inside a JSON string: quote, backslash and
/// the named control characters as two-character escapes, other control
/// characters as `\u00XX`, everything else as itself.
pub open spec fn json_escape(c: char) -> Seq<char> {
    if c == '"' {
        seq!['\\', '"']
    } else if c == '\\' {
        seq!['\\', '\\']
    } else if c == '\n' {
        seq!['\\', 'n']
    } else if c == '\r' {
        seq!['\\', 'r']
    } else if c == '\t' {
        seq!['\\', 't']
    } else if c == '\x08' {
        seq!['\\', 'b']
    } else if c == '\x0C' {
        seq!['\\', 'f']
    } else if (c as u32) < 0x20 {
        seq!['\\', 'u', '0', '0', hex_char((c as u32) as int / 16), hex_char((c as u32) as int % 16)]
    } else {
        seq![c]
    }
}

/// The characters of `s`, each escaped for a JSON string.
pub open spec fn json_escaped(s: Seq<char>) -> Seq<char>
    decreases s.len(),
{
    if s.len() == 0 {
        seq![]
    } else {
        json_escaped(s.drop_last()) + json_escape(s.last())
    }
}

/// `s` as a JSON string literal.
pub open spec fn json_quoted(s: Seq<char>) -> Seq<char> {
    seq!['"'] + json_escaped(s) + seq!['"']
}

/// The lowercase hexadecimal digit for `n < 16`.
fn hex_digit(n: u32) -> (r: char)
    requires
        n < 16,
    ensures
        r == hex_char(n as int),
{
    if n < 10 {
        ((48 + n) as u8) as char
    } else {
        ((87 + n) as u8) as char
    }
}

/// Append `s` as a JSON string literal to `out`.
pub fn push_json_quoted(out: &mut Vec<char>, s: &Vec<char>)
    ensures
        final(out)@ == old(out)@ + json_quoted(s@),
{
    let ghost start = out@;
    out.push('"');
    let mut i: usize = 0;
    while i < s.len()
        invariant
            i <= s.len(),
            out@ == start + seq!['"'] + json_escaped(s@.take(i as int)),
        decreases s.len() - i,
    {
        let c = s[i];
        assert(s@.take(i as int + 1).drop_last() == s@.take(i as int));
        assert(s@.take(i as int + 1).last() == c);
        let ghost before = out@;
        if c == '"' {
            out.push('\\');
            out.push('"');
        } else if c == '\\' {
            out.push('\\');
            out.push('\\');
        } else if c == '\n' {
            out.push('\\');
            out.push('n');
        } else if c == '\r' {
            out.push('\\');
            out.push('r');
        } else if c == '\t' {
            out.push('\\');
            out.push('t');
        } else if c == '\x08' {
            out.push('\\');
            out.push('b');
        } else if c == '\x0C' {
            out.push('\\');
            out.push('f');
        } else if (c as u32) < 0x20 {
            out.push('\\');
            out.push('u');
            out.push('0');
            out.push('0');
            out.push(hex_digit((c as u32) / 16));
            out.push(hex_digit((c as u32) % 16));
        } else {
            out.push(c);
        }
        assert(out@ == before + json_escape(c));
        i += 1;
    }
    assert(s@.take(s@.len() as int) == s@);
    out.push('"');
}

// ---------------------------------------------------------------------------
// Writing JSON values
// ---------------------------------------------------------------------------

/// A value written as compact JSON (`serde_json::to_string`): numbers as
/// their text, strings quoted and escaped, arrays and objects without
/// whitespace, object members in order.
pub open spec fn json_text(j: Json) -> Seq<char>
    decreases j, 0int,
{
    match j {
        Json::Null => "null"@,
        Json::Bool(b) => if b {
            "true"@
        } else {
            "false"@
        },
        Json::Number(t) => t@,
        Json::Str(s) => json_quoted(s@),
        Json::Array(items) => {
            proof {
                assert(decreases_to!(j => items));
            }
            seq!['['] + items_text(items@) + seq![']']
        },
        Json::Object(ms) => {
            proof {
                assert(decreases_to!(j => ms));
            }
            seq!['{'] + members_text(ms@) + seq!['}']
        },
    }
}

/// Array elements written as JSON, separated by commas.
pub open spec fn items_text(items: Seq<Json>) -> Seq<char>
    decreases items, 1int,
{
    if items.len() == 0 {
        seq![]
    } else if items.len() == 1 {
        json_text(items[0])
    } else {
        items_text(items.drop_last()) + seq![','] + json_text(items.last())
    }
}

/// Object members written as JSON, separated by commas.
pub open spec fn members_text(ms: Seq<(String, Json)>) -> Seq<char>
    decreases ms, 1int,
{
    if ms.len() == 0 {
        seq![]
    } else if ms.len() == 1 {
        json_quoted(ms[0].0@) + seq![':'] + json_text(ms[0].1)
    } else {
        members_text(ms.drop_last()) + seq![','] + json_quoted(ms.last().0@) + seq![':'] + json_text(
            ms.last().1,
        )
    }
}

/// Append `j` written as compact JSON to `out`.
pub fn write_json(j: &Json, out: &mut Vec<char>)
    ensures
        final(out)@ == old(out)@ + json_text(*j),
    decreases j,
{
    match j {
        Json::Null => push_text(out, "null"),
        Json::Bool(b) => if *b {
            push_text(out, "true")
        } else {
            push_text(out, "false")
        },
        Json::Number(t) => push_text(out, t.as_str()),
        Json::Str(s) => push_json_quoted(out, &chars_of(s.as_str())),
        Json::Array(items) => {
            let ghost start = out@;
            out.push('[');
            let mut i: usize = 0;
            while i < items.len()
                invariant
                    i <= items.len(),
                    *j == Json::Array(*items),
                    out@ == start + seq!['['] + items_text(items@.take(i as int)),
                decreases items.len() - i,
            {
                assert(items@.take(i as int + 1).drop_last() == items@.take(i as int));
                assert(items@.take(i as int + 1).last() == items@[i as int]);
                if i > 0 {
                    out.push(',');
                } else {
                    assert(items@.take(1)[0] == items@[0]);
                }
                proof {
                    assert(decreases_to!(*j => (*j)->Array_0));
                    assert((*j)->Array_0 == *items);
                    assert(decreases_to!(*items => items@));
                    assert(decreases_to!(items@ => items@[i as int]));
                }
                write_json(&items[i], out);
                i += 1;
            }
            assert(items@.take(items@.len() as int) == items@);
            out.push(']');
        },
        Json::Object(ms) => {
            let ghost start = out@;
            out.push('{');
            let mut i: usize = 0;
            while i < ms.len()
                invariant
                    i <= ms.len(),
                    *j == Json::Object(*ms),
                    out@ == start + seq!['{'] + members_text(ms@.take(i as int)),
                decreases ms.len() - i,
            {
                assert(ms@.take(i as int + 1).drop_last() == ms@.take(i as int));
                assert(ms@.take(i as int + 1).last() == ms@[i as int]);
                if i > 0 {
                    out.push(',');
                } else {
                    assert(ms@.take(1)[0] == ms@[0]);
                }
                push_json_quoted(out, &chars_of(ms[i].0.as_str()));
                out.push(':');
                proof {
                    assert(decreases_to!(*j => (*j)->Object_0));
                    assert((*j)->Object_0 == *ms);
                    assert(decreases_to!(*ms => ms@));
                    assert(decreases_to!(ms@ => ms@[i as int]));
                    assert(decreases_to!(ms@[i as int] => ms@[i as int].1));
                }
                write_json(&ms[i].1, out);
                i += 1;
            }
            assert(ms@.take(ms@.len() as int) == ms@);
            out.push('}');
        },
    }
}

/// Append the characters of `s` to `out`.
fn push_text(out: &mut Vec<char>, s: &str)
    ensures
        final(out)@ == old(out)@ + s@,
{
    crate::text::push_all(out, &chars_of(s));
}

/// A value written as compact JSON.
pub fn to_json_string(j: &Json) -> (r: String)
    ensures
        r@ == json_text(*j),
{
    let mut out: Vec<char> = Vec::new();
    write_json(j, &mut out);
    assert(out@ == Seq::<char>::empty() + json_text(*j));
    string_of(&out)
}


/// Whether two values are the same JSON: the same variant with the same
/// contents, element by element.
pub open spec fn same_json(a: Json, b: Json) -> bool
    decreases a,
{
    match a {
        Json::Null => b is Null,
        Json::Bool(x) => b == Json::Bool(x),
        Json::Number(x) => b matches Json::Number(y) && x@ == y@,
        Json::Str(x) => b matches Json::Str(y) && x@ == y@,
        Json::Array(xs) => b matches Json::Array(ys) && xs@.len() == ys@.len() && forall|i: int|
            0 <= i < xs@.len() ==> {
                proof {
                    assert(decreases_to!(a => xs));
                }
                same_json(#[trigger] xs@[i], ys@[i])
            },
        Json::Object(xs) => b matches Json::Object(ys) && xs@.len() == ys@.len() && forall|i: int|
            0 <= i < xs@.len() ==> {
                proof {
                    assert(decreases_to!(a => xs));
                }
                (#[trigger] xs@[i]).0@ == ys@[i].0@ && same_json(xs@[i].1, ys@[i].1)
            },
    }
}

/// A message prefix followed by a value written as compact JSON.
pub fn with_json(prefix: &str, j: &Json) -> (r: String)
    ensures
        r@ == prefix@ + json_text(*j),
{
    let mut out: Vec<char> = chars_of(prefix);
    write_json(j, &mut out);
    string_of(&out)
}

/// A copy of a JSON value.
pub fn json_clone(j: &Json) -> (r: Json)
    ensures
        same_json(*j, r),
    decreases j,
{
    match j {
        Json::Null => Json::Null,
        Json::Bool(b) => Json::Bool(*b),
        Json::Number(t) => Json::Number(t.clone()),
        Json::Str(s) => Json::Str(s.clone()),
        Json::Array(items) => {
            let mut out: Vec<Json> = Vec::new();
            let mut i: usize = 0;
            while i < items.len()
                invariant
                    i <= items.len(),
                    *j == Json::Array(*items),
                    out@.len() == i,
                    forall|k: int| 0 <= k < i ==> same_json(#[trigger] items@[k], out@[k]),
                decreases items.len() - i,
            {
                proof {
                    assert(decreases_to!(*j => (*j)->Array_0));
                    assert((*j)->Array_0 == *items);
                    assert(decreases_to!(*items => items@));
                    assert(decreases_to!(items@ => items@[i as int]));
                }
                let c = json_clone(&items[i]);
                out.push(c);
                i += 1;
            }
            let r = Json::Array(out);
            assert(same_json(*j, r));
            r
        },
        Json::Object(ms) => {
            let mut out: Vec<(String, Json)> = Vec::new();
            let mut i: usize = 0;
            while i < ms.len()
                invariant
                    i <= ms.len(),
                    *j == Json::Object(*ms),
                    out@.len() == i,
                    forall|k: int| 0 <= k < i ==> (#[trigger] ms@[k]).0@ == out@[k].0@ && same_json(ms@[k].1, out@[k].1),
                decreases ms.len() - i,
            {
                proof {
                    assert(decreases_to!(*j => (*j)->Object_0));
                    assert((*j)->Object_0 == *ms);
                    assert(decreases_to!(*ms => ms@));
                    assert(decreases_to!(ms@ => ms@[i as int]));
                    assert(decreases_to!(ms@[i as int] => ms@[i as int].1));
                }
                let c = json_clone(&ms[i].1);
                out.push((ms[i].0.clone(), c));
                i += 1;
            }
            let r = Json::Object(out);
            assert(same_json(*j, r));
            r
        },
    }
}

} // verus!
