//! The text handling of the benchmark guest plugin: pulling a string field
//! out of an item's JSON without a JSON parser, and escaping a string for a
//! JSON response.

use vstd::prelude::*;
use crate::text::{chars_of, string_of, push_all, slice_chars};

verus! {

/// The index of the first occurrence of `p` in `s` at or after `i`.
pub open spec fn find_from(s: Seq<char>, p: Seq<char>, i: int) -> Option<int>
    decreases s.len() + 1 - i,
{
    if i < 0 || i + p.len() > s.len() {
        None
    } else if s.subrange(i, i + p.len()) == p {
        Some(i)
    } else {
        find_from(s, p, i + 1)
    }
}

/// The index of the first occurrence of `p` in `s` (`str::find`).
pub open spec fn find(s: Seq<char>, p: Seq<char>) -> Option<int> {
    find_from(s, p, 0)
}

/// The text of the string that starts right after a `"` at the front of
/// `s`... up to the next `"`: the characters of `s` before its first `"`.
pub open spec fn before_quote(s: Seq<char>) -> Option<Seq<char>> {
    match find(s, seq!['"']) {
        Some(e) => Some(s.take(e)),
        None => None,
    }
}

/// The string value of `key` in a flat JSON text: after the first
/// `"key":`, either a quoted string (up to the next quote), or an object in
/// which the text after its first `"value":"` up to the next quote is taken.
/// No escapes are interpreted.
pub open spec fn extracted(json: Seq<char>, key: Seq<char>) -> Option<Seq<char>> {
    let pattern = seq!['"'] + key + seq!['"', ':'];
    match find(json, pattern) {
        None => None,
        Some(start) => {
            let after = json.skip(start + pattern.len());
            if after.len() > 0 && after[0] == '{' {
                let vp = seq!['"', 'v', 'a', 'l', 'u', 'e', '"', ':', '"'];
                match find(after, vp) {
                    Some(v) => before_quote(after.skip(v + vp.len())),
                    None => None,
                }
            } else if after.len() > 0 && after[0] == '"' {
                before_quote(after.skip(1))
            } else {
                None
            }
        },
    }
}

/// The index of the first occurrence of `p` in `s`.
fn find_chars(s: &Vec<char>, p: &Vec<char>) -> (r: Option<usize>)
    ensures
        match r {
            Some(i) => find(s@, p@) == Some(i as int) && i + p@.len() <= s@.len(),
            None => find(s@, p@) is None,
        },
        r.is_some() ==> r.unwrap() + p.len() <= s.len(),
{
    if p.len() > s.len() {
        return None;
    }
    let mut i: usize = 0;
    while i <= s.len() - p.len()
        invariant
            p.len() <= s.len(),
            i <= s.len() - p.len() + 1,
            find(s@, p@) == find_from(s@, p@, i as int),
        decreases s.len() - i,
    {
        let mut j: usize = 0;
        let mut same = true;
        while j < p.len() && same
            invariant
                j <= p.len(),
                i + p.len() <= s.len(),
                same <==> (forall|k: int| 0 <= k < j ==> s@[i + k] == p@[k]),
            decreases p.len() - j,
        {
            if s[i + j] != p[j] {
                same = false;
            }
            j += 1;
        }
        if same {
            assert(s@.subrange(i as int, i + p@.len()) =~= p@);
            return Some(i);
        } else {
            proof {
                let k = choose|k: int| 0 <= k < j && s@[i as int + k] != p@[k];
                assert(s@.subrange(i as int, i + p@.len())[k] != p@[k]);
            }
        }
        i += 1;
    }
    None
}

/// The characters before the first `"` of `s`, if it has one.
fn take_to_quote(s: &Vec<char>) -> (r: Option<String>)
    ensures
        match r {
            Some(t) => before_quote(s@) == Some(t@),
            None => before_quote(s@) is None,
        },
{
    let q = chars_of("\"");
    proof {
        reveal_strlit("\"");
        assert(q@ == seq!['"']);
    }
    match find_chars(s, &q) {
        Some(e) => Some(string_of(&slice_chars(s, 0, e))),
        None => None,
    }
}

/// Pull a string field out of a flat JSON item without a parser: the
/// quoted value after `"key":`, or the `"value"` string of an object there.
pub fn extract_json_string(json: &str, key: &str) -> (r: Option<String>)
    ensures
        match r {
            Some(v) => extracted(json@, key@) == Some(v@),
            None => extracted(json@, key@) is None,
        },
{
    let s = chars_of(json);
    let mut pattern = chars_of("\"");
    push_all(&mut pattern, &chars_of(key));
    push_all(&mut pattern, &chars_of("\":"));
    proof {
        reveal_strlit("\"");
        reveal_strlit("\":");
        assert(pattern@ == seq!['"'] + key@ + seq!['"', ':']);
    }
    let found = find_chars(&s, &pattern);
    if found.is_none() {
        return None;
    }
    let start = found.unwrap();
    assert(start + pattern@.len() <= s@.len());
    let after = slice_chars(&s, start + pattern.len(), s.len());
    assert(after@ == s@.skip(start + pattern@.len()));
    if after.len() > 0 && after[0] == '{' {
        let vp = chars_of("\"value\":\"");
        proof {
            reveal_strlit("\"value\":\"");
            assert(vp@ == seq!['"', 'v', 'a', 'l', 'u', 'e', '"', ':', '"']);
        }
        let vfound = find_chars(&after, &vp);
        if vfound.is_none() {
            return None;
        }
        let v = vfound.unwrap();
        let rest = slice_chars(&after, v + vp.len(), after.len());
        assert(rest@ == after@.skip(v + vp@.len()));
        return take_to_quote(&rest);
    }
    if after.len() > 0 && after[0] == '"' {
        let rest = slice_chars(&after, 1, after.len());
        assert(rest@ == after@.skip(1));
        return take_to_quote(&rest);
    }
    None
}

/// How the guest escapes one character for a JSON string: quote,
/// backslash, newline, carriage return and tab get a backslash escape;
/// everything else is itself.
pub open spec fn guest_escape(c: char) -> Seq<char> {
    if c == '"' {
        seq!['\\', '"']
    } else if c == '\\' {
        seq!['\\', '\\']
    } else if c == '\n' {
        seq!['\\', 'n']
    } else if c == '\r' {
        seq!['\\', 'r']
    } else if c == '\t' {
        seq!['\\', 't']
    } else {
        seq![c]
    }
}

/// `s` with every character escaped.
pub open spec fn guest_escaped(s: Seq<char>) -> Seq<char>
    decreases s.len(),
{
    if s.len() == 0 {
        seq![]
    } else {
        guest_escaped(s.drop_last()) + guest_escape(s.last())
    }
}

/// Escape a string for a JSON string literal (quotes, backslashes, and the
/// newline, carriage-return and tab controls).
pub fn escape_json(s: &str) -> (r: String)
    ensures
        r@ == guest_escaped(s@),
{
    let c = chars_of(s);
    let mut out: Vec<char> = Vec::new();
    let mut i: usize = 0;
    while i < c.len()
        invariant
            i <= c.len(),
            out@ == guest_escaped(c@.take(i as int)),
        decreases c.len() - i,
    {
        assert(c@.take(i as int + 1).drop_last() == c@.take(i as int));
        assert(c@.take(i as int + 1).last() == c@[i as int]);
        let ch = c[i];
        if ch == '"' {
            out.push('\\');
            out.push('"');
        } else if ch == '\\' {
            out.push('\\');
            out.push('\\');
        } else if ch == '\n' {
            out.push('\\');
            out.push('n');
        } else if ch == '\r' {
            out.push('\\');
            out.push('r');
        } else if ch == '\t' {
            out.push('\\');
            out.push('t');
        } else {
            out.push(ch);
        }
        i += 1;
    }
    assert(c@.take(c@.len() as int) == c@);
    string_of(&out)
}


/// At most the first `n` characters of `s`.
pub open spec fn first_chars(s: Seq<char>, n: nat) -> Seq<char> {
    if s.len() <= n {
        s
    } else {
        s.take(n as int)
    }
}

/// The value the guest writes back into `field_computed`.
pub open spec fn computed_text(title: Seq<char>) -> Seq<char> {
    "Processed: "@ + title
}

/// The render element answered for an item read through handles: a
/// container holding a level-1 heading with the title and a markup element
/// with the first hundred characters of the body, both escaped.
pub open spec fn view_text(title: Seq<char>, body: Seq<char>) -> Seq<char> {
    "{\"type\":\"container\",\"children\":[{\"type\":\"heading\",\"level\":1,\"text\":\""@
        + guest_escaped(title) + "\"},{\"type\":\"markup\",\"value\":\""@
        + guest_escaped(first_chars(body, 100)) + "\"}]}"@
}

/// The render element answered for an item passed as JSON: the same two
/// children as `view_text`, and a third holding the computed field, with
/// missing fields read as empty.
pub open spec fn view_full_text(json: Seq<char>) -> Seq<char> {
    let title = match extracted(json, "title"@) {
        Some(t) => t,
        None => seq![],
    };
    let body = match extracted(json, "field_body"@) {
        Some(b) => b,
        None => seq![],
    };
    "{\"type\":\"container\",\"children\":[{\"type\":\"heading\",\"level\":1,\"text\":\""@
        + guest_escaped(title) + "\"},{\"type\":\"markup\",\"value\":\""@
        + guest_escaped(first_chars(body, 100)) + "\"},{\"field_computed\":\"Processed: "@
        + guest_escaped(title) + "\"}]}"@
}

/// The value written back into `field_computed` for an item's title.
pub fn computed_title(title: &str) -> (r: String)
    ensures
        r@ == computed_text(title@),
{
    let mut out = chars_of("Processed: ");
    push_all(&mut out, &chars_of(title));
    string_of(&out)
}

/// At most the first `n` characters of `s`.
fn take_chars(s: &str, n: usize) -> (r: String)
    ensures
        r@ == first_chars(s@, n as nat),
{
    let c = chars_of(s);
    if c.len() <= n {
        string_of(&c)
    } else {
        string_of(&slice_chars(&c, 0, n))
    }
}

/// The render element answered for an item read through handles.
pub fn view_response(title: &str, body: &str) -> (r: String)
    ensures
        r@ == view_text(title@, body@),
{
    let head = take_chars(body, 100);
    let mut out = chars_of("{\"type\":\"container\",\"children\":[{\"type\":\"heading\",\"level\":1,\"text\":\"");
    push_all(&mut out, &chars_of(escape_json(title).as_str()));
    push_all(&mut out, &chars_of("\"},{\"type\":\"markup\",\"value\":\""));
    push_all(&mut out, &chars_of(escape_json(head.as_str()).as_str()));
    push_all(&mut out, &chars_of("\"}]}"));
    string_of(&out)
}

/// The render element answered for an item passed as JSON.
pub fn view_full_response(json: &str) -> (r: String)
    ensures
        r@ == view_full_text(json@),
{
    let title = match extract_json_string(json, "title") {
        Some(t) => t,
        None => String::new(),
    };
    let body = match extract_json_string(json, "field_body") {
        Some(b) => b,
        None => String::new(),
    };
    let head = take_chars(body.as_str(), 100);
    let t = escape_json(title.as_str());
    let mut out = chars_of("{\"type\":\"container\",\"children\":[{\"type\":\"heading\",\"level\":1,\"text\":\"");
    push_all(&mut out, &chars_of(t.as_str()));
    push_all(&mut out, &chars_of("\"},{\"type\":\"markup\",\"value\":\""));
    push_all(&mut out, &chars_of(escape_json(head.as_str()).as_str()));
    push_all(&mut out, &chars_of("\"},{\"field_computed\":\"Processed: "));
    push_all(&mut out, &chars_of(t.as_str()));
    push_all(&mut out, &chars_of("\"}]}"));
    string_of(&out)
}

} // verus!
