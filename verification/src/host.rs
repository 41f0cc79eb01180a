//! The host state that stands in for the kernel while plugins are
//! benchmarked: canned items, permissions, variables and request context,
//! and the log the plugins write.

use vstd::prelude::*;
use crate::json::{Json, member, json_str, get_member, to_json_string, json_text, found};
use crate::num::{i64_to_padded, padded_int, parse_i64, parse_i64_spec, lemma_padded_reads_back};
use crate::text::{chars_of, string_of, push_all, str_eq};

verus! {

// ---------------------------------------------------------------------------
// Keyed entries
// ---------------------------------------------------------------------------

/// The index of the first entry keyed `k`, searching from entry `i` on.
pub open spec fn key_index_from<V>(es: Seq<(String, V)>, k: Seq<char>, i: int) -> Option<int>
    decreases es.len() - i,
{
    if i < 0 || i >= es.len() {
        None
    } else if es[i].0@ == k {
        Some(i)
    } else {
        key_index_from(es, k, i + 1)
    }
}

/// The index of the first entry keyed `k`.
pub open spec fn key_index<V>(es: Seq<(String, V)>, k: Seq<char>) -> Option<int> {
    key_index_from(es, k, 0)
}

/// The index of the first item at handle `h`, searching from entry `i` on.
pub open spec fn handle_index_from(es: Seq<(i32, Json)>, h: i32, i: int) -> Option<int>
    decreases es.len() - i,
{
    if i < 0 || i >= es.len() {
        None
    } else if es[i].0 == h {
        Some(i)
    } else {
        handle_index_from(es, h, i + 1)
    }
}

/// The index of the first item at handle `h`.
pub open spec fn handle_index(es: Seq<(i32, Json)>, h: i32) -> Option<int> {
    handle_index_from(es, h, 0)
}

/// Keyed entries as a map: each key to the value of its first entry.
pub open spec fn entry_map<V>(es: Seq<(String, V)>) -> Map<Seq<char>, V> {
    Map::new(|k: Seq<char>| key_index(es, k) is Some, |k: Seq<char>| es[key_index(es, k)->0].1)
}

/// Text entries as a map: each key to the text of its first entry.
pub open spec fn text_map(es: Seq<(String, String)>) -> Map<Seq<char>, Seq<char>> {
    Map::new(|k: Seq<char>| entry_map(es).dom().contains(k), |k: Seq<char>| entry_map(es)[k]@)
}

/// Items as a map: each handle to its first item.
pub open spec fn item_map(es: Seq<(i32, Json)>) -> Map<i32, Json> {
    Map::new(|h: i32| handle_index(es, h) is Some, |h: i32| es[handle_index(es, h)->0].1)
}

/// What a map holds at `k`, if anything.
pub open spec fn entry<K, V>(m: Map<K, V>, k: K) -> Option<V> {
    if m.dom().contains(k) {
        Some(m[k])
    } else {
        None
    }
}

/// The view of an optional string.
pub open spec fn opt_text(r: Option<String>) -> Option<Seq<char>> {
    match r {
        Some(s) => Some(s@),
        None => None,
    }
}

proof fn lemma_key_index_bounds<V>(es: Seq<(String, V)>, k: Seq<char>, i: int)
    ensures
        key_index_from(es, k, i) matches Some(x) ==> i <= x < es.len() && es[x].0@ == k,
    decreases es.len() - i,
{
    if 0 <= i < es.len() && es[i].0@ != k {
        lemma_key_index_bounds(es, k, i + 1);
    }
}

proof fn lemma_key_index_update<V>(es: Seq<(String, V)>, j: int, e: (String, V), k: Seq<char>, i: int)
    requires
        0 <= j < es.len(),
        e.0@ == es[j].0@,
    ensures
        key_index_from(es.update(j, e), k, i) == key_index_from(es, k, i),
    decreases es.len() - i,
{
    if 0 <= i < es.len() && es[i].0@ != k {
        lemma_key_index_update(es, j, e, k, i + 1);
    }
}

proof fn lemma_key_index_push<V>(es: Seq<(String, V)>, e: (String, V), k: Seq<char>, i: int)
    requires
        0 <= i <= es.len(),
    ensures
        key_index_from(es.push(e), k, i) == match key_index_from(es, k, i) {
            Some(x) => Some(x),
            None => if e.0@ == k {
                Some(es.len() as int)
            } else {
                None
            },
        },
    decreases es.len() - i,
{
    assert(i < es.len() ==> es.push(e)[i] == es[i]);
    assert(es.push(e)[es.len() as int] == e);
    assert(key_index_from(es.push(e), k, es.len() as int + 1) is None);
    if i < es.len() && es[i].0@ != k {
        lemma_key_index_push(es, e, k, i + 1);
    }
}

proof fn lemma_handle_index_bounds(es: Seq<(i32, Json)>, h: i32, i: int)
    ensures
        handle_index_from(es, h, i) matches Some(x) ==> i <= x < es.len() && es[x].0 == h,
    decreases es.len() - i,
{
    if 0 <= i < es.len() && es[i].0 != h {
        lemma_handle_index_bounds(es, h, i + 1);
    }
}

proof fn lemma_handle_index_update(es: Seq<(i32, Json)>, j: int, e: (i32, Json), h: i32, i: int)
    requires
        0 <= j < es.len(),
        e.0 == es[j].0,
    ensures
        handle_index_from(es.update(j, e), h, i) == handle_index_from(es, h, i),
    decreases es.len() - i,
{
    if 0 <= i < es.len() && es[i].0 != h {
        lemma_handle_index_update(es, j, e, h, i + 1);
    }
}

proof fn lemma_handle_index_push(es: Seq<(i32, Json)>, e: (i32, Json), h: i32, i: int)
    requires
        0 <= i <= es.len(),
    ensures
        handle_index_from(es.push(e), h, i) == match handle_index_from(es, h, i) {
            Some(x) => Some(x),
            None => if e.0 == h {
                Some(es.len() as int)
            } else {
                None
            },
        },
    decreases es.len() - i,
{
    assert(i < es.len() ==> es.push(e)[i] == es[i]);
    assert(es.push(e)[es.len() as int] == e);
    assert(handle_index_from(es.push(e), h, es.len() as int + 1) is None);
    if i < es.len() && es[i].0 != h {
        lemma_handle_index_push(es, e, h, i + 1);
    }
}

/// The index of the first entry keyed `k`.
fn find_key<V>(es: &Vec<(String, V)>, k: &str) -> (r: Option<usize>)
    ensures
        match r {
            Some(i) => key_index(es@, k@) == Some(i as int) && i < es.len(),
            None => key_index(es@, k@) is None,
        },
{
    let mut i: usize = 0;
    while i < es.len()
        invariant
            i <= es.len(),
            key_index(es@, k@) == key_index_from(es@, k@, i as int),
        decreases es.len() - i,
    {
        if str_eq(es[i].0.as_str(), k) {
            return Some(i);
        }
        i += 1;
    }
    None
}

/// The index of the first item at handle `h`.
fn find_handle(es: &Vec<(i32, Json)>, h: i32) -> (r: Option<usize>)
    ensures
        match r {
            Some(i) => handle_index(es@, h) == Some(i as int) && i < es.len(),
            None => handle_index(es@, h) is None,
        },
{
    let mut i: usize = 0;
    while i < es.len()
        invariant
            i <= es.len(),
            handle_index(es@, h) == handle_index_from(es@, h, i as int),
        decreases es.len() - i,
    {
        if es[i].0 == h {
            return Some(i);
        }
        i += 1;
    }
    None
}

/// Set the entry `k` to `v`: the first entry keyed `k` takes the new
/// value, or a new entry is added at the end.
fn put_entry<V>(es: &mut Vec<(String, V)>, k: &str, v: V)
    ensures
        entry_map(final(es)@) == entry_map(old(es)@).insert(k@, v),
{
    let ghost before = es@;
    let e = (k.to_owned(), v);
    let ghost eg = e;
    match find_key(es, k) {
        Some(j) => {
            proof {
                lemma_key_index_bounds(before, k@, 0);
            }
            es.set(j, e);
            proof {
                assert(es@ == before.update(j as int, eg));
                assert forall|key: Seq<char>| #[trigger] key_index(es@, key) == key_index(before, key) by {
                    lemma_key_index_update(before, j as int, eg, key, 0);
                }
                assert forall|key: Seq<char>| (#[trigger] key_index(before, key)) is Some implies key_index(before, key)->0
                    < before.len() && before[key_index(before, key)->0].0@ == key by {
                    lemma_key_index_bounds(before, key, 0);
                }
                assert forall|key: Seq<char>| key_index(es@, key) is Some implies #[trigger] entry_map(es@)[key]
                    == entry_map(before).insert(k@, eg.1)[key] by {
                    lemma_key_index_update(before, j as int, eg, key, 0);
                    lemma_key_index_bounds(before, key, 0);
                    let x = key_index(before, key)->0;
                    if key != k@ {
                        assert(x != j);
                        assert(es@[x] == before[x]);
                    } else {
                        assert(x == j);
                    }
                }
                assert(entry_map(es@) =~= entry_map(before).insert(k@, eg.1));
            }
        },
        None => {
            es.push(e);
            proof {
                assert(es@ == before.push(eg));
                assert forall|key: Seq<char>| #[trigger] key_index(es@, key) == match key_index(before, key) {
                    Some(x) => Some(x),
                    None => if eg.0@ == key {
                        Some(before.len() as int)
                    } else {
                        None
                    },
                } by {
                    lemma_key_index_push(before, eg, key, 0);
                }
                assert forall|key: Seq<char>| (#[trigger] key_index(before, key)) is Some implies key_index(before, key)->0
                    < before.len() && before[key_index(before, key)->0].0@ == key by {
                    lemma_key_index_bounds(before, key, 0);
                }
                assert forall|key: Seq<char>| key_index(es@, key) is Some implies #[trigger] entry_map(es@)[key]
                    == entry_map(before).insert(k@, eg.1)[key] by {
                    lemma_key_index_push(before, eg, key, 0);
                    lemma_key_index_bounds(before, key, 0);
                    if key != k@ {
                        let x = key_index(before, key)->0;
                        assert(es@[x] == before[x]);
                    }
                }
                assert(entry_map(es@) =~= entry_map(before).insert(k@, eg.1));
            }
        },
    }
}

/// Put the item `item` at handle `h`: the first item there is replaced, or
/// the item is added at the end.
fn put_item(es: &mut Vec<(i32, Json)>, h: i32, item: Json)
    ensures
        item_map(final(es)@) == item_map(old(es)@).insert(h, item),
{
    let ghost before = es@;
    let ghost eg = (h, item);
    match find_handle(es, h) {
        Some(j) => {
            proof {
                lemma_handle_index_bounds(before, h, 0);
            }
            es.set(j, (h, item));
            proof {
                assert(es@ == before.update(j as int, eg));
                assert forall|key: i32| #[trigger] handle_index(es@, key) == handle_index(before, key) by {
                    lemma_handle_index_update(before, j as int, eg, key, 0);
                }
                assert forall|key: i32| (#[trigger] handle_index(before, key)) is Some implies handle_index(before, key)->0
                    < before.len() && before[handle_index(before, key)->0].0 == key by {
                    lemma_handle_index_bounds(before, key, 0);
                }
                assert forall|key: i32| handle_index(es@, key) is Some implies #[trigger] item_map(es@)[key]
                    == item_map(before).insert(h, eg.1)[key] by {
                    lemma_handle_index_update(before, j as int, eg, key, 0);
                    lemma_handle_index_bounds(before, key, 0);
                    let x = handle_index(before, key)->0;
                    if key != h {
                        assert(x != j);
                        assert(es@[x] == before[x]);
                    } else {
                        assert(x == j);
                    }
                }
                assert(item_map(es@) =~= item_map(before).insert(h, eg.1));
            }
        },
        None => {
            es.push((h, item));
            proof {
                assert(es@ == before.push(eg));
                assert forall|key: i32| #[trigger] handle_index(es@, key) == match handle_index(before, key) {
                    Some(x) => Some(x),
                    None => if eg.0 == key {
                        Some(before.len() as int)
                    } else {
                        None
                    },
                } by {
                    lemma_handle_index_push(before, eg, key, 0);
                }
                assert forall|key: i32| (#[trigger] handle_index(before, key)) is Some implies handle_index(before, key)->0
                    < before.len() && before[handle_index(before, key)->0].0 == key by {
                    lemma_handle_index_bounds(before, key, 0);
                }
                assert forall|key: i32| handle_index(es@, key) is Some implies #[trigger] item_map(es@)[key]
                    == item_map(before).insert(h, eg.1)[key] by {
                    lemma_handle_index_push(before, eg, key, 0);
                    lemma_handle_index_bounds(before, key, 0);
                    if key != h {
                        let x = handle_index(before, key)->0;
                        assert(es@[x] == before[x]);
                    }
                }
                assert(item_map(es@) =~= item_map(before).insert(h, eg.1));
            }
        },
    }
}


/// Take the value out of entry `i`, leaving null in its place.
fn take_entry(es: &mut Vec<(String, Json)>, i: usize) -> (r: Json)
    requires
        i < old(es).len(),
        key_index(old(es)@, old(es)@[i as int].0@) == Some(i as int),
    ensures
        r == old(es)@[i as int].1,
        entry_map(final(es)@) == entry_map(old(es)@).insert(old(es)@[i as int].0@, Json::Null),
{
    let ghost before = es@;
    let (k, v) = es.remove(i);
    let ghost eg = (k, Json::Null);
    es.insert(i, (k, Json::Null));
    proof {
        assert(es@ =~= before.update(i as int, eg));
        assert forall|key: Seq<char>| key_index(es@, key) is Some implies #[trigger] entry_map(es@)[key]
            == entry_map(before).insert(eg.0@, Json::Null)[key] by {
            lemma_key_index_update(before, i as int, eg, key, 0);
            lemma_key_index_bounds(before, key, 0);
            let x = key_index(before, key)->0;
            if key != eg.0@ {
                assert(x != i);
                assert(es@[x] == before[x]);
            }
        }
        assert forall|key: Seq<char>| #[trigger] key_index(es@, key) == key_index(before, key) by {
            lemma_key_index_update(before, i as int, eg, key, 0);
        }
        assert(entry_map(es@) =~= entry_map(before).insert(eg.0@, Json::Null));
    }
    v
}

/// Take the item at index `i` out, leaving null in its place.
fn take_item(es: &mut Vec<(i32, Json)>, i: usize) -> (r: Json)
    requires
        i < old(es).len(),
        handle_index(old(es)@, old(es)@[i as int].0) == Some(i as int),
    ensures
        r == old(es)@[i as int].1,
        item_map(final(es)@) == item_map(old(es)@).insert(old(es)@[i as int].0, Json::Null),
{
    let ghost before = es@;
    let (h, v) = es.remove(i);
    let ghost eg = (h, Json::Null);
    es.insert(i, (h, Json::Null));
    proof {
        assert(es@ =~= before.update(i as int, eg));
        assert forall|key: i32| handle_index(es@, key) is Some implies #[trigger] item_map(es@)[key]
            == item_map(before).insert(h, Json::Null)[key] by {
            lemma_handle_index_update(before, i as int, eg, key, 0);
            lemma_handle_index_bounds(before, key, 0);
            let x = handle_index(before, key)->0;
            if key != h {
                assert(x != i);
                assert(es@[x] == before[x]);
            }
        }
        assert forall|key: i32| #[trigger] handle_index(es@, key) == handle_index(before, key) by {
            lemma_handle_index_update(before, i as int, eg, key, 0);
        }
        assert(item_map(es@) =~= item_map(before).insert(h, Json::Null));
    }
    v
}

// ---------------------------------------------------------------------------
// Reading items
// ---------------------------------------------------------------------------

/// The member `k` of a JSON value, when it is an object (`Value::get`).
pub open spec fn object_member(j: Json, k: Seq<char>) -> Option<Json> {
    match j {
        Json::Object(ms) => entry(entry_map(ms@), k),
        _ => None,
    }
}

/// The string member `key` of an optional item.
pub open spec fn item_member_text(item: Option<Json>, key: Seq<char>) -> Option<Seq<char>> {
    match item {
        Some(j) => json_str(object_member(j, key)),
        None => None,
    }
}

/// The field `name` of an optional item: its member in the item's
/// `fields` object.
pub open spec fn item_field(item: Option<Json>, name: Seq<char>) -> Option<Json> {
    match item {
        Some(j) => match object_member(j, "fields"@) {
            Some(f) => object_member(f, name),
            None => None,
        },
        None => None,
    }
}

/// The text a field holds: the string in its `value` member, or the field
/// itself when it is a string.
pub open spec fn field_string(f: Option<Json>) -> Option<Seq<char>> {
    match f {
        Some(Json::Str(s)) => Some(s@),
        Some(j) => json_str(object_member(j, "value"@)),
        None => None,
    }
}

/// The integer a field holds in its `value` member (`Value::as_i64`: an
/// integer number in the `i64` range).
pub open spec fn field_integer(f: Option<Json>) -> Option<i64> {
    match f {
        Some(j) => match object_member(j, "value"@) {
            Some(Json::Number(t)) => parse_i64_spec(t@),
            _ => None,
        },
        None => None,
    }
}

/// The member `k` of a JSON value, when it is an object.
fn get_object_member<'a>(j: &'a Json, k: &str) -> (r: Option<&'a Json>)
    ensures
        found(r, object_member(*j, k@)),
{
    match j {
        Json::Object(ms) => match find_key(ms, k) {
            Some(i) => Some(&ms[i].1),
            None => None,
        },
        _ => None,
    }
}


// ---------------------------------------------------------------------------
// Writing items
// ---------------------------------------------------------------------------

/// `new` is `old` with its member `key` set: an object holding what `old`
/// holds and, at `key`, whatever `new` holds there (a null `old` reads as
/// an empty object).
pub open spec fn set_member(old: Json, new: Json, key: Seq<char>) -> bool {
    &&& new matches Json::Object(ms2)
    &&& entry_map(ms2@).dom().contains(key)
    &&& match old {
        Json::Object(ms) => entry_map(ms2@) == entry_map(ms@).insert(key, entry_map(ms2@)[key]),
        Json::Null => entry_map(ms2@) == Map::<Seq<char>, Json>::empty().insert(key, entry_map(ms2@)[key]),
        _ => false,
    }
}

/// `j` is the object `{"value": <v as a string>}`.
pub open spec fn holds_text(j: Json, v: Seq<char>) -> bool {
    match j {
        Json::Object(vm) => vm@.len() == 1 && vm@[0].0@ == "value"@ && match vm@[0].1 {
            Json::Str(s) => s@ == v,
            _ => false,
        },
        _ => false,
    }
}

/// `j` is the object `{"value": <n as a number>}`.
pub open spec fn holds_int(j: Json, n: i64) -> bool {
    match j {
        Json::Object(vm) => vm@.len() == 1 && vm@[0].0@ == "value"@ && match vm@[0].1 {
            Json::Number(t) => t@ == padded_int(n as int, 0),
            _ => false,
        },
        _ => false,
    }
}

/// Whether the field `name` of item `h` can be written: the item's
/// `fields` member, when there is one, is an object or null.
pub open spec fn fields_writable(items: Map<i32, Json>, h: i32) -> bool {
    match entry(items, h) {
        Some(it) => match object_member(it, "fields"@) {
            Some(f) => f is Object || f is Null,
            None => true,
        },
        None => true,
    }
}

/// `new` is `old` with the field `name` of item `h` written, the new field
/// satisfying `holds`: when the item exists and has a `fields` member, that
/// member gets the field and nothing else changes; otherwise nothing
/// changes.
pub open spec fn field_written(
    old: Map<i32, Json>,
    new: Map<i32, Json>,
    h: i32,
    name: Seq<char>,
    holds: spec_fn(Json) -> bool,
) -> bool {
    match entry(old, h) {
        Some(it) => match object_member(it, "fields"@) {
            Some(f) => {
                let ni = new[h];
                let nf = object_member(ni, "fields"@)->0;
                &&& new == old.insert(h, ni)
                &&& set_member(it, ni, "fields"@)
                &&& set_member(f, nf, name)
                &&& holds(object_member(nf, name)->0)
            },
            None => new == old,
        },
        None => new == old,
    }
}

/// Whether item `h` can take a title: it is absent, an object or null.
pub open spec fn title_writable(items: Map<i32, Json>, h: i32) -> bool {
    match entry(items, h) {
        Some(it) => it is Object || it is Null,
        None => true,
    }
}

/// `new` is `old` with the title of item `h` set to `v`, when the item
/// exists; otherwise nothing changes.
pub open spec fn title_written(old: Map<i32, Json>, new: Map<i32, Json>, h: i32, v: Seq<char>) -> bool {
    match entry(old, h) {
        Some(it) => {
            let ni = new[h];
            &&& new == old.insert(h, ni)
            &&& set_member(it, ni, "title"@)
            &&& json_str(object_member(ni, "title"@)) == Some(v)
        },
        None => new == old,
    }
}

/// Set the member `k` of a value that is an object or null.
fn with_member(j: Json, k: &str, v: Json) -> (r: Json)
    requires
        j is Object || j is Null,
    ensures
        set_member(j, r, k@),
        object_member(r, k@) == Some(v),
{
    let ghost vg = v;
    match j {
        Json::Object(mut ms) => {
            let ghost before = ms@;
            put_entry(&mut ms, k, v);
            assert(entry_map(ms@).dom().contains(k@));
            assert(entry_map(ms@) =~= entry_map(before).insert(k@, entry_map(ms@)[k@]));
            Json::Object(ms)
        },
        _ => {
            let mut ms: Vec<(String, Json)> = Vec::new();
            assert(entry_map(ms@) =~= Map::<Seq<char>, Json>::empty());
            put_entry(&mut ms, k, v);
            assert(entry_map(ms@) =~= Map::<Seq<char>, Json>::empty().insert(k@, entry_map(ms@)[k@]));
            Json::Object(ms)
        },
    }
}

/// The object `{"value": v}`.
fn value_object(v: Json) -> (r: Json)
    ensures
        match r {
            Json::Object(vm) => vm@.len() == 1 && vm@[0].0@ == "value"@ && vm@[0].1 == v,
            _ => false,
        },
{
    let mut vm: Vec<(String, Json)> = Vec::new();
    vm.push(("value".to_owned(), v));
    proof {
        reveal_strlit("value");
    }
    Json::Object(vm)
}

/// Write the field `name` of item `h` as `field`, as `set_field_string`
/// and `set_field_int` do.
fn write_field(items: &mut Vec<(i32, Json)>, h: i32, name: &str, field: Json)
    requires
        fields_writable(item_map(old(items)@), h),
    ensures
        field_written(item_map(old(items)@), item_map(final(items)@), h, name@, |j: Json| j == field),
{
    let ghost before = item_map(items@);
    let ghost fg = field;
    match find_handle(items, h) {
        None => {},
        Some(i) => {
            proof {
                lemma_handle_index_bounds(items@, h, 0);
            }
            let it = take_item(items, i);
            assert(entry(before, h) == Some(it));
            let ghost itg = it;
            match it {
                Json::Object(mut ms) => {
                    match find_key(&ms, "fields") {
                        Some(fi) => {
                            proof {
                                lemma_key_index_bounds(ms@, "fields"@, 0);
                            }
                            let ghost ms0 = ms@;
                            let f = take_entry(&mut ms, fi);
                            assert(object_member(itg, "fields"@) == Some(f)) by {
                                assert(entry_map(ms0).dom().contains("fields"@));
                            }
                            let nf = with_member(f, name, field);
                            let ghost nfg = nf;
                            put_entry(&mut ms, "fields", nf);
                            let ghost ms1 = ms@;
                            assert(entry_map(ms1) =~= entry_map(ms0).insert("fields"@, nfg));
                            let ni = Json::Object(ms);
                            let ghost nig = ni;
                            assert(object_member(nig, "fields"@) == Some(nfg));
                            assert(set_member(itg, nig, "fields"@));
                            put_item(items, h, ni);
                            assert(item_map(items@) =~= before.insert(h, nig));
                            assert(item_map(items@)[h] == nig);
                        },
                        None => {
                            put_item(items, h, Json::Object(ms));
                            assert(item_map(items@) =~= before);
                        },
                    }
                },
                other => {
                    put_item(items, h, other);
                    assert(item_map(items@) =~= before);
                },
            }
        },
    }
}


// ---------------------------------------------------------------------------
// The host state
// ---------------------------------------------------------------------------

/// The host state of one benchmark request: canned items by handle, canned
/// permission answers, variables, the log the plugin writes, the request
/// context and the current user. Keyed lists are read by their first entry
/// for a key; the setters keep one entry per key.
pub struct StubHostState {
    /// Canned items, keyed by handle.
    pub items: Vec<(i32, Json)>,
    /// Canned permission answers.
    pub permissions: Vec<(String, bool)>,
    /// Canned variables.
    pub variables: Vec<(String, String)>,
    /// The log lines written so far.
    pub log_buffer: Vec<String>,
    /// The per-request key-value store.
    pub request_context: Vec<(String, String)>,
    /// The current user's identifier.
    pub current_user_id: String,
}

/// The views of the log lines.
pub open spec fn log_lines(log: Seq<String>) -> Seq<Seq<char>> {
    Seq::new(log.len(), |i: int| log[i]@)
}

/// A log line: `[level] plugin: message`.
pub open spec fn log_line(level: Seq<char>, plugin: Seq<char>, message: Seq<char>) -> Seq<char> {
    "["@ + level + "] "@ + plugin + ": "@ + message
}

impl StubHostState {
    /// The items by handle.
    pub open spec fn item_view(&self) -> Map<i32, Json> {
        item_map(self.items@)
    }

    /// The permission answers by name.
    pub open spec fn permission_view(&self) -> Map<Seq<char>, bool> {
        entry_map(self.permissions@)
    }

    /// The variables by name.
    pub open spec fn variable_view(&self) -> Map<Seq<char>, Seq<char>> {
        text_map(self.variables@)
    }

    /// The request context by key.
    pub open spec fn context_view(&self) -> Map<Seq<char>, Seq<char>> {
        text_map(self.request_context@)
    }

    /// A fresh state: nothing canned, nothing logged, the anonymous user.
    pub fn new() -> (r: StubHostState)
        ensures
            r.items@.len() == 0,
            r.permissions@.len() == 0,
            r.variables@.len() == 0,
            r.log_buffer@.len() == 0,
            r.request_context@.len() == 0,
            r.current_user_id@ == "anonymous"@,
    {
        StubHostState {
            items: Vec::new(),
            permissions: Vec::new(),
            variables: Vec::new(),
            log_buffer: Vec::new(),
            request_context: Vec::new(),
            current_user_id: "anonymous".to_owned(),
        }
    }

    /// Put `item` at `handle`, replacing the item there.
    pub fn load_item(&mut self, handle: i32, item: Json)
        ensures
            final(self).item_view() == old(self).item_view().insert(handle, item),
            final(self).permissions == old(self).permissions,
            final(self).variables == old(self).variables,
            final(self).log_buffer == old(self).log_buffer,
            final(self).request_context == old(self).request_context,
            final(self).current_user_id == old(self).current_user_id,
    {
        put_item(&mut self.items, handle, item);
    }

    /// The string member `key` of the item at `handle`.
    fn item_text(&self, handle: i32, key: &str) -> (r: Option<String>)
        ensures
            opt_text(r) == item_member_text(entry(self.item_view(), handle), key@),
    {
        match find_handle(&self.items, handle) {
            None => None,
            Some(i) => {
                proof {
                    lemma_handle_index_bounds(self.items@, handle, 0);
                }
                match get_object_member(&self.items[i].1, key) {
                    Some(Json::Str(s)) => Some(s.clone()),
                    _ => None,
                }
            },
        }
    }

    /// The title of the item at `handle`.
    pub fn get_title(&self, handle: i32) -> (r: Option<String>)
        ensures
            opt_text(r) == item_member_text(entry(self.item_view(), handle), "title"@),
    {
        self.item_text(handle, "title")
    }

    /// The type of the item at `handle`.
    pub fn get_type(&self, handle: i32) -> (r: Option<String>)
        ensures
            opt_text(r) == item_member_text(entry(self.item_view(), handle), "type"@),
    {
        self.item_text(handle, "type")
    }

    /// The identifier of the item at `handle`.
    pub fn get_id(&self, handle: i32) -> (r: Option<String>)
        ensures
            opt_text(r) == item_member_text(entry(self.item_view(), handle), "id"@),
    {
        self.item_text(handle, "id")
    }

    /// The field `field_name` of the item at `handle`.
    fn field_ref(&self, handle: i32, field_name: &str) -> (r: Option<&Json>)
        ensures
            found(r, item_field(entry(self.item_view(), handle), field_name@)),
    {
        match find_handle(&self.items, handle) {
            None => None,
            Some(i) => {
                proof {
                    lemma_handle_index_bounds(self.items@, handle, 0);
                }
                match get_object_member(&self.items[i].1, "fields") {
                    Some(fields) => get_object_member(fields, field_name),
                    None => None,
                }
            },
        }
    }

    /// The text of the field `field_name` of the item at `handle`: the
    /// string in its `value` member, or the field itself when it is a string.
    pub fn get_field_string(&self, handle: i32, field_name: &str) -> (r: Option<String>)
        ensures
            opt_text(r) == field_string(item_field(entry(self.item_view(), handle), field_name@)),
    {
        match self.field_ref(handle, field_name) {
            None => None,
            Some(Json::Str(s)) => Some(s.clone()),
            Some(f) => match get_object_member(f, "value") {
                Some(Json::Str(s)) => Some(s.clone()),
                _ => None,
            },
        }
    }

    /// The integer in the `value` member of the field `field_name` of the
    /// item at `handle`.
    pub fn get_field_int(&self, handle: i32, field_name: &str) -> (r: Option<i64>)
        ensures
            r == field_integer(item_field(entry(self.item_view(), handle), field_name@)),
    {
        match self.field_ref(handle, field_name) {
            None => None,
            Some(f) => match get_object_member(f, "value") {
                Some(Json::Number(t)) => parse_i64(&chars_of(t.as_str())),
                _ => None,
            },
        }
    }

    /// The field `field_name` of the item at `handle`, written as JSON.
    pub fn get_field_json(&self, handle: i32, field_name: &str) -> (r: Option<String>)
        ensures
            opt_text(r) == match item_field(entry(self.item_view(), handle), field_name@) {
                Some(f) => Some(json_text(f)),
                None => None,
            },
    {
        match self.field_ref(handle, field_name) {
            None => None,
            Some(f) => Some(to_json_string(f)),
        }
    }

    /// Set the field `field_name` of the item at `handle` to
    /// `{"value": value}`, when the item has a `fields` member.
    pub fn set_field_string(&mut self, handle: i32, field_name: &str, value: &str)
        requires
            fields_writable(old(self).item_view(), handle),
        ensures
            field_written(
                old(self).item_view(),
                final(self).item_view(),
                handle,
                field_name@,
                |j: Json| holds_text(j, value@),
            ),
            final(self).permissions == old(self).permissions,
            final(self).variables == old(self).variables,
            final(self).log_buffer == old(self).log_buffer,
            final(self).request_context == old(self).request_context,
            final(self).current_user_id == old(self).current_user_id,
    {
        let field = value_object(Json::Str(value.to_owned()));
        let ghost fg = field;
        write_field(&mut self.items, handle, field_name, field);
        assert(holds_text(fg, value@));
    }

    /// Set the field `field_name` of the item at `handle` to
    /// `{"value": value}` with an integer value, when the item has a
    /// `fields` member.
    pub fn set_field_int(&mut self, handle: i32, field_name: &str, value: i64)
        requires
            fields_writable(old(self).item_view(), handle),
        ensures
            field_written(
                old(self).item_view(),
                final(self).item_view(),
                handle,
                field_name@,
                |j: Json| holds_int(j, value),
            ),
            final(self).permissions == old(self).permissions,
            final(self).variables == old(self).variables,
            final(self).log_buffer == old(self).log_buffer,
            final(self).request_context == old(self).request_context,
            final(self).current_user_id == old(self).current_user_id,
    {
        let field = value_object(Json::Number(string_of(&i64_to_padded(value, 0))));
        let ghost fg = field;
        write_field(&mut self.items, handle, field_name, field);
        assert(holds_int(fg, value));
    }

    /// Set the title of the item at `handle`.
    pub fn set_title(&mut self, handle: i32, value: &str)
        requires
            title_writable(old(self).item_view(), handle),
        ensures
            title_written(old(self).item_view(), final(self).item_view(), handle, value@),
            final(self).permissions == old(self).permissions,
            final(self).variables == old(self).variables,
            final(self).log_buffer == old(self).log_buffer,
            final(self).request_context == old(self).request_context,
            final(self).current_user_id == old(self).current_user_id,
    {
        let ghost before = self.item_view();
        match find_handle(&self.items, handle) {
            None => {},
            Some(i) => {
                proof {
                    lemma_handle_index_bounds(self.items@, handle, 0);
                }
                let it = take_item(&mut self.items, i);
                let ghost itg = it;
                let ni = with_member(it, "title", Json::Str(value.to_owned()));
                let ghost nig = ni;
                put_item(&mut self.items, handle, ni);
                assert(item_map(self.items@) =~= before.insert(handle, nig));
            },
        }
    }

    /// Whether the current user holds `permission` (no answer reads as no).
    pub fn user_has_permission(&self, permission: &str) -> (r: bool)
        ensures
            r == (entry(self.permission_view(), permission@) == Some(true)),
    {
        match find_key(&self.permissions, permission) {
            Some(i) => {
                proof {
                    lemma_key_index_bounds(self.permissions@, permission@, 0);
                }
                self.permissions[i].1
            },
            None => false,
        }
    }

    /// The variable `name`, or `default` when it is not set.
    pub fn get_variable(&self, name: &str, default: &str) -> (r: String)
        ensures
            r@ == match entry(self.variable_view(), name@) {
                Some(v) => v,
                None => default@,
            },
    {
        match find_key(&self.variables, name) {
            Some(i) => {
                proof {
                    lemma_key_index_bounds(self.variables@, name@, 0);
                }
                self.variables[i].1.clone()
            },
            None => default.to_owned(),
        }
    }

    /// Set the variable `name`.
    pub fn set_variable(&mut self, name: &str, value: &str)
        ensures
            final(self).variable_view() == old(self).variable_view().insert(name@, value@),
            final(self).items == old(self).items,
            final(self).permissions == old(self).permissions,
            final(self).log_buffer == old(self).log_buffer,
            final(self).request_context == old(self).request_context,
            final(self).current_user_id == old(self).current_user_id,
    {
        let ghost before = self.variables@;
        let v = value.to_owned();
        put_entry(&mut self.variables, name, v);
        assert(text_map(self.variables@) =~= text_map(before).insert(name@, value@));
    }

    /// Append `[level] plugin: message` to the log.
    pub fn log_message(&mut self, level: &str, plugin: &str, message: &str)
        ensures
            log_lines(final(self).log_buffer@) == log_lines(old(self).log_buffer@).push(
                log_line(level@, plugin@, message@),
            ),
            final(self).items == old(self).items,
            final(self).permissions == old(self).permissions,
            final(self).variables == old(self).variables,
            final(self).request_context == old(self).request_context,
            final(self).current_user_id == old(self).current_user_id,
    {
        let mut line = chars_of("[");
        push_all(&mut line, &chars_of(level));
        push_all(&mut line, &chars_of("] "));
        push_all(&mut line, &chars_of(plugin));
        push_all(&mut line, &chars_of(": "));
        push_all(&mut line, &chars_of(message));
        let ghost before = self.log_buffer@;
        self.log_buffer.push(string_of(&line));
        assert(log_lines(self.log_buffer@) =~= log_lines(before).push(log_line(level@, plugin@, message@)));
    }

    /// A database query: the canned answer is always an empty JSON array.
    pub fn db_query(&self, query_json: &str) -> (r: Result<String, String>)
        ensures
            r matches Ok(t) && t@ == "[]"@,
    {
        Ok("[]".to_owned())
    }

    /// The request context value at `key`.
    pub fn get_request_context(&self, key: &str) -> (r: Option<String>)
        ensures
            opt_text(r) == entry(self.context_view(), key@),
    {
        match find_key(&self.request_context, key) {
            Some(i) => {
                proof {
                    lemma_key_index_bounds(self.request_context@, key@, 0);
                }
                Some(self.request_context[i].1.clone())
            },
            None => None,
        }
    }

    /// Set the request context value at `key`.
    pub fn set_request_context(&mut self, key: &str, value: &str)
        ensures
            final(self).context_view() == old(self).context_view().insert(key@, value@),
            final(self).items == old(self).items,
            final(self).permissions == old(self).permissions,
            final(self).variables == old(self).variables,
            final(self).log_buffer == old(self).log_buffer,
            final(self).current_user_id == old(self).current_user_id,
    {
        let ghost before = self.request_context@;
        let v = value.to_owned();
        put_entry(&mut self.request_context, key, v);
        assert(text_map(self.request_context@) =~= text_map(before).insert(key@, value@));
    }
}

impl Default for StubHostState {
    fn default() -> (r: StubHostState)
        ensures
            r.items@.len() == 0,
            r.permissions@.len() == 0,
            r.variables@.len() == 0,
            r.log_buffer@.len() == 0,
            r.request_context@.len() == 0,
            r.current_user_id@ == "anonymous"@,
    {
        StubHostState::new()
    }
}


// ---------------------------------------------------------------------------
// What a read gives back of a write
// ---------------------------------------------------------------------------

/// After `set_variable(name, value)`, `get_variable(name, _)` reads `value`
/// and every other variable reads as before. The same holds of
/// `set_request_context` and `get_request_context`.
pub proof fn law_text_read_after_write(
    before: Map<Seq<char>, Seq<char>>,
    name: Seq<char>,
    value: Seq<char>,
    other: Seq<char>,
)
    ensures
        entry(before.insert(name, value), name) == Some(value),
        other != name ==> entry(before.insert(name, value), other) == entry(before, other),
{
}

/// After `load_item(h, item)`, the item at `h` is `item`, so its title,
/// type, identifier and fields read from it; other handles are untouched.
pub proof fn law_item_read_after_load(before: Map<i32, Json>, h: i32, item: Json, other: i32)
    ensures
        entry(before.insert(h, item), h) == Some(item),
        other != h ==> entry(before.insert(h, item), other) == entry(before, other),
{
}

/// After `set_field_string(h, name, value)` on an item with a `fields`
/// member, `get_field_string(h, name)` reads `value`; the item's other
/// fields, its other members (title, type, identifier) and the other items
/// read as before.
pub proof fn law_field_string_read_after_write(
    before: Map<i32, Json>,
    after: Map<i32, Json>,
    h: i32,
    name: Seq<char>,
    value: Seq<char>,
    other_field: Seq<char>,
    other_member: Seq<char>,
    other_item: i32,
)
    requires
        field_written(before, after, h, name, |j: Json| holds_text(j, value)),
        entry(before, h) matches Some(it) && object_member(it, "fields"@) is Some,
    ensures
        field_string(item_field(entry(after, h), name)) == Some(value),
        other_field != name ==> item_field(entry(after, h), other_field) == item_field(entry(before, h), other_field),
        other_member != "fields"@ ==> item_member_text(entry(after, h), other_member) == item_member_text(
            entry(before, h),
            other_member,
        ),
        other_item != h ==> entry(after, other_item) == entry(before, other_item),
{
    lemma_field_written_frame(before, after, h, name, |j: Json| holds_text(j, value), other_field, other_member, other_item);
    let it = entry(before, h)->0;
    let ni = after[h];
    let nf = object_member(ni, "fields"@)->0;
    let v = object_member(nf, name)->0;
    assert(holds_text(v, value));
    if let Json::Object(vm) = v {
        assert(entry_map(vm@).dom().contains("value"@)) by {
            assert(key_index_from(vm@, "value"@, 0) == Some(0int));
        }
        assert(key_index(vm@, "value"@) == Some(0int));
    }
}

/// After `set_field_int(h, name, value)` on an item with a `fields`
/// member, `get_field_int(h, name)` reads `value`; the item's other fields,
/// its other members and the other items read as before.
pub proof fn law_field_int_read_after_write(
    before: Map<i32, Json>,
    after: Map<i32, Json>,
    h: i32,
    name: Seq<char>,
    value: i64,
    other_field: Seq<char>,
    other_member: Seq<char>,
    other_item: i32,
)
    requires
        field_written(before, after, h, name, |j: Json| holds_int(j, value)),
        entry(before, h) matches Some(it) && object_member(it, "fields"@) is Some,
    ensures
        field_integer(item_field(entry(after, h), name)) == Some(value),
        other_field != name ==> item_field(entry(after, h), other_field) == item_field(entry(before, h), other_field),
        other_member != "fields"@ ==> item_member_text(entry(after, h), other_member) == item_member_text(
            entry(before, h),
            other_member,
        ),
        other_item != h ==> entry(after, other_item) == entry(before, other_item),
{
    lemma_field_written_frame(before, after, h, name, |j: Json| holds_int(j, value), other_field, other_member, other_item);
    let ni = after[h];
    let nf = object_member(ni, "fields"@)->0;
    let v = object_member(nf, name)->0;
    assert(holds_int(v, value));
    lemma_padded_reads_back(value);
    if let Json::Object(vm) = v {
        assert(key_index(vm@, "value"@) == Some(0int));
    }
}

/// What a field write leaves as it was.
proof fn lemma_field_written_frame(
    before: Map<i32, Json>,
    after: Map<i32, Json>,
    h: i32,
    name: Seq<char>,
    holds: spec_fn(Json) -> bool,
    other_field: Seq<char>,
    other_member: Seq<char>,
    other_item: i32,
)
    requires
        field_written(before, after, h, name, holds),
        entry(before, h) matches Some(it) && object_member(it, "fields"@) is Some,
    ensures
        ({
            let nf = object_member(after[h], "fields"@)->0;
            &&& entry(after, h) == Some(after[h])
            &&& item_field(entry(after, h), name) == Some(object_member(nf, name)->0)
            &&& holds(object_member(nf, name)->0)
        }),
        other_field != name ==> item_field(entry(after, h), other_field) == item_field(entry(before, h), other_field),
        other_member != "fields"@ ==> item_member_text(entry(after, h), other_member) == item_member_text(
            entry(before, h),
            other_member,
        ),
        other_item != h ==> entry(after, other_item) == entry(before, other_item),
{
    let it = entry(before, h)->0;
    let f = object_member(it, "fields"@)->0;
    let ni = after[h];
    let nf = object_member(ni, "fields"@)->0;
    assert(after == before.insert(h, ni));
    assert(set_member(it, ni, "fields"@));
    assert(set_member(f, nf, name));
}

/// After `set_title(h, value)` on an existing item, `get_title(h)` reads
/// `value`; the item's other members and the other items read as before.
pub proof fn law_title_read_after_write(
    before: Map<i32, Json>,
    after: Map<i32, Json>,
    h: i32,
    value: Seq<char>,
    other_member: Seq<char>,
    other_item: i32,
)
    requires
        title_written(before, after, h, value),
        entry(before, h) is Some,
    ensures
        item_member_text(entry(after, h), "title"@) == Some(value),
        other_member != "title"@ ==> object_member(after[h], other_member) == object_member(
            entry(before, h)->0,
            other_member,
        ),
        other_item != h ==> entry(after, other_item) == entry(before, other_item),
{
    let it = entry(before, h)->0;
    let ni = after[h];
    assert(after == before.insert(h, ni));
    assert(set_member(it, ni, "title"@));
}

} // verus!
