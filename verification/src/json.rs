//! A JSON value as the transcript logic reads it: tool inputs are free-form
//! JSON objects of which a few keys matter. Objects are kept as entry lists
//! (a key names its first entry); numbers keep their text, since nothing
//! here computes with them.

use vstd::prelude::*;

use crate::text::{owned, str_eq};

verus! {

/// A JSON value.
pub enum JsonValue {
    Null,
    Bool(bool),
    Number(String),
    Str(String),
    Array(Vec<JsonValue>),
    Object(Vec<(String, JsonValue)>),
}

/// The index of the first entry with key `key`.
pub open spec fn key_index(entries: Seq<(String, JsonValue)>, key: Seq<char>) -> Option<int> {
    if exists|i: int| 0 <= i < entries.len() && #[trigger] entries[i].0@ == key {
        Some(
            choose|i: int|
                0 <= i < entries.len() && #[trigger] entries[i].0@ == key && forall|j: int|
                    0 <= j < i ==> entries[j].0@ != key,
        )
    } else {
        None
    }
}

/// The value under `key` of an object's entries.
pub open spec fn entry_value(entries: Seq<(String, JsonValue)>, key: Seq<char>) -> Option<
    JsonValue,
> {
    match key_index(entries, key) {
        Some(i) => Some(entries[i].1),
        None => None,
    }
}

/// The member `key` of a value: present only on objects.
pub open spec fn member(v: JsonValue, key: Seq<char>) -> Option<JsonValue> {
    match v {
        JsonValue::Object(entries) => entry_value(entries@, key),
        _ => None,
    }
}

/// The string a value may be.
pub open spec fn string_value(v: Option<JsonValue>) -> Option<Seq<char>> {
    match v {
        Some(JsonValue::Str(s)) => Some(s@),
        _ => None,
    }
}

/// A key some entry has is had by a first entry.
proof fn lemma_first_exists(entries: Seq<(String, JsonValue)>, key: Seq<char>, j: int)
    requires
        0 <= j < entries.len(),
        entries[j].0@ == key,
    ensures
        exists|i: int|
            0 <= i < entries.len() && #[trigger] entries[i].0@ == key && forall|x: int|
                0 <= x < i ==> entries[x].0@ != key,
    decreases j,
{
    if exists|x: int| 0 <= x < j && #[trigger] entries[x].0@ == key {
        let x = choose|x: int| 0 <= x < j && #[trigger] entries[x].0@ == key;
        lemma_first_exists(entries, key, x);
    } else {
        assert(forall|x: int| 0 <= x < j ==> entries[x].0@ != key);
    }
}

/// The first entry found is the one `key_index` names.
proof fn lemma_key_index_is(entries: Seq<(String, JsonValue)>, key: Seq<char>, i: int)
    requires
        0 <= i < entries.len(),
        entries[i].0@ == key,
        forall|j: int| 0 <= j < i ==> entries[j].0@ != key,
    ensures
        key_index(entries, key) == Some(i),
{
    let c = choose|c: int|
        0 <= c < entries.len() && #[trigger] entries[c].0@ == key && forall|j: int|
            0 <= j < c ==> entries[j].0@ != key;
    if c < i {
        assert(entries[c].0@ != key);
    } else if c > i {
        assert(entries[i].0@ != key);
    }
}

/// The position of the first entry with `key`.
fn find_key(entries: &Vec<(String, JsonValue)>, key: &str) -> (r: Option<usize>)
    ensures
        match r {
            Some(i) => i < entries@.len() && key_index(entries@, key@) == Some(i as int)
                && entries@[i as int].0@ == key@ && forall|j: int|
                0 <= j < i ==> (#[trigger] entries@[j].0@) != key@,
            None => key_index(entries@, key@) is None,
        },
{
    let mut i: usize = 0;
    while i < entries.len()
        invariant
            i <= entries@.len(),
            forall|k: int| 0 <= k < i ==> (#[trigger] entries@[k].0@) != key@,
        decreases entries@.len() - i,
    {
        if str_eq(entries[i].0.as_str(), key) {
            proof {
                lemma_key_index_is(entries@, key@, i as int);
            }
            return Some(i);
        }
        i = i + 1;
    }
    None
}

/// The member `key` of a value.
pub fn get<'a>(v: &'a JsonValue, key: &str) -> (r: Option<&'a JsonValue>)
    ensures
        match r {
            Some(x) => member(*v, key@) == Some(*x),
            None => member(*v, key@) is None,
        },
{
    match v {
        JsonValue::Object(entries) => {
            match find_key(entries, key) {
                Some(i) => Some(&entries[i].1),
                None => None,
            }
        },
        _ => None,
    }
}

/// The string a value holds, if it is one.
pub fn as_str(v: &JsonValue) -> (r: Option<&str>)
    ensures
        match r {
            Some(s) => v matches JsonValue::Str(t) && t@ == s@,
            None => !(v is Str),
        },
{
    match v {
        JsonValue::Str(s) => Some(s.as_str()),
        _ => None,
    }
}

/// The boolean a value holds, if it is one.
pub fn as_bool(v: &JsonValue) -> (r: Option<bool>)
    ensures
        match r {
            Some(b) => *v == JsonValue::Bool(b),
            None => !(v is Bool),
        },
{
    match v {
        JsonValue::Bool(b) => Some(*b),
        _ => None,
    }
}

/// Replacing the value of the entry `key` names leaves the value of `k`.
proof fn lemma_replaced_other(
    o: Seq<(String, JsonValue)>,
    e: Seq<(String, JsonValue)>,
    key: Seq<char>,
    i: int,
    k: Seq<char>,
)
    requires
        k != key,
        0 <= i < o.len(),
        o[i].0@ == key,
        e.len() == o.len(),
        forall|j: int| 0 <= j < o.len() ==> #[trigger] e[j].0@ == o[j].0@,
        forall|j: int| 0 <= j < o.len() && j != i ==> #[trigger] e[j].1 == o[j].1,
    ensures
        entry_value(e, k) == entry_value(o, k),
{
    if exists|j: int| 0 <= j < o.len() && #[trigger] o[j].0@ == k {
        let j0 = choose|j: int| 0 <= j < o.len() && #[trigger] o[j].0@ == k;
        lemma_first_exists(o, k, j0);
        let j = choose|j: int|
            0 <= j < o.len() && #[trigger] o[j].0@ == k && forall|x: int| 0 <= x < j ==> o[x].0@ != k;
        assert(e[j].0@ == k);
        assert forall|x: int| 0 <= x < j implies e[x].0@ != k by {
            assert(e[x].0@ == o[x].0@);
        }
        lemma_key_index_is(o, k, j);
        lemma_key_index_is(e, k, j);
        assert(j != i);
    } else {
        assert forall|j: int| 0 <= j < e.len() implies (#[trigger] e[j].0@) != k by {
            assert(e[j].0@ == o[j].0@);
        }
    }
}

/// Replacing the value of the entry a key names changes no other key's value.
#[verifier::spinoff_prover]
proof fn lemma_replaced(o: Seq<(String, JsonValue)>, e: Seq<(String, JsonValue)>, key: Seq<char>, i: int)
    requires
        0 <= i < o.len(),
        o[i].0@ == key,
        forall|j: int| 0 <= j < i ==> (#[trigger] o[j].0@) != key,
        e.len() == o.len(),
        forall|j: int| 0 <= j < o.len() ==> #[trigger] e[j].0@ == o[j].0@,
        forall|j: int| 0 <= j < o.len() && j != i ==> #[trigger] e[j].1 == o[j].1,
    ensures
        entry_value(e, key) == Some(e[i].1),
        forall|k: Seq<char>| k != key ==> entry_value(e, k) == entry_value(o, k),
{
    assert forall|j: int| 0 <= j < i implies e[j].0@ != key by {
        assert(e[j].0@ == o[j].0@);
    }
    lemma_key_index_is(e, key, i);
    assert forall|k: Seq<char>| k != key implies entry_value(e, k) == entry_value(o, k) by {
        lemma_replaced_other(o, e, key, i, k);
    }
}

/// Adding an entry for a key no entry has changes no other key's value.
proof fn lemma_appended(o: Seq<(String, JsonValue)>, entry: (String, JsonValue), key: Seq<char>)
    requires
        key_index(o, key) is None,
        entry.0@ == key,
    ensures
        entry_value(o.push(entry), key) == Some(entry.1),
        forall|k: Seq<char>| k != key ==> entry_value(o.push(entry), k) == entry_value(o, k),
{
    let e = o.push(entry);
    let n = o.len() as int;
    assert forall|j: int| 0 <= j < n implies e[j].0@ != key by {
        if o[j].0@ == key {
            assert(exists|x: int| 0 <= x < o.len() && #[trigger] o[x].0@ == key);
        }
    }
    lemma_key_index_is(e, key, n);
    assert forall|k: Seq<char>| k != key implies entry_value(e, k) == entry_value(o, k) by {
        if exists|j: int| 0 <= j < o.len() && #[trigger] o[j].0@ == k {
            let j0 = choose|j: int| 0 <= j < o.len() && #[trigger] o[j].0@ == k;
            lemma_first_exists(o, k, j0);
            let j = choose|j: int|
                0 <= j < o.len() && #[trigger] o[j].0@ == k && forall|x: int| 0 <= x < j ==> o[x].0@ != k;
            lemma_key_index_is(o, k, j);
            lemma_key_index_is(e, k, j);
        } else {
            assert forall|j: int| 0 <= j < e.len() implies (#[trigger] e[j].0@) != k by {}
        }
    }
}

/// Sets `key` of an object to `value`: replaces the entry it names in
/// place, or adds one at the end.
pub fn insert(entries: &mut Vec<(String, JsonValue)>, key: &str, value: JsonValue)
    ensures
        entry_value(final(entries)@, key@) == Some(value),
        forall|k: Seq<char>|
            k != key@ ==> entry_value(final(entries)@, k) == entry_value(old(entries)@, k),
{
    match find_key(entries, key) {
        Some(i) => {
            let k = entries[i].0.clone();
            entries.set(i, (k, value));
            proof {
                lemma_replaced(old(entries)@, entries@, key@, i as int);
            }
        },
        None => {
            let ghost before = entries@;
            let entry = (owned(key), value);
            proof {
                lemma_appended(before, entry, key@);
            }
            entries.push(entry);
        },
    }
}

/// Removing the entry `key` names leaves the value of every other key.
proof fn lemma_removed_other(o: Seq<(String, JsonValue)>, key: Seq<char>, i: int, k: Seq<char>)
    requires
        k != key,
        0 <= i < o.len(),
        o[i].0@ == key,
    ensures
        entry_value(o.remove(i), k) == entry_value(o, k),
{
    let e = o.remove(i);
    if exists|j: int| 0 <= j < o.len() && #[trigger] o[j].0@ == k {
        let j0 = choose|j: int| 0 <= j < o.len() && #[trigger] o[j].0@ == k;
        lemma_first_exists(o, k, j0);
        let j = choose|j: int|
            0 <= j < o.len() && #[trigger] o[j].0@ == k && forall|x: int| 0 <= x < j ==> o[x].0@ != k;
        lemma_key_index_is(o, k, j);
        assert(j != i);
        if j < i {
            assert(e[j] == o[j]);
            assert forall|x: int| 0 <= x < j implies e[x].0@ != k by {
                assert(e[x] == o[x]);
            }
            lemma_key_index_is(e, k, j);
        } else {
            assert(e[j - 1] == o[j]);
            assert forall|x: int| 0 <= x < j - 1 implies e[x].0@ != k by {
                if x < i {
                    assert(e[x] == o[x]);
                } else {
                    assert(e[x] == o[x + 1]);
                }
            }
            lemma_key_index_is(e, k, j - 1);
        }
    } else {
        assert forall|j: int| 0 <= j < e.len() implies (#[trigger] e[j].0@) != k by {
            if j < i {
                assert(e[j] == o[j]);
            } else {
                assert(e[j] == o[j + 1]);
            }
        }
    }
}

/// Takes the value of the first entry under `key` out of an object: that
/// entry is removed, and the value returned; every other key keeps its value.
pub fn take(entries: &mut Vec<(String, JsonValue)>, key: &str) -> (r: Option<JsonValue>)
    ensures
        r == entry_value(old(entries)@, key@),
        forall|k: Seq<char>|
            k != key@ ==> entry_value(final(entries)@, k) == entry_value(old(entries)@, k),
{
    match find_key(entries, key) {
        Some(i) => {
            let entry = entries.remove(i);
            assert(entry == old(entries)@[i as int]);
            proof {
                assert forall|k: Seq<char>| k != key@ implies entry_value(entries@, k)
                    == entry_value(old(entries)@, k) by {
                    lemma_removed_other(old(entries)@, key@, i as int, k);
                }
            }
            Some(entry.1)
        },
        None => None,
    }
}


// ---------------------------------------------------------------------------
// The mathematical value, and its printed text
// ---------------------------------------------------------------------------

/// A JSON value as contracts speak of it.
pub enum Json {
    Null,
    Bool(bool),
    Number(Seq<char>),
    Str(Seq<char>),
    Array(Seq<Json>),
    Object(Seq<(Seq<char>, Json)>),
}

/// The parts of a value are smaller than the value.
pub proof fn lemma_json_parts_decrease(v: JsonValue)
    ensures
        v matches JsonValue::Array(items) ==> decreases_to!(v => items@),
        v matches JsonValue::Object(es) ==> decreases_to!(v => es@),
{
    match v {
        JsonValue::Array(items) => {
            assert(decreases_to!(v => items));
            assert(decreases_to!(items => items@));
        },
        JsonValue::Object(es) => {
            assert(decreases_to!(v => es));
            assert(decreases_to!(es => es@));
        },
        _ => {},
    }
}

/// The value of a JSON value.
pub open spec fn json_of(v: JsonValue) -> Json
    decreases v, 1int,
{
    match v {
        JsonValue::Null => Json::Null,
        JsonValue::Bool(b) => Json::Bool(b),
        JsonValue::Number(n) => Json::Number(n@),
        JsonValue::Str(s) => Json::Str(s@),
        JsonValue::Array(items) => {
            proof {
                lemma_json_parts_decrease(v);
            }
            Json::Array(json_list(items@))
        },
        JsonValue::Object(es) => {
            proof {
                lemma_json_parts_decrease(v);
            }
            Json::Object(json_entries(es@))
        },
    }
}

/// The values of a list of JSON values.
pub open spec fn json_list(items: Seq<JsonValue>) -> Seq<Json>
    decreases items, 0int,
{
    if items.len() == 0 {
        Seq::empty()
    } else {
        proof {
            assert(decreases_to!(items => items[items.len() - 1]));
            assert(items.drop_last() =~= items.subrange(0, items.len() - 1));
            assert(decreases_to!(items => items.subrange(0, items.len() - 1)));
        }
        json_list(items.drop_last()).push(json_of(items.last()))
    }
}

/// The keys and values of an object's entries.
pub open spec fn json_entries(es: Seq<(String, JsonValue)>) -> Seq<(Seq<char>, Json)>
    decreases es, 0int,
{
    if es.len() == 0 {
        Seq::empty()
    } else {
        proof {
            assert(decreases_to!(es => es[es.len() - 1]));
            assert(decreases_to!(es[es.len() - 1] => es[es.len() - 1].1));
            assert(es.drop_last() =~= es.subrange(0, es.len() - 1));
            assert(decreases_to!(es => es.subrange(0, es.len() - 1)));
        }
        json_entries(es.drop_last()).push((es.last().0@, json_of(es.last().1)))
    }
}

impl View for JsonValue {
    type V = Json;

    open spec fn view(&self) -> Json {
        json_of(*self)
    }
}

/// serde_json's value.
#[verifier::external_type_specification]
#[verifier::external_body]
pub struct ExSerdeValue(serde_json::Value);

/// The text serde_json's `to_string` prints for a value.
pub uninterp spec fn json_text(v: Json) -> Seq<char>;

/// Converts a value one for one into serde_json's value: each variant to
/// the same variant, a number through its text (which serde_json parses;
/// text that is no JSON number becomes null). An object's entries go into
/// serde_json's map, where a repeated key keeps its last value.
#[verifier::external_body]
fn to_serde(v: &JsonValue) -> serde_json::Value {
    match v {
        JsonValue::Null => serde_json::Value::Null,
        JsonValue::Bool(b) => serde_json::Value::Bool(*b),
        JsonValue::Number(n) => n.parse::<serde_json::Number>().map(serde_json::Value::Number).unwrap_or(serde_json::Value::Null),
        JsonValue::Str(s) => serde_json::Value::String(s.clone()),
        JsonValue::Array(items) => serde_json::Value::Array(items.iter().map(to_serde).collect()),
        JsonValue::Object(es) => serde_json::Value::Object(es.iter().map(|e| (e.0.clone(), to_serde(&e.1))).collect()),
    }
}

/// Prints a value with serde_json's `Value::to_string` (after converting
/// it one for one, see `to_serde`); the text is named [`json_text`] of the
/// value.
#[verifier::external_body]
pub(crate) fn print_json(v: &JsonValue) -> (r: String)
    ensures
        r@ == json_text(v@),
{
    to_serde(v).to_string()
}

} // verus!
