//! A JSON document tree, as the schema checks read it.
//!
//! Objects keep their members in order; where a key occurs more than once the
//! last member wins, as when a JSON text with repeated keys is parsed.

use vstd::prelude::*;

use crate::keyed::str_eq;

verus! {

/// A JSON value. Numbers keep the three forms a JSON parser distinguishes;
/// a float is held as its IEEE-754 bit pattern.
#[derive(Debug)]
pub enum JsonValue {
    Null,
    Bool(bool),
    PosInt(u64),
    NegInt(i64),
    Float(u64),
    Str(String),
    Array(Vec<JsonValue>),
    Object(Vec<(String, JsonValue)>),
}

/// The value of the last member named `key`.
pub open spec fn member(entries: Seq<(String, JsonValue)>, key: Seq<char>) -> Option<JsonValue>
    decreases entries.len(),
{
    if entries.len() == 0 {
        None
    } else if entries.last().0@ == key {
        Some(entries.last().1)
    } else {
        member(entries.drop_last(), key)
    }
}

/// The member `key` of `v`, where `v` is an object.
pub open spec fn field(v: JsonValue, key: Seq<char>) -> Option<JsonValue> {
    match v {
        JsonValue::Object(entries) => member(entries@, key),
        _ => None,
    }
}

/// The member `key` is present exactly when some entry has that key.
pub proof fn lemma_member_present(entries: Seq<(String, JsonValue)>, key: Seq<char>)
    ensures
        member(entries, key) is Some <==> exists|i: int| 0 <= i < entries.len() && #[trigger] entries[i].0@ == key,
    decreases entries.len(),
{
    if entries.len() > 0 {
        lemma_member_present(entries.drop_last(), key);
        if member(entries.drop_last(), key) is Some {
            let i = choose|i: int| 0 <= i < entries.drop_last().len() && #[trigger] entries.drop_last()[i].0@ == key;
            assert(entries[i].0@ == key);
        }
        if exists|i: int| 0 <= i < entries.len() && #[trigger] entries[i].0@ == key {
            let i = choose|i: int| 0 <= i < entries.len() && #[trigger] entries[i].0@ == key;
            if i < entries.len() - 1 {
                assert(entries.drop_last()[i].0@ == key);
            }
        }
    }
}

/// Finds the last member named `key` among `entries`.
pub fn member_ref<'a>(entries: &'a Vec<(String, JsonValue)>, key: &str) -> (r: Option<&'a JsonValue>)
    ensures
        match r {
            Some(x) => member(entries@, key@) == Some(*x),
            None => member(entries@, key@) is None,
        },
{
    let mut k: usize = entries.len();
    assert(entries@.subrange(0, entries@.len() as int) =~= entries@);
    while k > 0
        invariant
            k <= entries@.len(),
            member(entries@, key@) == member(entries@.subrange(0, k as int), key@),
        decreases k,
    {
        proof {
            let pre = entries@.subrange(0, k as int);
            assert(pre.drop_last() =~= entries@.subrange(0, k - 1));
        }
        if str_eq(entries[k - 1].0.as_str(), key) {
            return Some(&entries[k - 1].1);
        }
        k = k - 1;
    }
    None
}

/// Finds the member `key` of `v`.
pub fn field_ref<'a>(v: &'a JsonValue, key: &str) -> (r: Option<&'a JsonValue>)
    ensures
        match r {
            Some(x) => field(*v, key@) == Some(*x),
            None => field(*v, key@) is None,
        },
{
    match v {
        JsonValue::Object(entries) => member_ref(entries, key),
        _ => None,
    }
}

} // verus!
