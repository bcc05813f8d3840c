//! A parsed JSON document as plain values, and the lookups the corpus
//! readers make into it. Numbers carry what their readers ask of them: the
//! value as a signed and as an unsigned 64-bit integer, when it is one.

use vstd::prelude::*;

use crate::frame::lemma_skip_step;
use crate::text::text_eq;

verus! {

#[derive(Debug, Clone, Copy, PartialEq, Eq, Structural)]
pub struct JsonNumber {
    pub as_i64: Option<i64>,
    pub as_u64: Option<u64>,
}

#[derive(Debug)]
pub enum JsonValue {
    Null,
    Bool(bool),
    Number(JsonNumber),
    Text(String),
    Array(Vec<JsonValue>),
    Object(Vec<(String, JsonValue)>),
}

/// The value of the first member named `key`.
pub open spec fn member(fields: Seq<(String, JsonValue)>, key: Seq<char>) -> Option<JsonValue>
    decreases fields.len(),
{
    if fields.len() == 0 {
        None
    } else if fields[0].0@ == key {
        Some(fields[0].1)
    } else {
        member(fields.drop_first(), key)
    }
}

/// The member `key` of an object; nothing for any other value.
pub open spec fn get_in(v: Option<JsonValue>, key: Seq<char>) -> Option<JsonValue> {
    match v {
        Some(JsonValue::Object(fields)) => member(fields@, key),
        _ => None,
    }
}

pub open spec fn array_of(v: Option<JsonValue>) -> Option<Seq<JsonValue>> {
    match v {
        Some(JsonValue::Array(items)) => Some(items@),
        _ => None,
    }
}

pub open spec fn text_of(v: Option<JsonValue>) -> Option<Seq<char>> {
    match v {
        Some(JsonValue::Text(s)) => Some(s@),
        _ => None,
    }
}

pub open spec fn i64_of(v: Option<JsonValue>) -> Option<i64> {
    match v {
        Some(JsonValue::Number(n)) => n.as_i64,
        _ => None,
    }
}

pub open spec fn u64_of(v: Option<JsonValue>) -> Option<u64> {
    match v {
        Some(JsonValue::Number(n)) => n.as_u64,
        _ => None,
    }
}

pub open spec fn bool_of(v: Option<JsonValue>) -> Option<bool> {
    match v {
        Some(JsonValue::Bool(b)) => Some(b),
        _ => None,
    }
}

/// The item at `i`, when there is one.
pub open spec fn item_at(items: Seq<JsonValue>, i: int) -> Option<JsonValue> {
    if 0 <= i < items.len() {
        Some(items[i])
    } else {
        None
    }
}

pub open spec fn deref(v: Option<&JsonValue>) -> Option<JsonValue> {
    match v {
        Some(x) => Some(*x),
        None => None,
    }
}

/// The member `key` of `v`, when `v` is an object that has it.
pub fn json_get<'a>(v: Option<&'a JsonValue>, key: &str) -> (r: Option<&'a JsonValue>)
    ensures
        deref(r) == get_in(deref(v), key@),
{
    match v {
        Some(JsonValue::Object(fields)) => {
            let mut i: usize = 0;
            assert(fields@.skip(0) =~= fields@);
            while i < fields.len()
                invariant
                    i <= fields@.len(),
                    get_in(deref(v), key@) == member(fields@, key@),
                    member(fields@, key@) == member(fields@.skip(i as int), key@),
                decreases fields@.len() - i,
            {
                proof {
                    lemma_skip_step(fields@, i as int);
                }
                if text_eq(fields[i].0.as_str(), key) {
                    return Some(&fields[i].1);
                }
                i = i + 1;
            }
            assert(fields@.skip(i as int).len() == 0);
            None
        },
        _ => None,
    }
}

pub fn json_array<'a>(v: Option<&'a JsonValue>) -> (r: Option<&'a Vec<JsonValue>>)
    ensures
        match r {
            Some(items) => array_of(deref(v)) == Some(items@),
            None => array_of(deref(v)) is None,
        },
{
    match v {
        Some(JsonValue::Array(items)) => Some(items),
        _ => None,
    }
}

pub fn json_text<'a>(v: Option<&'a JsonValue>) -> (r: Option<&'a String>)
    ensures
        match r {
            Some(s) => text_of(deref(v)) == Some(s@),
            None => text_of(deref(v)) is None,
        },
{
    match v {
        Some(JsonValue::Text(s)) => Some(s),
        _ => None,
    }
}

pub fn json_i64(v: Option<&JsonValue>) -> (r: Option<i64>)
    ensures
        r == i64_of(deref(v)),
{
    match v {
        Some(JsonValue::Number(n)) => n.as_i64,
        _ => None,
    }
}

pub fn json_u64(v: Option<&JsonValue>) -> (r: Option<u64>)
    ensures
        r == u64_of(deref(v)),
{
    match v {
        Some(JsonValue::Number(n)) => n.as_u64,
        _ => None,
    }
}

pub fn json_bool(v: Option<&JsonValue>) -> (r: Option<bool>)
    ensures
        r == bool_of(deref(v)),
{
    match v {
        Some(JsonValue::Bool(b)) => Some(*b),
        _ => None,
    }
}

pub fn json_item<'a>(items: &'a Vec<JsonValue>, i: usize) -> (r: Option<&'a JsonValue>)
    ensures
        deref(r) == item_at(items@, i as int),
{
    if i < items.len() {
        Some(&items[i])
    } else {
        None
    }
}

} // verus!
