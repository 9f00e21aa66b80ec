//! A plain model of JSON documents, and the `serde_json` parse that fills it.

use vstd::prelude::*;
use crate::text::str_eq;

verus! {

/// A JSON value. Numbers keep their text; an object keeps its members in
/// the order `serde_json` iterates its map (ascending keys).
#[derive(Debug)]
pub enum JsonValue {
    Null,
    Bool(bool),
    Number(String),
    Str(String),
    Array(Vec<JsonValue>),
    Object(Vec<(String, JsonValue)>),
}

/// `serde_json::Value`, carried only into the conversion below.
#[verifier::external_type_specification]
#[verifier::external_body]
pub struct ExSerdeJsonValue(serde_json::Value);

/// What `serde_json::from_str::<serde_json::Value>` makes of a text, in the
/// model above: `None` when the text is not one JSON document.
pub uninterp spec fn parsed_json(text: Seq<char>) -> Option<JsonValue>;

/// Rebuilds a `serde_json::Value` as a [`JsonValue`], variant for variant.
/// Nothing is stated about it; [`parse_json`] states what the two give together.
#[verifier::external_body]
fn model_of(v: serde_json::Value) -> JsonValue {
    match v {
        serde_json::Value::Null => JsonValue::Null,
        serde_json::Value::Bool(b) => JsonValue::Bool(b),
        serde_json::Value::Number(n) => JsonValue::Number(n.to_string()),
        serde_json::Value::String(s) => JsonValue::Str(s),
        serde_json::Value::Array(a) => JsonValue::Array(a.into_iter().map(model_of).collect()),
        serde_json::Value::Object(m) => JsonValue::Object(m.into_iter().map(|(k, x)| (k, model_of(x))).collect()),
    }
}

/// `serde_json::from_str::<serde_json::Value>(text).ok()`, in the model above.
#[verifier::external_body]
pub(crate) fn parse_json(text: &str) -> (r: Option<JsonValue>)
    ensures
        r == parsed_json(text@),
{
    serde_json::from_str::<serde_json::Value>(text).ok().map(model_of)
}

/// The value of the first member named `key`, when the entries have one.
pub open spec fn entry_value(entries: Seq<(String, JsonValue)>, key: Seq<char>) -> Option<JsonValue>
    decreases entries.len(),
{
    if entries.len() == 0 {
        None
    } else if entries[0].0@ == key {
        Some(entries[0].1)
    } else {
        entry_value(entries.drop_first(), key)
    }
}

/// `Value::get(key)`: the member `key` of an object; nothing for other values.
pub open spec fn json_get(v: JsonValue, key: Seq<char>) -> Option<JsonValue> {
    match v {
        JsonValue::Object(entries) => entry_value(entries@, key),
        _ => None,
    }
}

/// `Value::as_str`: the text of a string value.
pub open spec fn json_as_str(v: JsonValue) -> Option<Seq<char>> {
    match v {
        JsonValue::Str(s) => Some(s@),
        _ => None,
    }
}

/// `Value::as_array`: the elements of an array value.
pub open spec fn json_as_array(v: JsonValue) -> Option<Seq<JsonValue>> {
    match v {
        JsonValue::Array(a) => Some(a@),
        _ => None,
    }
}

/// The member `key` of `v`, when it is a string.
pub open spec fn str_member(v: JsonValue, key: Seq<char>) -> Option<Seq<char>> {
    match json_get(v, key) {
        Some(x) => json_as_str(x),
        None => None,
    }
}

/// The member `key` of `v`, when it is an array.
pub open spec fn array_member(v: JsonValue, key: Seq<char>) -> Option<Seq<JsonValue>> {
    match json_get(v, key) {
        Some(x) => json_as_array(x),
        None => None,
    }
}

/// The member named `key` of an object.
pub fn get<'a>(v: &'a JsonValue, key: &str) -> (r: Option<&'a JsonValue>)
    ensures
        r is None <==> json_get(*v, key@) is None,
        r is Some ==> json_get(*v, key@) == Some(*r->0),
{
    match v {
        JsonValue::Object(entries) => {
            let mut i: usize = 0;
            assert(entries@.subrange(0, entries@.len() as int) == entries@);
            while i < entries.len()
                invariant
                    i <= entries.len(),
                    json_get(*v, key@) == entry_value(entries@, key@),
                    entry_value(entries@, key@) == entry_value(entries@.subrange(i as int, entries@.len() as int), key@),
                decreases entries.len() - i,
            {
                let ghost rest = entries@.subrange(i as int, entries@.len() as int);
                assert(rest[0] == entries@[i as int]);
                if str_eq(entries[i].0.as_str(), key) {
                    assert(entry_value(rest, key@) == Some(rest[0].1));
                    return Some(&entries[i].1);
                }
                assert(rest.drop_first() =~= entries@.subrange(i + 1, entries@.len() as int));
                i += 1;
            }
            None
        },
        _ => None,
    }
}

/// The text of a string value.
pub fn as_str(v: &JsonValue) -> (r: Option<&str>)
    ensures
        r is None <==> json_as_str(*v) is None,
        r is Some ==> json_as_str(*v) == Some(r->0@),
{
    match v {
        JsonValue::Str(s) => Some(s.as_str()),
        _ => None,
    }
}

/// The elements of an array value.
pub fn as_array(v: &JsonValue) -> (r: Option<&Vec<JsonValue>>)
    ensures
        r is None <==> json_as_array(*v) is None,
        r is Some ==> json_as_array(*v) == Some(r->0@),
{
    match v {
        JsonValue::Array(a) => Some(a),
        _ => None,
    }
}

} // verus!
