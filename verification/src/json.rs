//! Parsed JSON documents, read through `serde_json`.
//!
//! `serde_json::Value` stays opaque to the verifier. Its contents are
//! described by [`JsonModel`], and every accessor the library uses is a
//! thin trusted wrapper whose contract restates what the `serde_json`
//! source does, in terms of that model.

use vstd::prelude::*;

verus! {

#[verifier::external_type_specification]
#[verifier::external_body]
pub struct ExJsonValue(serde_json::Value);

/// The mathematical content of a JSON value. Numbers keep only what the
/// library reads of them: the `u64` they denote, if they denote one (a
/// non-negative integer that fits), as `Value::as_u64` reports it.
pub enum JsonModel {
    Null,
    Bool(bool),
    Number(Option<u64>),
    Str(Seq<char>),
    Array(Seq<JsonModel>),
    Object(Map<Seq<char>, JsonModel>),
}

/// What a `serde_json::Value` holds.
pub uninterp spec fn json_contents(v: serde_json::Value) -> JsonModel;

/// What `serde_json::from_str::<Value>` makes of a text: `None` when the
/// text is not one JSON document.
pub uninterp spec fn json_from_str(text: Seq<char>) -> Option<JsonModel>;

/// `Value::get` with a string key: the member of an object, nothing otherwise.
pub open spec fn model_get(m: JsonModel, key: Seq<char>) -> Option<JsonModel> {
    match m {
        JsonModel::Object(map) => if map.dom().contains(key) {
            Some(map[key])
        } else {
            None
        },
        _ => None,
    }
}

/// `Value::as_str`.
pub open spec fn model_as_str(m: JsonModel) -> Option<Seq<char>> {
    match m {
        JsonModel::Str(s) => Some(s),
        _ => None,
    }
}

/// `Value::as_u64`.
pub open spec fn model_as_u64(m: JsonModel) -> Option<u64> {
    match m {
        JsonModel::Number(n) => n,
        _ => None,
    }
}

/// `Value::as_bool`.
pub open spec fn model_as_bool(m: JsonModel) -> Option<bool> {
    match m {
        JsonModel::Bool(b) => Some(b),
        _ => None,
    }
}

/// `Value::as_array`.
pub open spec fn model_as_array(m: JsonModel) -> Option<Seq<JsonModel>> {
    match m {
        JsonModel::Array(items) => Some(items),
        _ => None,
    }
}

/// Optional chaining of `get` as the library writes it: `o.and_then(|x| x.get(key))`.
pub open spec fn opt_get(o: Option<JsonModel>, key: Seq<char>) -> Option<JsonModel> {
    match o {
        Some(m) => model_get(m, key),
        None => None,
    }
}

/// Parses `text` as one JSON document with `serde_json::from_str`.
/// Trusted: the result is `Some` exactly when serde_json accepts the text,
/// and then it holds the document `json_from_str` names.
#[verifier::external_body]
pub(crate) fn parse_value(text: &str) -> (r: Option<serde_json::Value>)
    ensures
        r is Some <==> json_from_str(text@) is Some,
        r matches Some(v) ==> json_from_str(text@) == Some(json_contents(v)),
{
    serde_json::from_str::<serde_json::Value>(text).ok()
}

/// `Value::get(key)`. Trusted: serde_json returns the member named `key`
/// of an object and `None` for any other value.
#[verifier::external_body]
pub(crate) fn value_get<'a>(v: &'a serde_json::Value, key: &str) -> (r: Option<&'a serde_json::Value>)
    ensures
        r is Some <==> model_get(json_contents(*v), key@) is Some,
        r matches Some(x) ==> model_get(json_contents(*v), key@) == Some(json_contents(*x)),
{
    v.get(key)
}

/// `Value::as_str`. Trusted: the text of a string value, `None` otherwise.
#[verifier::external_body]
pub(crate) fn value_as_str<'a>(v: &'a serde_json::Value) -> (r: Option<&'a str>)
    ensures
        r is Some <==> model_as_str(json_contents(*v)) is Some,
        r matches Some(s) ==> model_as_str(json_contents(*v)) == Some(s@),
{
    v.as_str()
}

/// `Value::as_u64`. Trusted: the integer a number holds when it is a
/// non-negative integer that fits in `u64`, `None` otherwise.
#[verifier::external_body]
pub(crate) fn value_as_u64(v: &serde_json::Value) -> (r: Option<u64>)
    ensures
        r == model_as_u64(json_contents(*v)),
{
    v.as_u64()
}

/// `Value::as_bool`. Trusted: the boolean of a `true`/`false` value.
#[verifier::external_body]
pub(crate) fn value_as_bool(v: &serde_json::Value) -> (r: Option<bool>)
    ensures
        r == model_as_bool(json_contents(*v)),
{
    v.as_bool()
}

/// `Value::as_array`. Trusted: the elements of an array value, in order.
#[verifier::external_body]
pub(crate) fn value_as_array<'a>(v: &'a serde_json::Value) -> (r: Option<&'a Vec<serde_json::Value>>)
    ensures
        r is Some <==> model_as_array(json_contents(*v)) is Some,
        r matches Some(a) ==> model_as_array(json_contents(*v)) == Some(
            a@.map_values(|x: serde_json::Value| json_contents(x)),
        ),
{
    v.as_array()
}

} // verus!
