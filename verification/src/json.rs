//! JSON documents, as `serde_json` reads, holds and writes them.
//!
//! A document is a `serde_json::Value`. What a value holds is opaque to the
//! proofs: each accessor and constructor of `serde_json` that the library
//! calls has a name here for what it returns, and the contracts of the
//! library speak of those names.

use serde_json::Value;
use vstd::prelude::*;

verus! {

#[verifier::external_type_specification]
#[verifier::external_body]
pub struct ExValue(serde_json::Value);

/// The document that `serde_json::from_str` reads from `text`, or `None`
/// where it reports an error.
pub uninterp spec fn json_document(text: Seq<char>) -> Option<Value>;

/// The member of the object `v` under `key`; `None` where `v` is no object
/// or has no such member.
pub uninterp spec fn json_member(v: Value, key: Seq<char>) -> Option<Value>;

/// The elements of the array `v`; `None` where `v` is no array.
pub uninterp spec fn json_items(v: Value) -> Option<Seq<Value>>;

/// The text of the string `v`; `None` where `v` is no string.
pub uninterp spec fn json_text(v: Value) -> Option<Seq<char>>;

/// The number `v` as an `i64`; `None` where `v` is no number, no integer or
/// out of range.
pub uninterp spec fn json_integer(v: Value) -> Option<i64>;

/// The string value that holds `text`.
pub uninterp spec fn json_of_text(text: Seq<char>) -> Value;

/// The array value with the elements `items`.
pub uninterp spec fn json_of_items(items: Seq<Value>) -> Value;

/// The object value built from `members`, given as keys and values in
/// order.
pub uninterp spec fn json_of_members(members: Seq<(Seq<char>, Value)>) -> Value;

/// The compact JSON text of `v`, or `None` where `serde_json::to_string`
/// reports an error.
pub uninterp spec fn json_rendering(v: Value) -> Option<Seq<char>>;

/// Keys by their text, values as they are.
pub open spec fn member_views(members: Seq<(String, Value)>) -> Seq<(Seq<char>, Value)> {
    members.map_values(|m: (String, Value)| (m.0@, m.1))
}

/// Wraps `serde_json::from_str::<Value>`: the document read from `text`,
/// `None` for text that is not one JSON document.
#[verifier::external_body]
pub(crate) fn parse_document(text: &str) -> (r: Option<Value>)
    ensures
        r == json_document(text@),
{
    serde_json::from_str::<Value>(text).ok()
}

/// Wraps `Value::get` with a string key: the member of an object under
/// that key.
#[verifier::external_body]
pub(crate) fn member<'a>(v: &'a Value, key: &str) -> (r: Option<&'a Value>)
    ensures
        match r {
            Some(x) => json_member(*v, key@) == Some(*x),
            None => json_member(*v, key@).is_none(),
        },
{
    v.get(key)
}

/// Wraps `Value::as_array`: the elements of an array.
#[verifier::external_body]
pub(crate) fn items<'a>(v: &'a Value) -> (r: Option<&'a Vec<Value>>)
    ensures
        match r {
            Some(x) => json_items(*v) == Some(x@),
            None => json_items(*v).is_none(),
        },
{
    v.as_array()
}

/// Wraps `Value::as_str`: the text of a string.
#[verifier::external_body]
pub(crate) fn text<'a>(v: &'a Value) -> (r: Option<&'a str>)
    ensures
        match r {
            Some(x) => json_text(*v) == Some(x@),
            None => json_text(*v).is_none(),
        },
{
    v.as_str()
}

/// Wraps `Value::as_i64`: an integer number that fits in `i64`.
#[verifier::external_body]
pub(crate) fn integer(v: &Value) -> (r: Option<i64>)
    ensures
        r == json_integer(*v),
{
    v.as_i64()
}

/// Wraps the variant `Value::String`.
#[verifier::external_body]
pub(crate) fn text_value(s: String) -> (v: Value)
    ensures
        v == json_of_text(s@),
{
    Value::String(s)
}

/// Wraps the variant `Value::Array`.
#[verifier::external_body]
pub(crate) fn array_value(items: Vec<Value>) -> (v: Value)
    ensures
        v == json_of_items(items@),
{
    Value::Array(items)
}

/// Wraps the variant `Value::Object`, over the `serde_json::Map` collected
/// from `members`.
#[verifier::external_body]
pub(crate) fn object_value(members: Vec<(String, Value)>) -> (v: Value)
    ensures
        v == json_of_members(member_views(members@)),
{
    Value::Object(members.into_iter().collect())
}

/// Wraps `serde_json::to_string` on a `Value`.
#[verifier::external_body]
pub(crate) fn render(v: &Value) -> (r: Option<String>)
    ensures
        match r {
            Some(s) => json_rendering(*v) == Some(s@),
            None => json_rendering(*v).is_none(),
        },
{
    serde_json::to_string(v).ok()
}

} // verus!
