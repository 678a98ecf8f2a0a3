//! The JSON values that the conversions read and build.
//!
//! The values themselves are `serde_json`'s, with its feature
//! `preserve_order`: an object keeps its members in the order in which they
//! were put in. What a value holds is described by [`Json`], a mathematical
//! tree, and the functions at the end of this file are the only places where
//! the two meet. Each of them makes one call into `serde_json` or tells the
//! kinds of value apart, and its contract is not proved: it says what that
//! crate's documentation and source say.

use vstd::prelude::*;
use crate::members::{distinct_keys, has_key, put, value_at, without};

verus! {

/// A JSON value of any kind.
pub type JsonValue = serde_json::Value;

/// A JSON object: members under distinct keys, in the order in which they were put in.
pub type JsonObject = serde_json::Map<String, serde_json::Value>;

/// A JSON number.
pub type JsonNumber = serde_json::Number;

/// `serde_json::Value`, as a type whose inside is not looked into.
#[verifier::external_type_specification]
#[verifier::external_body]
pub struct ExValue(serde_json::Value);

/// `serde_json::Map`, as a type whose inside is not looked into.
#[verifier::external_type_specification]
#[verifier::external_body]
#[verifier::reject_recursive_types(K)]
#[verifier::reject_recursive_types(V)]
pub struct ExMap<K, V>(serde_json::Map<K, V>);

/// `serde_json::Number`, as a type whose inside is not looked into.
#[verifier::external_type_specification]
#[verifier::external_body]
pub struct ExNumber(serde_json::Number);

/// What a JSON value holds: nothing, a truth value, a number, a text, a run
/// of values, or members under keys.
pub enum Json {
    Null,
    Bool(bool),
    Number(JsonNumber),
    String(Seq<char>),
    Array(Seq<Json>),
    Object(Seq<(Seq<char>, Json)>),
}

/// The members of an object: pairs of a key and what is stored under it.
pub type Members = Seq<(Seq<char>, Json)>;

/// The tree that a value holds.
pub uninterp spec fn json_of(value: serde_json::Value) -> Json;

/// The members that an object holds, in their order.
pub uninterp spec fn members_of(object: serde_json::Map<String, serde_json::Value>) -> Seq<(Seq<char>, Json)>;

/// The trees that a run of values holds, one for one.
pub open spec fn trees_of(values: Seq<JsonValue>) -> Seq<Json> {
    values.map_values(|value: JsonValue| json_of(value))
}

/// `serde_json::Map::new`: an object without members.
#[verifier::external_body]
pub(crate) fn object_new() -> (object: JsonObject)
    ensures
        members_of(object) == Seq::<(Seq<char>, Json)>::empty(),
{
    serde_json::Map::new()
}

/// `serde_json::Map::insert`, with the order-keeping map behind it: a value
/// put under a key that is there takes the old value's place, one put under a
/// new key goes behind all others.
#[verifier::external_body]
pub(crate) fn object_insert(object: &mut JsonObject, key: String, value: JsonValue)
    ensures
        members_of(*final(object)) == put(members_of(*old(object)), key@, json_of(value)),
{
    object.insert(key, value);
}

/// `serde_json::Map::shift_remove`: takes the member under `key` out and
/// gives its value, or gives `None` and leaves the object alone where no
/// member stands under it. The members behind the one taken move up and keep
/// their order. Keys are distinct, so none is left under `key`.
#[verifier::external_body]
pub(crate) fn object_take(object: &mut JsonObject, key: &str) -> (taken: Option<JsonValue>)
    ensures
        match taken {
            Some(value) => value_at(members_of(*old(object)), key@) == Some(json_of(value)),
            None => value_at(members_of(*old(object)), key@) is None,
        },
        members_of(*final(object)) == without(members_of(*old(object)), key@),
        distinct_keys(members_of(*final(object))),
        !has_key(members_of(*final(object)), key@),
{
    object.shift_remove(key)
}

/// `serde_json::Map::is_empty`: whether the object has no member.
#[verifier::external_body]
pub(crate) fn object_is_empty(object: &JsonObject) -> (empty: bool)
    ensures
        empty == (members_of(*object).len() == 0),
{
    object.is_empty()
}

/// `serde_json::Map::iter`, walked from end to end: a copy of the key and of
/// the value of each member, in the object's order.
#[verifier::external_body]
pub(crate) fn object_members(object: &JsonObject) -> (members: Vec<(String, JsonValue)>)
    ensures
        members@.len() == members_of(*object).len(),
        forall|i: int|
            0 <= i < members@.len() ==> members_of(*object)[i] == (
                (#[trigger] members@[i]).0@,
                json_of(members@[i].1),
            ),
{
    object.iter().map(|(key, value)| (key.clone(), value.clone())).collect()
}

/// The match on `serde_json::Value::Object`: the object inside the value, or
/// the value handed back as it came where it is of another kind.
#[verifier::external_body]
pub(crate) fn into_object(value: JsonValue) -> (outcome: Result<JsonObject, JsonValue>)
    ensures
        match outcome {
            Ok(object) => json_of(value) == Json::Object(members_of(object)),
            Err(other) => other == value && !(json_of(value) is Object),
        },
{
    match value {
        serde_json::Value::Object(object) => Ok(object),
        other => Err(other),
    }
}

/// The match on `serde_json::Value::Array`: the items inside the value, or
/// the value handed back as it came where it is of another kind.
#[verifier::external_body]
pub(crate) fn into_array(value: JsonValue) -> (outcome: Result<Vec<JsonValue>, JsonValue>)
    ensures
        match outcome {
            Ok(items) => json_of(value) == Json::Array(trees_of(items@)),
            Err(other) => other == value && !(json_of(value) is Array),
        },
{
    match value {
        serde_json::Value::Array(items) => Ok(items),
        other => Err(other),
    }
}

/// The match on `serde_json::Value::String`: the text inside the value, or
/// the value handed back as it came where it is of another kind.
#[verifier::external_body]
pub(crate) fn into_string(value: JsonValue) -> (outcome: Result<String, JsonValue>)
    ensures
        match outcome {
            Ok(text) => json_of(value) == Json::String(text@),
            Err(other) => other == value && !(json_of(value) is String),
        },
{
    match value {
        serde_json::Value::String(text) => Ok(text),
        other => Err(other),
    }
}

/// The match on `serde_json::Value::Number`: the number inside the value, or
/// the value handed back as it came where it is of another kind.
#[verifier::external_body]
pub(crate) fn into_number(value: JsonValue) -> (outcome: Result<JsonNumber, JsonValue>)
    ensures
        match outcome {
            Ok(number) => json_of(value) == Json::Number(number),
            Err(other) => other == value && !(json_of(value) is Number),
        },
{
    match value {
        serde_json::Value::Number(number) => Ok(number),
        other => Err(other),
    }
}

/// `serde_json::Value::Object`: the value that is this object.
#[verifier::external_body]
pub(crate) fn from_object(object: JsonObject) -> (value: JsonValue)
    ensures
        json_of(value) == Json::Object(members_of(object)),
{
    serde_json::Value::Object(object)
}

/// `serde_json::Value::Array`: the value that is the array of these items.
#[verifier::external_body]
pub(crate) fn from_array(items: Vec<JsonValue>) -> (value: JsonValue)
    ensures
        json_of(value) == Json::Array(trees_of(items@)),
{
    serde_json::Value::Array(items)
}

/// `serde_json::Value::String`: the value that is this text.
#[verifier::external_body]
pub(crate) fn from_string(text: String) -> (value: JsonValue)
    ensures
        json_of(value) == Json::String(text@),
{
    serde_json::Value::String(text)
}

/// `serde_json::Value::Number`: the value that is this number.
#[verifier::external_body]
pub(crate) fn from_number(number: JsonNumber) -> (value: JsonValue)
    ensures
        json_of(value) == Json::Number(number),
{
    serde_json::Value::Number(number)
}

/// `Clone::clone` of `serde_json::Value`: a value that holds the same tree.
pub assume_specification[ <serde_json::Value as Clone>::clone ](value: &serde_json::Value) -> (copy: serde_json::Value)
    ensures
        json_of(copy) == json_of(*value),
;

/// `Clone::clone` of `serde_json::Map`: an object that holds the same members
/// in the same order.
pub assume_specification[ <serde_json::Map<String, serde_json::Value> as Clone>::clone ](
    object: &serde_json::Map<String, serde_json::Value>,
) -> (copy: serde_json::Map<String, serde_json::Value>)
    ensures
        members_of(copy) == members_of(*object),
;

/// `Clone::clone` of `serde_json::Number`: the same number.
pub assume_specification[ <serde_json::Number as Clone>::clone ](number: &serde_json::Number) -> (copy: serde_json::Number)
    ensures
        copy == *number,
;

} // verus!
