//! JSON values as the loader and the detail card read them.

use vstd::prelude::*;
use crate::text::{decimal_i64, decimal_text};

verus! {

/// `serde_json::Value`: a JSON value as the parser gives it.
#[verifier::external_type_specification]
#[verifier::external_body]
pub struct ExSerdeValue(serde_json::Value);

/// A JSON number: a signed 64-bit integer, or any other number by its
/// text.
#[derive(Debug, PartialEq)]
pub enum JsonNumber {
    Integer(i64),
    Other(String),
}

/// A JSON value. An object holds its members as a list of names and
/// values; a parser gives them in the order of their names.
#[derive(Debug, PartialEq)]
pub enum JsonValue {
    Null,
    Bool(bool),
    Number(JsonNumber),
    String(String),
    Array(Vec<JsonValue>),
    Object(Vec<(String, JsonValue)>),
}

/// The value that a JSON text stands for, if it is one JSON value.
pub uninterp spec fn parsed_json(text: Seq<char>) -> Option<JsonValue>;

/// The values that a text of JSON values, one after another, stands for,
/// if it is such a text.
pub uninterp spec fn parsed_json_stream(text: Seq<char>) -> Option<Vec<JsonValue>>;

/// The indented text of a JSON value.
pub uninterp spec fn pretty_json(value: JsonValue) -> Seq<char>;

/// The text of a JSON value on one line.
pub uninterp spec fn compact_json(value: JsonValue) -> Seq<char>;

/// The parts of a `serde_json::Value`, moved into a [`JsonValue`]: one
/// variant for each; a number by `Number::as_i64` where that gives one,
/// else by its text; the members of an object in the order of its map.
#[verifier::external_body]
fn from_serde(value: &serde_json::Value) -> JsonValue {
    match value {
        serde_json::Value::Null => JsonValue::Null,
        serde_json::Value::Bool(b) => JsonValue::Bool(*b),
        serde_json::Value::Number(n) => JsonValue::Number(match n.as_i64() {
            Some(i) => JsonNumber::Integer(i),
            None => JsonNumber::Other(n.to_string()),
        }),
        serde_json::Value::String(s) => JsonValue::String(s.clone()),
        serde_json::Value::Array(a) => JsonValue::Array(a.iter().map(from_serde).collect()),
        serde_json::Value::Object(o) => JsonValue::Object(
            o.iter().map(|(k, v)| (k.clone(), from_serde(v))).collect(),
        ),
    }
}

/// The parts of a [`JsonValue`], moved into a `serde_json::Value`: one
/// variant for each; a number that is no integer by reading its text.
#[verifier::external_body]
fn to_serde(value: &JsonValue) -> serde_json::Value {
    match value {
        JsonValue::Null => serde_json::Value::Null,
        JsonValue::Bool(b) => serde_json::Value::Bool(*b),
        JsonValue::Number(JsonNumber::Integer(i)) => serde_json::Value::from(*i),
        JsonValue::Number(JsonNumber::Other(t)) => serde_json::from_str(t).unwrap_or_default(),
        JsonValue::String(s) => serde_json::Value::String(s.clone()),
        JsonValue::Array(a) => serde_json::Value::Array(a.iter().map(to_serde).collect()),
        JsonValue::Object(o) => serde_json::Value::Object(
            o.iter().map(|(k, v)| (k.clone(), to_serde(v))).collect(),
        ),
    }
}

/// `serde_json::from_str`: the value that the text stands for, or nothing
/// where the text is not one JSON value.
#[verifier::external_body]
pub(crate) fn parse_json(text: &str) -> (r: Option<JsonValue>)
    ensures
        r == parsed_json(text@),
{
    match serde_json::from_str::<serde_json::Value>(text) {
        Ok(value) => Some(from_serde(&value)),
        Err(_) => None,
    }
}

/// `serde_json::Deserializer::from_str` and its `into_iter`: the values of
/// a text that holds JSON values one after another, or nothing where some
/// part of the text is no JSON value.
#[verifier::external_body]
pub(crate) fn parse_json_stream(text: &str) -> (r: Option<Vec<JsonValue>>)
    ensures
        r == parsed_json_stream(text@),
{
    let mut values = Vec::new();
    for item in serde_json::Deserializer::from_str(text).into_iter::<serde_json::Value>() {
        match item {
            Ok(value) => values.push(from_serde(&value)),
            Err(_) => return None,
        }
    }
    Some(values)
}

/// `serde_json::to_string_pretty`: the indented text of the value, the
/// members of every object in the order of their names.
#[verifier::external_body]
pub fn to_pretty_json(value: &JsonValue) -> (text: String)
    ensures
        text@ == pretty_json(*value),
{
    match serde_json::to_string_pretty(&to_serde(value)) {
        Ok(text) => text,
        Err(_) => String::new(),
    }
}

/// `serde_json::to_string`: the text of the value on one line, the
/// members of every object in the order of their names.
#[verifier::external_body]
pub(crate) fn to_compact_json(value: &JsonValue) -> (text: String)
    ensures
        text@ == compact_json(*value),
{
    match serde_json::to_string(&to_serde(value)) {
        Ok(text) => text,
        Err(_) => String::new(),
    }
}

/// The text of a JSON number.
pub open spec fn number_text(number: JsonNumber) -> Seq<char> {
    match number {
        JsonNumber::Integer(i) => decimal_text(i as int),
        JsonNumber::Other(text) => text@,
    }
}

impl JsonNumber {
    /// The text of the number.
    pub fn to_string(&self) -> (text: String)
        ensures
            text@ == number_text(*self),
    {
        match self {
            JsonNumber::Integer(i) => decimal_i64(*i),
            JsonNumber::Other(text) => text.clone(),
        }
    }
}

} // verus!
