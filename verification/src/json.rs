//! JSON documents as the corpus reader sees them, and the calls into the JSON
//! parser that produce them.

use crate::error::IngestError;
use vstd::prelude::*;

verus! {

/// A JSON value. Of a number only its presence is kept: the corpus holds none
/// that is read.
#[derive(Debug)]
pub enum Json {
    Null,
    Bool(bool),
    Number,
    Text(String),
    Array(Vec<Json>),
    Object(Vec<(String, Json)>),
}

/// `serde_json::Value`, a parsed document.
#[verifier::external_type_specification]
#[verifier::external_body]
pub struct ExValue(serde_json::Value);

/// `serde_json::Error`, why a text is no JSON document.
#[verifier::external_type_specification]
#[verifier::external_body]
pub struct ExError(serde_json::Error);

/// What a parsed document holds, value by value: the members of an object
/// in the order in which the parser hands them out, each name once.
pub uninterp spec fn held(value: serde_json::Value) -> Json;

/// The document that a text is read as; nothing for a text that is no JSON
/// document.
pub uninterp spec fn json_document(text: Seq<char>) -> Option<Json>;

/// `serde_json::from_str` at the type `serde_json::Value`: the document that
/// the text holds, or the parser's error. The same text always gives the same
/// outcome.
#[verifier::external_body]
pub(crate) fn parse_value(text: &str) -> (parsed: Result<serde_json::Value, serde_json::Error>)
    ensures
        match parsed {
            Ok(value) => json_document(text@) == Some(held(value)),
            Err(_) => json_document(text@) is None,
        },
{
    serde_json::from_str::<serde_json::Value>(text)
}

/// Moves a `serde_json::Value` into a `Json`, variant by variant.
#[verifier::external_body]
pub(crate) fn unpack(value: serde_json::Value) -> (json: Json)
    ensures
        json == held(value),
{
    match value {
        serde_json::Value::Null => Json::Null,
        serde_json::Value::Bool(flag) => Json::Bool(flag),
        serde_json::Value::Number(_) => Json::Number,
        serde_json::Value::String(text) => Json::Text(text),
        serde_json::Value::Array(items) => Json::Array(items.into_iter().map(unpack).collect()),
        serde_json::Value::Object(members) => Json::Object(
            members.into_iter().map(|(name, member)| (name, unpack(member))).collect(),
        ),
    }
}

/// Reads a text as a JSON document.
pub fn read_json(text: &str) -> (read: Result<Json, IngestError>)
    ensures
        read == match json_document(text@) {
            Some(json) => Ok::<Json, IngestError>(json),
            None => Err::<Json, IngestError>(IngestError::MalformedRecord),
        },
{
    match parse_value(text) {
        Ok(value) => Ok(unpack(value)),
        Err(_) => Err(IngestError::MalformedRecord),
    }
}

} // verus!
