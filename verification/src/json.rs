//! Turning a value into JSON text and JSON text into a value.

use crate::error::InputError;
use crate::value::{string_value, text_of};
use agent_stream_kit::{AgentError, AgentValue};
use vstd::prelude::*;

verus! {

/// A parsed JSON document.
#[verifier::external_type_specification]
#[verifier::external_body]
pub struct ExJsonValue(serde_json::Value);

/// The error of the JSON reader and writer.
#[verifier::external_type_specification]
#[verifier::external_body]
pub struct ExJsonError(serde_json::Error);

/// The indented JSON text that `serde_json::to_string_pretty` writes for a
/// value, or `None` where it fails.
pub uninterp spec fn pretty_json(v: AgentValue) -> Option<Seq<char>>;

/// The document that `serde_json::from_str` reads from a text, or `None`
/// where the text is not JSON.
pub uninterp spec fn json_document(text: Seq<char>) -> Option<serde_json::Value>;

/// The value that `AgentValue::from_json` makes of a document, or `None`
/// where it fails. Values are taken as `AgentValue`'s own equality sees
/// them.
pub uninterp spec fn document_value(document: serde_json::Value) -> Option<AgentValue>;

/// `serde_json::to_string_pretty` on a value.
#[verifier::external_body]
fn write_pretty_json(v: &AgentValue) -> (r: Result<String, serde_json::Error>)
    ensures
        match r {
            Ok(text) => pretty_json(*v) == Some(text@),
            Err(_) => pretty_json(*v).is_none(),
        },
{
    serde_json::to_string_pretty(v)
}

/// `serde_json::from_str` into a document.
#[verifier::external_body]
fn read_json(text: &str) -> (r: Result<serde_json::Value, serde_json::Error>)
    ensures
        match r {
            Ok(document) => json_document(text@) == Some(document),
            Err(_) => json_document(text@).is_none(),
        },
{
    serde_json::from_str(text)
}

/// `AgentValue::from_json` turns a document into a value.
pub assume_specification[ AgentValue::from_json ](document: serde_json::Value) -> (r: Result<AgentValue, AgentError>)
    ensures
        match r {
            Ok(value) => document_value(document) == Some(value),
            Err(_) => document_value(document).is_none(),
        },
;

/// The message of a JSON error, as its `Display` writes it.
#[verifier::external_body]
fn json_error_text(e: &serde_json::Error) -> (r: String) {
    e.to_string()
}

/// The message of a runtime error, as its `Display` writes it.
#[verifier::external_body]
fn agent_error_text(e: &AgentError) -> (r: String) {
    e.to_string()
}

/// The value that a document stands for, as the result of a conversion.
pub fn document_to_value(document: serde_json::Value) -> (r: Result<AgentValue, InputError>)
    ensures
        match document_value(document) {
            Some(value) => r == Ok::<AgentValue, InputError>(value),
            None => r is Err && r->Err_0 is Malformed,
        },
{
    match AgentValue::from_json(document) {
        Ok(value) => Ok(value),
        Err(e) => Err(InputError::Malformed(agent_error_text(&e))),
    }
}

/// Writes `value` as indented JSON and gives the text as a string value.
pub fn to_json(value: &AgentValue) -> (r: Result<AgentValue, InputError>)
    ensures
        match pretty_json(*value) {
            Some(text) => r is Ok && text_of(r->Ok_0) == Some(text),
            None => r is Err && r->Err_0 is Malformed,
        },
{
    match write_pretty_json(value) {
        Ok(text) => Ok(string_value(text)),
        Err(e) => Err(InputError::Malformed(json_error_text(&e))),
    }
}

/// Reads the JSON text that the string value `value` holds.
///
/// A value that is no string is rejected, and so is a text that is not
/// JSON, or whose document has no value.
pub fn from_json(value: &AgentValue) -> (r: Result<AgentValue, InputError>)
    ensures
        match text_of(*value) {
            None => r == Err::<AgentValue, InputError>(InputError::NotAString),
            Some(text) => match json_document(text) {
                None => r is Err && r->Err_0 is Malformed,
                Some(document) => match document_value(document) {
                    Some(read) => r == Ok::<AgentValue, InputError>(read),
                    None => r is Err && r->Err_0 is Malformed,
                },
            },
        },
{
    let text = match value.as_str() {
        Some(text) => text,
        None => {
            return Err(InputError::NotAString);
        },
    };
    match read_json(text) {
        Ok(document) => document_to_value(document),
        Err(e) => Err(InputError::Malformed(json_error_text(&e))),
    }
}

} // verus!
