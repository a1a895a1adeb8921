//! Turning a value into YAML text and YAML text into a value.

use crate::error::InputError;
use crate::json::{document_to_value, document_value};
use crate::value::{string_value, text_of};
use agent_stream_kit::AgentValue;
use vstd::prelude::*;

verus! {

/// The error of the YAML reader and writer.
#[verifier::external_type_specification]
#[verifier::external_body]
pub struct ExYamlError(serde_yaml_ng::Error);

/// The YAML text that `serde_yaml_ng::to_string` writes for a value, or
/// `None` where it fails.
pub uninterp spec fn yaml_text(v: AgentValue) -> Option<Seq<char>>;

/// The document that `serde_yaml_ng::from_str` reads from a text, or `None`
/// where the text is not YAML that a document can hold.
pub uninterp spec fn yaml_document(text: Seq<char>) -> Option<serde_json::Value>;

/// `serde_yaml_ng::to_string` on a value.
#[verifier::external_body]
fn write_yaml(v: &AgentValue) -> (r: Result<String, serde_yaml_ng::Error>)
    ensures
        match r {
            Ok(text) => yaml_text(*v) == Some(text@),
            Err(_) => yaml_text(*v).is_none(),
        },
{
    serde_yaml_ng::to_string(v)
}

/// `serde_yaml_ng::from_str` into a document.
#[verifier::external_body]
fn read_yaml(text: &str) -> (r: Result<serde_json::Value, serde_yaml_ng::Error>)
    ensures
        match r {
            Ok(document) => yaml_document(text@) == Some(document),
            Err(_) => yaml_document(text@).is_none(),
        },
{
    serde_yaml_ng::from_str(text)
}

/// The message of a YAML error, as its `Display` writes it.
#[verifier::external_body]
fn yaml_error_text(e: &serde_yaml_ng::Error) -> (r: String) {
    e.to_string()
}

/// Writes `value` as YAML and gives the text as a string value.
pub fn to_yaml(value: &AgentValue) -> (r: Result<AgentValue, InputError>)
    ensures
        match yaml_text(*value) {
            Some(text) => r is Ok && text_of(r->Ok_0) == Some(text),
            None => r is Err && r->Err_0 is Malformed,
        },
{
    match write_yaml(value) {
        Ok(text) => Ok(string_value(text)),
        Err(e) => Err(InputError::Malformed(yaml_error_text(&e))),
    }
}

/// Reads the YAML text that the string value `value` holds.
///
/// A value that is no string is rejected, and so is a text that is not
/// YAML, or whose document has no value.
pub fn from_yaml(value: &AgentValue) -> (r: Result<AgentValue, InputError>)
    ensures
        match text_of(*value) {
            None => r == Err::<AgentValue, InputError>(InputError::NotAString),
            Some(text) => match yaml_document(text) {
                None => r is Err && r->Err_0 is Malformed,
                Some(document) => match document_value(document) {
                    Some(read) => r == Ok::<AgentValue, InputError>(read),
                    None => r is Err && r->Err_0 is Malformed,
                },
            },
        },
{
    let text = match value.as_str() {
        Some(text) => text,
        None => {
            return Err(InputError::NotAString);
        },
    };
    match read_yaml(text) {
        Ok(document) => document_to_value(document),
        Err(e) => Err(InputError::Malformed(yaml_error_text(&e))),
    }
}

} // verus!
