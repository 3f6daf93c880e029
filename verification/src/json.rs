//! Reading JSON text into a translation document.
//!
//! The text is parsed by `serde_json`. What it parses to is carried over,
//! node for node, into a [`JsonValue`], on which the rest of the library
//! works.

use crate::convert::{convert, converted, is_outcome};
use crate::document::{ConvertError, Document, JsonValue};
use crate::rebind::RebindTable;
use vstd::prelude::*;

verus! {

/// `serde_json::Value`, a parsed JSON value. Nothing is known of what is
/// inside one but through `value_content`.
#[verifier::external_type_specification]
#[verifier::external_body]
pub struct ExParsedValue(serde_json::Value);

/// `serde_json::Error`, the error of a failed parse. Nothing is read from
/// it.
#[verifier::external_type_specification]
#[verifier::external_body]
pub struct ExParseError(serde_json::Error);

/// What a parsed value of `serde_json` holds: its nodes, each as the
/// `JsonValue` of the same kind, with the items of an array and the fields of
/// an object in the order in which the value holds them.
pub uninterp spec fn value_content(value: serde_json::Value) -> JsonValue;

/// The value that `text` parses to as JSON, if it is valid JSON.
pub uninterp spec fn parsed_json(text: Seq<char>) -> Option<JsonValue>;

/// `serde_json::from_str`, asked for a `serde_json::Value`, parses a text as
/// one JSON value and fails where the text is not one. Nothing of this is
/// proved. The contract claims that the outcome depends on the text alone:
/// whether it fails, and what the value holds, is what `parsed_json` says of
/// the text.
#[verifier::external_body]
fn parse_value(text: &str) -> (r: Result<serde_json::Value, serde_json::Error>)
    ensures
        match r {
            Ok(value) => parsed_json(text@) == Some(value_content(value)),
            Err(_) => parsed_json(text@) is None,
        },
{
    serde_json::from_str(text)
}

/// Carries a `serde_json::Value` over into a `JsonValue`, variant for
/// variant: a number loses its value, a string is copied, and the items of
/// an array and the fields of an object, which `serde_json::Map::iter`
/// yields in the order in which the map holds them, are carried over one by
/// one. Nothing of this is proved. The contract claims that the result
/// depends on the value alone, and gives it the name `value_content`.
#[verifier::external_body]
fn lift(value: &serde_json::Value) -> (r: JsonValue)
    ensures
        r == value_content(*value),
{
    match value {
        serde_json::Value::Null => JsonValue::Null,
        serde_json::Value::Bool(b) => JsonValue::Bool(*b),
        serde_json::Value::Number(_) => JsonValue::Number,
        serde_json::Value::String(s) => JsonValue::Text(s.clone()),
        serde_json::Value::Array(items) => JsonValue::Array(items.iter().map(lift).collect()),
        serde_json::Value::Object(fields) => JsonValue::Object(
            fields.iter().map(|(k, v)| (k.clone(), lift(v))).collect(),
        ),
    }
}

/// The document that a JSON value is: the fields of an object. No other
/// value is a document.
pub open spec fn document_entries(value: Option<JsonValue>) -> Option<Seq<(String, JsonValue)>> {
    match value {
        Some(JsonValue::Object(fields)) => Some(fields@),
        _ => None,
    }
}

/// Parses a text as JSON.
pub fn parse_json(text: &str) -> (r: Result<JsonValue, ConvertError>)
    ensures
        match parsed_json(text@) {
            Some(value) => r == Ok::<JsonValue, ConvertError>(value),
            None => r matches Err(ConvertError::MalformedInput),
        },
{
    match parse_value(text) {
        Ok(value) => Ok(lift(&value)),
        Err(_) => Err(ConvertError::MalformedInput),
    }
}

/// Takes a JSON value as a translation document. Fails with
/// `MalformedInput` where the value is not an object.
pub fn document_of(value: JsonValue) -> (r: Result<Document, ConvertError>)
    ensures
        match document_entries(Some(value)) {
            Some(entries) => r is Ok && r->Ok_0.entries@ == entries,
            None => r matches Err(ConvertError::MalformedInput),
        },
{
    match value {
        JsonValue::Object(fields) => Ok(Document { entries: fields }),
        _ => Err(ConvertError::MalformedInput),
    }
}

/// Parses a text as a translation document. Fails with `MalformedInput`
/// where the text is not valid JSON or its top level is not an object.
pub fn parse_document(text: &str) -> (r: Result<Document, ConvertError>)
    ensures
        match document_entries(parsed_json(text@)) {
            Some(entries) => r is Ok && r->Ok_0.entries@ == entries,
            None => r matches Err(ConvertError::MalformedInput),
        },
{
    match parse_json(text) {
        Ok(value) => document_of(value),
        Err(e) => Err(e),
    }
}

/// Converts the text of a translation document into its output lines.
///
/// Fails with `MalformedInput` where the text is no document, and else as
/// [`convert`] does on the document that the text parses to.
pub fn convert_text(text: &str, table: &RebindTable) -> (r: Result<Vec<String>, ConvertError>)
    ensures
        match document_entries(parsed_json(text@)) {
            Some(entries) => is_outcome(r, converted(entries, table@)),
            None => r matches Err(ConvertError::MalformedInput),
        },
{
    match parse_document(text) {
        Ok(document) => convert(&document, table),
        Err(e) => Err(e),
    }
}

} // verus!
