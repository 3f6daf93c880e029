//! The data that a conversion works on: JSON values, translation documents,
//! and the ways in which a conversion fails.

use vstd::prelude::*;

verus! {

/// A JSON value.
#[derive(Debug, PartialEq, Eq)]
pub enum JsonValue {
    /// `null`.
    Null,
    /// `true` or `false`.
    Bool(bool),
    /// A number. Its value plays no part in a translation document and is
    /// not kept.
    Number,
    /// A string.
    Text(String),
    /// An array, with its items in order.
    Array(Vec<JsonValue>),
    /// An object, with its fields in the order of the document.
    Object(Vec<(String, JsonValue)>),
}

/// A translation document: the entries of a JSON object, each a key with its
/// value, in the order of the document.
#[derive(Debug, PartialEq, Eq)]
pub struct Document {
    pub entries: Vec<(String, JsonValue)>,
}

/// The failure of a value that is neither a string nor an object with a
/// string under the empty key.
#[derive(Debug, Clone, Copy, PartialEq, Eq)]
pub struct InvalidValueShape;

/// Why the conversion of a document failed.
#[derive(Debug, PartialEq, Eq)]
pub enum ConvertError {
    /// The text is not valid JSON, or its top level is not an object.
    MalformedInput,
    /// The value under `key` is neither a string nor an object with a string
    /// under the empty key.
    InvalidValueShape { key: String },
}

} // verus!
