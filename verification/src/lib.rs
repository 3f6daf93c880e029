//! Conversion of flat JSON translation files into line-based `key=value`
//! localization files.
//!
//! A translation file is one JSON object. Each of its entries maps a key to
//! a string, or to an object that holds the string under the empty key. The
//! converter writes one line for each entry: the key, normalized into an
//! identifier and renamed by a fixed table, an `=`, and the string with its
//! placeholder markers rewritten.
//!
//! - [`normalize`] turns a raw key into an identifier.
//! - [`rebind`] holds the renaming table.
//! - [`value`] rewrites a value.
//! - [`convert`] turns the entries of a document into lines.
//! - [`json`] reads a document from JSON text.
//! - [`batch`] computes what a run over a directory writes and reports.
//! - [`text`] and [`document`] hold what the others share.
//!
//! Every function is verified against its contract, but for what is taken
//! on trust of code outside the library: that `String::push` appends a
//! character, and four small functions that call the Unicode lowercase
//! mapping and the lossy decoding of UTF-8 of the standard library, the
//! parsing of JSON text by `serde_json`, and the reading of the value that
//! it gives. The results of these four are named, not described: a contract
//! that speaks of `unicode_lowercase`, `lossy_utf8` or `parsed_json` says
//! that the result is what that code gives, and what the library does with
//! it.

pub mod batch;
pub mod convert;
pub mod document;
pub mod json;
pub mod normalize;
pub mod rebind;
pub mod text;
pub mod value;
