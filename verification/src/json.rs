//! Trusted access to the JSON object held on one line of the event stream.
//!
//! The decoder reads a line only through the few functions below.  Each one
//! parses the line with serde_json and extracts one plainly typed fact about
//! the top-level object.  The uninterpreted spec functions give each result a
//! name, so that everything read from a line is a fixed function of the line
//! text: decoding the same text twice gives the same facts.

use vstd::prelude::*;

verus! {

/// The string value at a top-level key of the JSON object on the line; absent
/// when the line is not valid JSON, the key is missing, or the value there is
/// not a string.
pub uninterp spec fn json_str_field(line: Seq<char>, key: Seq<char>) -> Option<Seq<char>>;

/// The decimal text of the number at a top-level key of the JSON object on
/// the line; absent when the line is not valid JSON, the key is missing, or
/// the value there is not a number.
pub uninterp spec fn json_num_field(line: Seq<char>, key: Seq<char>) -> Option<Seq<char>>;

/// The unsigned 64-bit integer at a top-level key of the JSON object on the
/// line; absent when the line is not valid JSON, the key is missing, or the
/// value there is not an integer in that range.
pub uninterp spec fn json_uint_field(line: Seq<char>, key: Seq<char>) -> Option<u64>;

/// Whether the line is valid JSON whose top level has no such key, or holds
/// null there; false when the line is not valid JSON.
pub uninterp spec fn json_field_absent(line: Seq<char>, key: Seq<char>) -> bool;

/// The parse error text for a line that is not valid JSON; absent when the
/// line parses.
pub uninterp spec fn json_error_text(line: Seq<char>) -> Option<Seq<char>>;

/// Relies on serde_json's `from_str::<Value>`, `Value::get` and
/// `Value::as_str`: the string at a top-level key of the JSON object on the
/// line.
#[verifier::external_body]
pub(crate) fn get_str_field(line: &str, key: &str) -> (r: Option<String>)
    ensures
        r.deep_view() == json_str_field(line@, key@),
{
    let value: serde_json::Value = match serde_json::from_str(line) {
        Ok(value) => value,
        Err(_) => return None,
    };
    let field = match value.get(key) {
        Some(field) => field,
        None => return None,
    };
    match field.as_str() {
        Some(text) => Some(text.to_owned()),
        None => None,
    }
}

/// Relies on serde_json's `from_str::<Value>`, `Value::get`,
/// `Value::as_number` and the display form of `Number`, which is plain decimal
/// or exponent notation: the decimal text of the number at a top-level key of
/// the JSON object on the line.
#[verifier::external_body]
pub(crate) fn get_num_field(line: &str, key: &str) -> (r: Option<String>)
    ensures
        r.deep_view() == json_num_field(line@, key@),
{
    let value: serde_json::Value = match serde_json::from_str(line) {
        Ok(value) => value,
        Err(_) => return None,
    };
    let field = match value.get(key) {
        Some(field) => field,
        None => return None,
    };
    match field.as_number() {
        Some(number) => Some(number.to_string()),
        None => None,
    }
}

/// Relies on serde_json's `from_str::<Value>`, `Value::get` and
/// `Value::as_u64`: the unsigned integer at a top-level key of the JSON object
/// on the line.
#[verifier::external_body]
pub(crate) fn get_uint_field(line: &str, key: &str) -> (r: Option<u64>)
    ensures
        r == json_uint_field(line@, key@),
{
    let value: serde_json::Value = match serde_json::from_str(line) {
        Ok(value) => value,
        Err(_) => return None,
    };
    let field = match value.get(key) {
        Some(field) => field,
        None => return None,
    };
    field.as_u64()
}

/// Relies on serde_json's `from_str::<Value>`, `Value::get` and
/// `Value::is_null`: whether the line is valid JSON with the key absent or
/// null at its top level.
#[verifier::external_body]
pub(crate) fn field_absent(line: &str, key: &str) -> (r: bool)
    ensures
        r == json_field_absent(line@, key@),
{
    let value: serde_json::Value = match serde_json::from_str(line) {
        Ok(value) => value,
        Err(_) => return false,
    };
    match value.get(key) {
        Some(field) => field.is_null(),
        None => true,
    }
}

/// Relies on serde_json's `from_str::<Value>` and the display form of its
/// error type: the parse error text of a line that is not valid JSON.
#[verifier::external_body]
pub(crate) fn parse_error_text(line: &str) -> (r: Option<String>)
    ensures
        r.deep_view() == json_error_text(line@),
{
    match serde_json::from_str::<serde_json::Value>(line) {
        Ok(_) => None,
        Err(error) => Some(error.to_string()),
    }
}

} // verus!
