//! Reading JSON documents with `serde_json`.
//!
//! The parser and the lookups are `serde_json`'s own. What each returns is
//! given a name here, so that the functions built on them can say exactly
//! what they return. Nothing is proved of the five calls themselves.

use vstd::prelude::*;
use crate::entity::optional_text;

verus! {

/// `serde_json::Value`, a parsed JSON document or a part of one.
#[verifier::external_type_specification]
#[verifier::external_body]
pub struct ExJsonValue(serde_json::Value);

/// The document that `serde_json::from_str` reads from a text; `None` when it
/// reports an error.
pub uninterp spec fn json_document(text: Seq<char>) -> Option<serde_json::Value>;

/// The part of a document that `Value::pointer` finds at a JSON pointer;
/// `None` when the pointer leads nowhere.
pub uninterp spec fn json_at(document: serde_json::Value, pointer: Seq<char>) -> Option<
    serde_json::Value,
>;

/// The string that `Value::as_str` finds in a value; `None` when the value is
/// not a string.
pub uninterp spec fn json_text(value: serde_json::Value) -> Option<Seq<char>>;

/// The elements that `Value::as_array` finds in a value; `None` when the
/// value is not an array.
pub uninterp spec fn json_elements(value: serde_json::Value) -> Option<Seq<serde_json::Value>>;

/// The number that `Value::as_u64` finds in a value; `None` when the value is
/// not an integer that a `u64` holds.
pub uninterp spec fn json_number(value: serde_json::Value) -> Option<u64>;

/// The string at a JSON pointer of a document.
pub open spec fn json_string(document: serde_json::Value, pointer: Seq<char>) -> Option<Seq<char>> {
    match json_at(document, pointer) {
        Some(value) => json_text(value),
        None => None,
    }
}

/// The elements of the array at a JSON pointer of a document.
pub open spec fn json_items(document: serde_json::Value, pointer: Seq<char>) -> Option<
    Seq<serde_json::Value>,
> {
    match json_at(document, pointer) {
        Some(value) => json_elements(value),
        None => None,
    }
}

/// The non-negative integer at a JSON pointer of a document.
pub open spec fn json_count(document: serde_json::Value, pointer: Seq<char>) -> Option<u64> {
    match json_at(document, pointer) {
        Some(value) => json_number(value),
        None => None,
    }
}

/// The first element of the array at a JSON pointer of a document; `None`
/// when there is no array at the pointer, or the array is empty.
pub open spec fn json_first(document: serde_json::Value, pointer: Seq<char>) -> Option<
    serde_json::Value,
> {
    match json_items(document, pointer) {
        Some(items) => if items.len() > 0 {
            Some(items[0])
        } else {
            None
        },
        None => None,
    }
}

/// `serde_json::from_str` for a `Value`: the document, or `None` when the text
/// is not one JSON value. The result depends on the text alone.
#[verifier::external_body]
pub(crate) fn parse_json(text: &str) -> (document: Option<serde_json::Value>)
    ensures
        document == json_document(text@),
{
    serde_json::from_str::<serde_json::Value>(text).ok()
}

/// `Value::pointer`: the part of the document at the JSON pointer. The result
/// depends on the document and the pointer alone.
#[verifier::external_body]
fn value_at<'a>(document: &'a serde_json::Value, pointer: &str) -> (found: Option<
    &'a serde_json::Value,
>)
    ensures
        match found {
            Some(value) => json_at(*document, pointer@) == Some(*value),
            None => json_at(*document, pointer@) is None,
        },
{
    document.pointer(pointer)
}

/// `Value::as_str`, its result copied: the string that the value is.
#[verifier::external_body]
fn text_of(value: &serde_json::Value) -> (text: Option<String>)
    ensures
        optional_text(text) == json_text(*value),
{
    value.as_str().map(|text| text.to_owned())
}

/// `Value::as_array`: the elements of the array that the value is.
#[verifier::external_body]
fn elements_of<'a>(value: &'a serde_json::Value) -> (elements: Option<&'a Vec<serde_json::Value>>)
    ensures
        match elements {
            Some(items) => json_elements(*value) == Some(items@),
            None => json_elements(*value) is None,
        },
{
    value.as_array()
}

/// `Value::as_u64`: the non-negative integer that the value is.
#[verifier::external_body]
fn number_of(value: &serde_json::Value) -> (number: Option<u64>)
    ensures
        number == json_number(*value),
{
    value.as_u64()
}

/// A copy of the string at a JSON pointer of a document.
pub(crate) fn string_at(document: &serde_json::Value, pointer: &str) -> (found: Option<String>)
    ensures
        optional_text(found) == json_string(*document, pointer@),
{
    match value_at(document, pointer) {
        Some(value) => text_of(value),
        None => None,
    }
}

/// The array at a JSON pointer of a document.
pub(crate) fn items_at<'a>(document: &'a serde_json::Value, pointer: &str) -> (found: Option<
    &'a Vec<serde_json::Value>,
>)
    ensures
        match found {
            Some(items) => json_items(*document, pointer@) == Some(items@),
            None => json_items(*document, pointer@) is None,
        },
{
    match value_at(document, pointer) {
        Some(value) => elements_of(value),
        None => None,
    }
}

/// The first element of the array at a JSON pointer of a document.
pub(crate) fn first_at<'a>(document: &'a serde_json::Value, pointer: &str) -> (found: Option<
    &'a serde_json::Value,
>)
    ensures
        match found {
            Some(value) => json_first(*document, pointer@) == Some(*value),
            None => json_first(*document, pointer@) is None,
        },
{
    match items_at(document, pointer) {
        Some(items) => if items.len() > 0 {
            Some(&items[0])
        } else {
            None
        },
        None => None,
    }
}

/// The non-negative integer at a JSON pointer of a document.
pub(crate) fn count_at(document: &serde_json::Value, pointer: &str) -> (found: Option<u64>)
    ensures
        found == json_count(*document, pointer@),
{
    match value_at(document, pointer) {
        Some(value) => number_of(value),
        None => None,
    }
}

} // verus!
