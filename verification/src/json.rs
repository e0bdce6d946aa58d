//! The flat string form of a document: JSON text, written and read by `serde_json`.

use crate::document::{Document, Json, Number};
use crate::error::MutinyError;
use vstd::prelude::*;

verus! {

#[verifier::external_type_specification]
#[verifier::external_body]
pub struct ExValue(serde_json::Value);

#[verifier::external_type_specification]
#[verifier::external_body]
pub struct ExJsonError(serde_json::Error);

/// The JSON text that `serde_json::to_string` writes for the value with the
/// shape of a document, if it writes one.
pub uninterp spec fn json_text(doc: Json) -> Option<Seq<char>>;

/// The document with the shape of the value that `serde_json::from_str`
/// reads from a text, if it reads one.
pub uninterp spec fn json_parsed(text: Seq<char>) -> Option<Json>;

/// Builds the `serde_json::Value` for a number; a literal that `serde_json`
/// does not read as a number gives the error of its `from_str`. Nothing is
/// claimed of the result.
#[verifier::external_body]
fn number_to_json(number: &Number) -> Result<serde_json::Value, serde_json::Error> {
    match number {
        Number::Unsigned(u) => Ok(serde_json::Value::from(*u)),
        Number::Negative(i) => Ok(serde_json::Value::from(*i)),
        Number::Real(literal) => literal.parse().map(serde_json::Value::Number),
    }
}

/// Builds the `serde_json::Value` with the shape of a document, variant by
/// variant, and fails where a number in it does. Nothing is claimed of the
/// result.
#[verifier::external_body]
fn document_to_json(doc: &Document) -> Result<serde_json::Value, serde_json::Error> {
    match doc {
        Document::Null => Ok(serde_json::Value::Null),
        Document::Bool(b) => Ok(serde_json::Value::Bool(*b)),
        Document::Number(n) => number_to_json(n),
        Document::Text(s) => Ok(serde_json::Value::String(s.clone())),
        Document::List(items) => items.iter().map(document_to_json).collect(),
        Document::Object(fields) => fields.iter().map(|f| Ok((f.0.clone(), document_to_json(&f.1)?))).collect(),
    }
}

/// Reads a `serde_json::Value` that is a number: through `as_u64`, then
/// `as_i64`, then its `Display`. Nothing is claimed of the result.
#[verifier::external_body]
fn number_from_json(value: &serde_json::Value) -> Number {
    match (value.as_u64(), value.as_i64()) {
        (Some(u), _) => Number::Unsigned(u),
        (None, Some(i)) => Number::Negative(i),
        (None, None) => Number::Real(value.to_string()),
    }
}

/// Takes a `serde_json::Value` apart into a document, variant by variant.
/// Nothing is claimed of the result.
#[verifier::external_body]
fn document_from_json(value: &serde_json::Value) -> Document {
    match value {
        serde_json::Value::Null => Document::Null,
        serde_json::Value::Bool(b) => Document::Bool(*b),
        serde_json::Value::Number(_) => Document::Number(number_from_json(value)),
        serde_json::Value::String(s) => Document::Text(s.clone()),
        serde_json::Value::Array(items) => Document::List(items.iter().map(document_from_json).collect()),
        serde_json::Value::Object(fields) => Document::Object(fields.iter().map(|(k, v)| (k.clone(), document_from_json(v))).collect()),
    }
}

/// Calls `serde_json::to_string` on the value built from `doc`, and fails
/// where no value is built. The contract only names the outcome: the same
/// document is always written the same way.
#[verifier::external_body]
fn write_json(doc: &Document) -> (r: Result<String, serde_json::Error>)
    ensures
        r is Ok <==> json_text(doc@) is Some,
        r is Ok ==> r.unwrap()@ == json_text(doc@).unwrap(),
{
    document_to_json(doc).and_then(|value| serde_json::to_string(&value))
}

/// Calls `serde_json::from_str` and takes the value that it read apart. The
/// contract only names the outcome: the same text always reads the same way.
#[verifier::external_body]
fn read_json(text: &str) -> (r: Result<Document, serde_json::Error>)
    ensures
        r is Ok <==> json_parsed(text@) is Some,
        r is Ok ==> r.unwrap()@ == json_parsed(text@).unwrap(),
{
    serde_json::from_str::<serde_json::Value>(text).map(|value| document_from_json(&value))
}

/// Whether a document has a JSON text, and the text reads back as that document.
pub open spec fn reads_back(doc: Json) -> bool {
    match json_text(doc) {
        Some(text) => json_parsed(text) == Some(doc),
        None => false,
    }
}

/// What [`serialize`] returns for a document.
pub open spec fn serialized(doc: Json) -> Result<Seq<char>, MutinyError> {
    match json_text(doc) {
        Some(text) => Ok(text),
        None => Err(MutinyError::SerializationFailed),
    }
}

/// What [`deserialize`] returns for a text.
pub open spec fn deserialized(text: Seq<char>) -> Result<Json, MutinyError> {
    match json_parsed(text) {
        Some(doc) => Ok(doc),
        None => Err(MutinyError::SerializationFailed),
    }
}

/// The flat string form of a document.
///
/// Fails with `SerializationFailed` exactly on the documents that the JSON
/// writer writes no text for.
pub fn serialize(doc: &Document) -> (r: Result<String, MutinyError>)
    ensures
        match serialized(doc@) {
            Ok(text) => r is Ok && r.unwrap()@ == text,
            Err(e) => r == Err::<String, MutinyError>(e),
        },
{
    match write_json(doc) {
        Ok(text) => Ok(text),
        Err(_) => Err(MutinyError::SerializationFailed),
    }
}

/// The document that a flat string form stands for.
///
/// Fails with `SerializationFailed` exactly on the texts that are not JSON.
pub fn deserialize(text: &str) -> (r: Result<Document, MutinyError>)
    ensures
        match deserialized(text@) {
            Ok(doc) => r is Ok && r.unwrap()@ == doc,
            Err(e) => r == Err::<Document, MutinyError>(e),
        },
{
    match read_json(text) {
        Ok(doc) => Ok(doc),
        Err(_) => Err(MutinyError::SerializationFailed),
    }
}

/// Whether the JSON text of `doc` reads back as `doc`, tried out: writes the
/// text, reads it again, and compares what was read with `doc`. The answer is
/// no where no text is written or the text is not read.
pub fn check_reads_back(doc: &Document) -> (r: bool)
    ensures
        r == reads_back(doc@),
{
    match serialize(doc) {
        Ok(text) => match deserialize(text.as_str()) {
            Ok(read) => read.same_as(doc),
            Err(_) => false,
        },
        Err(_) => false,
    }
}

} // verus!
