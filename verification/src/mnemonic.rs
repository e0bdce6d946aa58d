//! The seed mnemonic as a record: a BIP-39 mnemonic is stored as its phrase.

use crate::document::{Document, Json};
use crate::error::MutinyError;
use std::str::FromStr;
use vstd::prelude::*;

verus! {

#[verifier::external_type_specification]
#[verifier::external_body]
pub struct ExMnemonic(bip39::Mnemonic);

#[verifier::external_type_specification]
#[verifier::external_body]
pub struct ExMnemonicError(bip39::Error);

/// The phrase that `bip39::Mnemonic` writes of itself: its words, one space between them.
pub uninterp spec fn mnemonic_phrase(mnemonic: bip39::Mnemonic) -> Seq<char>;

/// The mnemonic that `bip39::Mnemonic` reads from a phrase, if it reads one.
pub uninterp spec fn parsed_mnemonic(phrase: Seq<char>) -> Option<bip39::Mnemonic>;

/// Calls `to_string` of `bip39::Mnemonic`, its `Display`. The contract only
/// names the phrase: the same mnemonic always gives the same phrase.
#[verifier::external_body]
fn phrase_of(mnemonic: &bip39::Mnemonic) -> (r: String)
    ensures
        r@ == mnemonic_phrase(*mnemonic),
{
    mnemonic.to_string()
}

/// Calls `from_str` of `bip39::Mnemonic`. The contract only names the
/// outcome: the same phrase always reads the same way.
#[verifier::external_body]
fn parse_phrase(phrase: &str) -> (r: Result<bip39::Mnemonic, bip39::Error>)
    ensures
        r is Ok <==> parsed_mnemonic(phrase@) is Some,
        r is Ok ==> r.unwrap() == parsed_mnemonic(phrase@).unwrap(),
{
    bip39::Mnemonic::from_str(phrase)
}

/// The document that stands for a mnemonic: its phrase, as a string.
pub open spec fn mnemonic_document(mnemonic: bip39::Mnemonic) -> Json {
    Json::Text(mnemonic_phrase(mnemonic))
}

/// The mnemonic that a document stands for: the document has to be a string
/// that reads as a mnemonic.
pub open spec fn document_mnemonic(doc: Json) -> Result<bip39::Mnemonic, MutinyError> {
    match doc {
        Json::Text(phrase) => match parsed_mnemonic(phrase) {
            Some(mnemonic) => Ok(mnemonic),
            None => Err(MutinyError::SerializationFailed),
        },
        _ => Err(MutinyError::SerializationFailed),
    }
}

/// Writes a mnemonic as a document.
pub fn mnemonic_to_document(mnemonic: &bip39::Mnemonic) -> (r: Document)
    ensures
        r@ == mnemonic_document(*mnemonic),
{
    Document::Text(phrase_of(mnemonic))
}

/// Reads a mnemonic from a document; fails with `SerializationFailed` where
/// the document is not a string, or not the phrase of a mnemonic.
pub fn mnemonic_from_document(doc: &Document) -> (r: Result<bip39::Mnemonic, MutinyError>)
    ensures
        r == document_mnemonic(doc@),
{
    match doc.as_text() {
        Some(phrase) => match parse_phrase(phrase) {
            Ok(mnemonic) => Ok(mnemonic),
            Err(_) => Err(MutinyError::SerializationFailed),
        },
        None => Err(MutinyError::SerializationFailed),
    }
}

} // verus!
