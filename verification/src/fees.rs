//! The fee estimates as a record: for each block target, a fee in satoshis
//! per byte.

use crate::document::{
    lemma_object_view, object_value, Document, Json, Number, NumberValue,
};
use vstd::prelude::*;

verus! {

/// The mathematical value of a list of fee estimates.
pub open spec fn fees_value(fees: Seq<(String, Number)>) -> Seq<(Seq<char>, NumberValue)> {
    Seq::new(fees.len(), |i: int| (fees[i].0@, fees[i].1@))
}

/// The document that stands for fee estimates: an object with one number for
/// each block target.
pub open spec fn fees_document(fees: Seq<(Seq<char>, NumberValue)>) -> Json {
    Json::Object(Seq::new(fees.len(), |i: int| (fees[i].0, Json::Number(fees[i].1))))
}

/// The fee estimates that a document stands for: the document has to be an
/// object whose fields are all numbers.
pub open spec fn document_fees(doc: Json) -> Option<Seq<(Seq<char>, NumberValue)>> {
    match doc {
        Json::Object(fields) => if forall|i: int|
            0 <= i < fields.len() ==> (#[trigger] fields[i]).1 is Number {
            Some(Seq::new(fields.len(), |i: int| (fields[i].0, fields[i].1->Number_0)))
        } else {
            None
        },
        _ => None,
    }
}

/// Fee estimates are read back from their document.
pub proof fn lemma_fees_read_back(fees: Seq<(Seq<char>, NumberValue)>)
    ensures
        document_fees(fees_document(fees)) == Some(fees),
{
    assert(document_fees(fees_document(fees)).unwrap() =~= fees);
}

/// Writes fee estimates as a document.
pub fn fees_to_document(fees: &Vec<(String, Number)>) -> (r: Document)
    ensures
        r@ == fees_document(fees_value(fees@)),
{
    let mut fields: Vec<(String, Document)> = Vec::new();
    let mut i: usize = 0;
    while i < fees.len()
        invariant
            i <= fees.len(),
            fields.len() == i,
            forall|j: int|
                0 <= j < i ==> (#[trigger] fields@[j]).0@ == fees@[j].0@ && fields@[j].1@
                    == Json::Number(fees@[j].1@),
        decreases fees.len() - i,
    {
        fields.push((fees[i].0.clone(), Document::Number(fees[i].1.clone())));
        i += 1;
    }
    proof {
        lemma_object_view(fields);
        assert(object_value(fields@) =~= fees_document(fees_value(fees@))->Object_0);
    }
    Document::Object(fields)
}

/// Reads fee estimates from a document, if the document stands for some.
pub fn fees_from_document(doc: &Document) -> (r: Option<Vec<(String, Number)>>)
    ensures
        match r {
            Some(fees) => document_fees(doc@) == Some(fees_value(fees@)),
            None => document_fees(doc@) is None,
        },
{
    match doc {
        Document::Object(fields) => {
            proof {
                lemma_object_view(*fields);
            }
            let ghost all = object_value(fields@);
            let mut fees: Vec<(String, Number)> = Vec::new();
            let mut i: usize = 0;
            while i < fields.len()
                invariant
                    i <= fields.len(),
                    fees.len() == i,
                    all == object_value(fields@),
                    doc@ == Json::Object(all),
                    forall|j: int|
                        0 <= j < i ==> all[j].1 is Number && (#[trigger] fees@[j]).0@ == all[j].0
                            && fees@[j].1@ == all[j].1->Number_0,
                decreases fields.len() - i,
            {
                match &fields[i].1 {
                    Document::Number(n) => fees.push((fields[i].0.clone(), n.clone())),
                    _ => {
                        assert(!(all[i as int].1 is Number));
                        return None;
                    },
                }
                i += 1;
            }
            proof {
                assert forall|j: int| 0 <= j < all.len() implies (#[trigger] all[j]).1 is Number by {
                    assert(fees@[j].0@ == all[j].0);
                }
                assert(document_fees(doc@).unwrap() =~= fees_value(fees@));
            }
            Some(fees)
        },
        _ => None,
    }
}

} // verus!
