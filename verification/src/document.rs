//! Records as structured documents: a JSON-like tree of plain values.

use crate::text::same_text;
use vstd::prelude::*;

verus! {

/// A number as JSON knows it.
#[derive(Debug, PartialEq, Eq)]
pub enum Number {
    /// A whole number that is not negative.
    Unsigned(u64),
    /// A whole number below zero.
    Negative(i64),
    /// Any other number, held as its decimal literal.
    Real(String),
}

/// A structured document: what is stored under one key.
#[derive(Debug, PartialEq, Eq)]
pub enum Document {
    Null,
    Bool(bool),
    Number(Number),
    Text(String),
    List(Vec<Document>),
    /// Named fields, in the order in which they are written.
    Object(Vec<(String, Document)>),
}

/// The mathematical value of a [`Number`].
pub enum NumberValue {
    Unsigned(u64),
    Negative(i64),
    Real(Seq<char>),
}

/// The mathematical value of a [`Document`].
pub enum Json {
    Null,
    Bool(bool),
    Number(NumberValue),
    Text(Seq<char>),
    List(Seq<Json>),
    Object(Seq<(Seq<char>, Json)>),
}

impl View for Number {
    type V = NumberValue;

    open spec fn view(&self) -> NumberValue {
        match self {
            Number::Unsigned(u) => NumberValue::Unsigned(*u),
            Number::Negative(i) => NumberValue::Negative(*i),
            Number::Real(t) => NumberValue::Real(t@),
        }
    }
}

/// The value of the item at position `i` of a list.
pub open spec fn item_value(items: Seq<Document>, i: int) -> Json
    decreases items, 0nat,
{
    if 0 <= i < items.len() {
        items[i].view()
    } else {
        Json::Null
    }
}

/// The name and the value of the field at position `i` of an object.
pub open spec fn field_value(fields: Seq<(String, Document)>, i: int) -> (Seq<char>, Json)
    decreases fields, 0nat,
{
    if 0 <= i < fields.len() {
        (fields[i].0@, fields[i].1.view())
    } else {
        (Seq::empty(), Json::Null)
    }
}

impl View for Document {
    type V = Json;

    open spec fn view(&self) -> Json
        decreases self, 0nat,
    {
        match self {
            Document::Null => Json::Null,
            Document::Bool(b) => Json::Bool(*b),
            Document::Number(n) => Json::Number(n@),
            Document::Text(s) => Json::Text(s@),
            Document::List(items) => Json::List(
                Seq::new(items@.len(), |i: int| item_value(items@, i)),
            ),
            Document::Object(fields) => Json::Object(
                Seq::new(fields@.len(), |i: int| field_value(fields@, i)),
            ),
        }
    }
}

/// The values of the items of a list.
pub open spec fn list_value(items: Seq<Document>) -> Seq<Json> {
    Seq::new(items.len(), |i: int| items[i]@)
}

/// The names and values of the fields of an object.
pub open spec fn object_value(fields: Seq<(String, Document)>) -> Seq<(Seq<char>, Json)> {
    Seq::new(fields.len(), |i: int| (fields[i].0@, fields[i].1@))
}

/// The value of a list is the list of the values of its items.
pub proof fn lemma_list_view(items: Vec<Document>)
    ensures
        Document::List(items)@ == Json::List(list_value(items@)),
{
    assert forall|i: int| 0 <= i < items@.len() implies item_value(items@, i) == items@[i]@ by {}
    assert(Document::List(items)@->List_0 =~= list_value(items@));
}

/// The value of an object is the list of its fields, each by name and value.
pub proof fn lemma_object_view(fields: Vec<(String, Document)>)
    ensures
        Document::Object(fields)@ == Json::Object(object_value(fields@)),
{
    assert forall|i: int| 0 <= i < fields@.len() implies field_value(fields@, i) == (
        fields@[i].0@,
        fields@[i].1@,
    ) by {}
    assert(Document::Object(fields)@->Object_0 =~= object_value(fields@));
}

impl Clone for Number {
    fn clone(&self) -> (r: Number)
        ensures
            r@ == self@,
    {
        match self {
            Number::Unsigned(u) => Number::Unsigned(*u),
            Number::Negative(i) => Number::Negative(*i),
            Number::Real(t) => Number::Real(t.clone()),
        }
    }
}

impl Clone for Document {
    fn clone(&self) -> (r: Document)
        ensures
            r@ == self@,
        decreases self,
    {
        match self {
            Document::Null => Document::Null,
            Document::Bool(b) => Document::Bool(*b),
            Document::Number(n) => Document::Number(n.clone()),
            Document::Text(s) => Document::Text(s.clone()),
            Document::List(items) => {
                let mut out: Vec<Document> = Vec::new();
                let mut i: usize = 0;
                while i < items.len()
                    invariant
                        i <= items.len(),
                        out.len() == i,
                        forall|j: int| 0 <= j < i ==> out@[j]@ == items@[j]@,
                        self is List,
                        self->List_0 == *items,
                    decreases items.len() - i,
                {
                    proof {
                        assert(decreases_to!(self => self->List_0));
                        assert(decreases_to!(items => items[i as int]));
                    }
                    out.push(items[i].clone());
                    i += 1;
                }
                let r = Document::List(out);
                proof {
                    lemma_list_view(out);
                    lemma_list_view(*items);
                    assert(list_value(out@) =~= list_value(items@));
                }
                r
            },
            Document::Object(fields) => {
                let mut out: Vec<(String, Document)> = Vec::new();
                let mut i: usize = 0;
                while i < fields.len()
                    invariant
                        i <= fields.len(),
                        out.len() == i,
                        forall|j: int|
                            0 <= j < i ==> out@[j].0@ == fields@[j].0@ && out@[j].1@
                                == fields@[j].1@,
                        self is Object,
                        self->Object_0 == *fields,
                    decreases fields.len() - i,
                {
                    proof {
                        assert(decreases_to!(self => self->Object_0));
                        assert(decreases_to!(fields => fields[i as int]));
                    }
                    out.push((fields[i].0.clone(), fields[i].1.clone()));
                    i += 1;
                }
                let r = Document::Object(out);
                proof {
                    lemma_object_view(out);
                    lemma_object_view(*fields);
                    assert(object_value(out@) =~= object_value(fields@));
                }
                r
            },
        }
    }
}

impl Number {
    /// Whether two numbers have the same value.
    pub fn same_as(&self, other: &Number) -> (r: bool)
        ensures
            r == (self@ == other@),
    {
        match (self, other) {
            (Number::Unsigned(a), Number::Unsigned(b)) => *a == *b,
            (Number::Negative(a), Number::Negative(b)) => *a == *b,
            (Number::Real(a), Number::Real(b)) => same_text(a.as_str(), b.as_str()),
            _ => false,
        }
    }
}

impl Document {
    /// Whether two documents have the same value.
    pub fn same_as(&self, other: &Document) -> (r: bool)
        ensures
            r == (self@ == other@),
        decreases self,
    {
        match (self, other) {
            (Document::Null, Document::Null) => true,
            (Document::Bool(a), Document::Bool(b)) => *a == *b,
            (Document::Number(a), Document::Number(b)) => a.same_as(b),
            (Document::Text(a), Document::Text(b)) => same_text(a.as_str(), b.as_str()),
            (Document::List(a), Document::List(b)) => {
                proof {
                    lemma_list_view(*a);
                    lemma_list_view(*b);
                }
                if a.len() != b.len() {
                    assert(list_value(a@).len() != list_value(b@).len());
                    return false;
                }
                let mut i: usize = 0;
                while i < a.len()
                    invariant
                        i <= a.len(),
                        a.len() == b.len(),
                        self is List,
                        self->List_0 == *a,
                        self@ == Json::List(list_value(a@)),
                        other@ == Json::List(list_value(b@)),
                        forall|j: int| 0 <= j < i ==> (#[trigger] a@[j])@ == b@[j]@,
                    decreases a.len() - i,
                {
                    proof {
                        assert(decreases_to!(self => self->List_0));
                        assert(decreases_to!(a => a[i as int]));
                    }
                    if !a[i].same_as(&b[i]) {
                        assert(list_value(a@)[i as int] != list_value(b@)[i as int]);
                        return false;
                    }
                    i += 1;
                }
                assert(list_value(a@) =~= list_value(b@));
                true
            },
            (Document::Object(a), Document::Object(b)) => {
                proof {
                    lemma_object_view(*a);
                    lemma_object_view(*b);
                }
                if a.len() != b.len() {
                    assert(object_value(a@).len() != object_value(b@).len());
                    return false;
                }
                let mut i: usize = 0;
                while i < a.len()
                    invariant
                        i <= a.len(),
                        a.len() == b.len(),
                        self is Object,
                        self->Object_0 == *a,
                        self@ == Json::Object(object_value(a@)),
                        other@ == Json::Object(object_value(b@)),
                        forall|j: int|
                            0 <= j < i ==> (#[trigger] a@[j]).0@ == b@[j].0@ && a@[j].1@ == b@[j].1@,
                    decreases a.len() - i,
                {
                    proof {
                        assert(decreases_to!(self => self->Object_0));
                        assert(decreases_to!(a => a[i as int]));
                    }
                    if !same_text(a[i].0.as_str(), b[i].0.as_str()) || !a[i].1.same_as(&b[i].1) {
                        assert(object_value(a@)[i as int] != object_value(b@)[i as int]);
                        return false;
                    }
                    i += 1;
                }
                assert(object_value(a@) =~= object_value(b@));
                true
            },
            _ => false,
        }
    }

    /// The string that the document is, if it is one.
    pub fn as_text(&self) -> (r: Option<&str>)
        ensures
            match self@ {
                Json::Text(s) => r is Some && r.unwrap()@ == s,
                _ => r is None,
            },
    {
        match self {
            Document::Text(s) => Some(s.as_str()),
            _ => None,
        }
    }
}

} // verus!
