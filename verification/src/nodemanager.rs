//! The table of the wallet's nodes, and how it is written as a document.

use crate::document::{
    lemma_list_view, lemma_object_view, list_value, object_value, Document, Json, Number,
    NumberValue,
};
use crate::text::same_text;
use vstd::prelude::*;

verus! {

/// One node of the wallet: its identifier and the index its keys are derived at.
#[derive(Debug, PartialEq, Eq)]
pub struct NodeIndex {
    pub uuid: String,
    pub child_index: u32,
}

/// The nodes of the wallet, in the order in which they were added, with the
/// version of the table.
#[derive(Debug, PartialEq, Eq)]
pub struct NodeStorage {
    pub nodes: Vec<NodeIndex>,
    pub version: u32,
}

/// The mathematical value of a [`NodeIndex`].
pub struct NodeIndexValue {
    pub uuid: Seq<char>,
    pub child_index: u32,
}

/// The mathematical value of a [`NodeStorage`].
pub struct NodeStorageValue {
    pub nodes: Seq<NodeIndexValue>,
    pub version: u32,
}

impl View for NodeIndex {
    type V = NodeIndexValue;

    open spec fn view(&self) -> NodeIndexValue {
        NodeIndexValue { uuid: self.uuid@, child_index: self.child_index }
    }
}

impl View for NodeStorage {
    type V = NodeStorageValue;

    open spec fn view(&self) -> NodeStorageValue {
        NodeStorageValue {
            nodes: Seq::new(self.nodes@.len(), |i: int| self.nodes@[i]@),
            version: self.version,
        }
    }
}

impl Clone for NodeIndex {
    fn clone(&self) -> (r: NodeIndex)
        ensures
            r@ == self@,
    {
        NodeIndex { uuid: self.uuid.clone(), child_index: self.child_index }
    }
}

impl Clone for NodeStorage {
    fn clone(&self) -> (r: NodeStorage)
        ensures
            r@ == self@,
    {
        let mut nodes: Vec<NodeIndex> = Vec::new();
        let mut i: usize = 0;
        while i < self.nodes.len()
            invariant
                i <= self.nodes.len(),
                nodes.len() == i,
                forall|j: int| 0 <= j < i ==> (#[trigger] nodes@[j])@ == self.nodes@[j]@,
            decreases self.nodes.len() - i,
        {
            nodes.push(self.nodes[i].clone());
            i += 1;
        }
        let r = NodeStorage { nodes, version: self.version };
        assert(r@.nodes =~= self@.nodes);
        r
    }
}

impl Default for NodeStorage {
    /// A table without nodes, at version 0.
    fn default() -> (r: NodeStorage)
        ensures
            r@ == (NodeStorageValue { nodes: Seq::empty(), version: 0 }),
    {
        let r = NodeStorage { nodes: Vec::new(), version: 0 };
        assert(r@.nodes =~= Seq::empty());
        r
    }
}

/// The value of the last field of the given name, if there is one: where a
/// name occurs more than once, the last occurrence counts, as it does when
/// the object is written as JSON and when it is imported.
pub open spec fn field(fields: Seq<(Seq<char>, Json)>, name: Seq<char>) -> Option<Json>
    decreases fields.len(),
{
    if fields.len() == 0 {
        None
    } else if fields.last().0 == name {
        Some(fields.last().1)
    } else {
        field(fields.drop_last(), name)
    }
}

/// The number that a document is, where it is a whole number that fits 32 bits.
pub open spec fn document_u32(doc: Json) -> Option<u32> {
    match doc {
        Json::Number(NumberValue::Unsigned(n)) => if n <= u32::MAX {
            Some(n as u32)
        } else {
            None
        },
        _ => None,
    }
}

/// The document that stands for a node.
pub open spec fn node_document(node: NodeIndexValue) -> Json {
    Json::Object(
        seq![
            ("child_index"@, Json::Number(NumberValue::Unsigned(node.child_index as u64))),
            ("uuid"@, Json::Text(node.uuid)),
        ],
    )
}

/// The node that a document stands for: an object with a string `uuid` and
/// a `child_index` that fits 32 bits.
pub open spec fn document_node(doc: Json) -> Option<NodeIndexValue> {
    match doc {
        Json::Object(fields) => match (field(fields, "uuid"@), field(fields, "child_index"@)) {
            (Some(Json::Text(uuid)), Some(index)) => match document_u32(index) {
                Some(child_index) => Some(NodeIndexValue { uuid, child_index }),
                None => None,
            },
            _ => None,
        },
        _ => None,
    }
}

/// The document that stands for a table of nodes.
pub open spec fn nodes_document(table: NodeStorageValue) -> Json {
    Json::Object(
        seq![
            ("nodes"@, Json::List(Seq::new(table.nodes.len(), |i: int| node_document(table.nodes[i])))),
            ("version"@, Json::Number(NumberValue::Unsigned(table.version as u64))),
        ],
    )
}

/// The table of nodes that a document stands for: an object whose `nodes`
/// are a list of nodes and whose `version`, 0 where it is missing, fits 32
/// bits.
pub open spec fn document_nodes(doc: Json) -> Option<NodeStorageValue> {
    match doc {
        Json::Object(fields) => match field(fields, "nodes"@) {
            Some(Json::List(items)) => {
                let version = match field(fields, "version"@) {
                    Some(v) => document_u32(v),
                    None => Some(0u32),
                };
                if version is Some && (forall|i: int|
                    0 <= i < items.len() ==> (#[trigger] document_node(items[i])) is Some) {
                    Some(
                        NodeStorageValue {
                            nodes: Seq::new(items.len(), |i: int| document_node(items[i]).unwrap()),
                            version: version.unwrap(),
                        },
                    )
                } else {
                    None
                }
            },
            _ => None,
        },
        _ => None,
    }
}

/// A table of nodes is read back from its document.
pub proof fn lemma_nodes_read_back(table: NodeStorageValue)
    ensures
        document_nodes(nodes_document(table)) == Some(table),
{
    reveal_strlit("nodes");
    reveal_strlit("version");
    reveal_strlit("uuid");
    reveal_strlit("child_index");
    let doc = nodes_document(table);
    let fields = doc->Object_0;
    assert("nodes"@[0] != "version"@[0]);
    assert("uuid"@[0] != "child_index"@[0]);
    reveal_with_fuel(field, 3);
    assert(fields.drop_last().last() == fields[0]);
    assert(field(fields, "nodes"@) == Some(fields[0].1));
    assert(field(fields, "version"@) == Some(fields[1].1));
    let items = fields[0].1->List_0;
    assert forall|i: int| 0 <= i < items.len() implies (#[trigger] document_node(items[i]))
        == Some(table.nodes[i]) by {
        let node = items[i]->Object_0;
        assert(node.drop_last().last() == node[0]);
        assert(field(node, "child_index"@) == Some(node[0].1));
        assert(field(node, "uuid"@) == Some(node[1].1));
    }
    assert(document_nodes(doc).unwrap().nodes =~= table.nodes);
}

/// The value of the last field of the given name, if there is one.
pub fn find_field<'a>(fields: &'a Vec<(String, Document)>, name: &str) -> (r: Option<&'a Document>)
    ensures
        match r {
            Some(doc) => field(object_value(fields@), name@) == Some(doc@),
            None => field(object_value(fields@), name@) is None,
        },
{
    let ghost all = object_value(fields@);
    let mut i: usize = fields.len();
    assert(all.subrange(0, all.len() as int) =~= all);
    while i > 0
        invariant
            i <= fields.len(),
            all == object_value(fields@),
            field(all, name@) == field(all.subrange(0, i as int), name@),
        decreases i,
    {
        i -= 1;
        proof {
            let rest = all.subrange(0, i + 1);
            assert(rest.last() == all[i as int]);
            assert(rest.drop_last() =~= all.subrange(0, i as int));
        }
        if same_text(fields[i].0.as_str(), name) {
            return Some(&fields[i].1);
        }
    }
    assert(all.subrange(0, 0).len() == 0);
    None
}

/// The number that a document is, where it is a whole number that fits 32 bits.
pub fn u32_from_document(doc: &Document) -> (r: Option<u32>)
    ensures
        r == document_u32(doc@),
{
    match doc {
        Document::Number(Number::Unsigned(n)) => {
            if *n <= 0xffff_ffff {
                Some(*n as u32)
            } else {
                None
            }
        },
        _ => None,
    }
}

impl NodeIndex {
    /// Writes the node as a document.
    pub fn to_document(&self) -> (r: Document)
        ensures
            r@ == node_document(self@),
    {
        let mut fields: Vec<(String, Document)> = Vec::new();
        fields.push(
            ("child_index".to_owned(), Document::Number(Number::Unsigned(self.child_index as u64))),
        );
        fields.push(("uuid".to_owned(), Document::Text(self.uuid.clone())));
        proof {
            lemma_object_view(fields);
            assert(object_value(fields@) =~= node_document(self@)->Object_0);
        }
        Document::Object(fields)
    }

    /// Reads a node from a document, if the document stands for one.
    pub fn from_document(doc: &Document) -> (r: Option<NodeIndex>)
        ensures
            match r {
                Some(node) => document_node(doc@) == Some(node@),
                None => document_node(doc@) is None,
            },
    {
        match doc {
            Document::Object(fields) => {
                proof {
                    lemma_object_view(*fields);
                }
                let uuid = match find_field(fields, "uuid") {
                    Some(Document::Text(uuid)) => uuid.clone(),
                    _ => {
                        return None;
                    },
                };
                let child_index = match find_field(fields, "child_index") {
                    Some(index) => match u32_from_document(index) {
                        Some(child_index) => child_index,
                        None => {
                            return None;
                        },
                    },
                    None => {
                        return None;
                    },
                };
                Some(NodeIndex { uuid, child_index })
            },
            _ => None,
        }
    }
}

impl NodeStorage {
    /// Writes the table as a document.
    pub fn to_document(&self) -> (r: Document)
        ensures
            r@ == nodes_document(self@),
    {
        let mut items: Vec<Document> = Vec::new();
        let mut i: usize = 0;
        while i < self.nodes.len()
            invariant
                i <= self.nodes.len(),
                items.len() == i,
                forall|j: int| 0 <= j < i ==> (#[trigger] items@[j])@ == node_document(self.nodes@[j]@),
            decreases self.nodes.len() - i,
        {
            items.push(self.nodes[i].to_document());
            i += 1;
        }
        proof {
            lemma_list_view(items);
            assert(list_value(items@) =~= Seq::new(
                self@.nodes.len(),
                |i: int| node_document(self@.nodes[i]),
            ));
        }
        let list = Document::List(items);
        let mut fields: Vec<(String, Document)> = Vec::new();
        fields.push(("nodes".to_owned(), list));
        fields.push(("version".to_owned(), Document::Number(Number::Unsigned(self.version as u64))));
        proof {
            lemma_object_view(fields);
            assert(object_value(fields@) =~= nodes_document(self@)->Object_0);
        }
        Document::Object(fields)
    }

    /// Reads a table from a document, if the document stands for one.
    pub fn from_document(doc: &Document) -> (r: Option<NodeStorage>)
        ensures
            match r {
                Some(table) => document_nodes(doc@) == Some(table@),
                None => document_nodes(doc@) is None,
            },
    {
        match doc {
            Document::Object(fields) => {
                proof {
                    lemma_object_view(*fields);
                }
                let items = match find_field(fields, "nodes") {
                    Some(Document::List(items)) => items,
                    _ => {
                        return None;
                    },
                };
                let version = match find_field(fields, "version") {
                    Some(v) => match u32_from_document(v) {
                        Some(version) => version,
                        None => {
                            return None;
                        },
                    },
                    None => 0,
                };
                let ghost listed = list_value(items@);
                proof {
                    lemma_list_view(*items);
                }
                let mut nodes: Vec<NodeIndex> = Vec::new();
                let mut i: usize = 0;
                while i < items.len()
                    invariant
                        i <= items.len(),
                        nodes.len() == i,
                        listed == list_value(items@),
                        doc@ is Object,
                        field(doc@->Object_0, "nodes"@) == Some(Json::List(listed)),
                        forall|j: int|
                            0 <= j < i ==> document_node(listed[j]) == Some((#[trigger] nodes@[j])@),
                    decreases items.len() - i,
                {
                    assert(listed[i as int] == items@[i as int]@);
                    match NodeIndex::from_document(&items[i]) {
                        Some(node) => nodes.push(node),
                        None => {
                            assert(document_node(listed[i as int]) is None);
                            return None;
                        },
                    }
                    i += 1;
                }
                let r = NodeStorage { nodes, version };
                proof {
                    assert forall|j: int| 0 <= j < listed.len() implies (#[trigger] document_node(
                        listed[j],
                    )) is Some by {
                        assert(document_node(listed[j]) == Some(nodes@[j]@));
                    }
                    assert(document_nodes(doc@).unwrap().nodes =~= r@.nodes);
                }
                Some(r)
            },
            _ => None,
        }
    }
}

} // verus!
