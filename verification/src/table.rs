//! A table of records by key, in which no key occurs twice.

use crate::document::{Document, Json};
use crate::storage::{keys_are_distinct, lists_key};
use crate::text::same_text;
use vstd::prelude::*;

verus! {

/// The records of an in-memory backend.
pub struct Table {
    entries: Vec<(String, Document)>,
}

/// Whether no key occurs twice among the entries.
spec fn entries_are_distinct(entries: Seq<(String, Document)>) -> bool {
    forall|i: int, j: int|
        0 <= i < j < entries.len() ==> (#[trigger] entries[i]).0@ != (#[trigger] entries[j]).0@
}

/// Whether an entry of the given key stands at position `i`.
spec fn key_is_at(entries: Seq<(String, Document)>, key: Seq<char>, i: int) -> bool {
    0 <= i < entries.len() && entries[i].0@ == key
}

/// The map that the entries stand for.
spec fn entries_map(entries: Seq<(String, Document)>) -> Map<Seq<char>, Json> {
    Map::new(
        |key: Seq<char>| exists|i: int| key_is_at(entries, key, i),
        |key: Seq<char>| entries[choose|i: int| key_is_at(entries, key, i)].1@,
    )
}

/// Each entry of a table without repeated keys is the record of its key.
proof fn lemma_entry_is_record(entries: Seq<(String, Document)>, i: int)
    requires
        entries_are_distinct(entries),
        0 <= i < entries.len(),
    ensures
        entries_map(entries).dom().contains(entries[i].0@),
        entries_map(entries)[entries[i].0@] == entries[i].1@,
{
    let key = entries[i].0@;
    assert(key_is_at(entries, key, i));
    let c = choose|c: int| key_is_at(entries, key, c);
    if c < i {
        assert(entries[c].0@ != entries[i].0@);
    } else if i < c {
        assert(entries[i].0@ != entries[c].0@);
    }
}

impl Table {
    #[verifier::type_invariant]
    spec fn well_formed(self) -> bool {
        entries_are_distinct(self.entries@)
    }

    /// The records: each key with the document stored under it.
    pub closed spec fn view(&self) -> Map<Seq<char>, Json> {
        entries_map(self.entries@)
    }

    /// A table without records.
    pub fn new() -> (r: Table)
        ensures
            r@ == Map::<Seq<char>, Json>::empty(),
    {
        let r = Table { entries: Vec::new() };
        assert(r@ =~= Map::<Seq<char>, Json>::empty());
        r
    }

    /// Where the entry of `key` stands, if there is one.
    fn position(&self, key: &str) -> (r: Option<usize>)
        ensures
            match r {
                Some(i) => key_is_at(self.entries@, key@, i as int),
                None => !self@.dom().contains(key@),
            },
    {
        let mut i: usize = 0;
        while i < self.entries.len()
            invariant
                i <= self.entries.len(),
                forall|j: int| 0 <= j < i ==> !key_is_at(self.entries@, key@, j),
            decreases self.entries.len() - i,
        {
            if same_text(self.entries[i].0.as_str(), key) {
                return Some(i);
            }
            i += 1;
        }
        None
    }

    /// The document stored under `key`, if there is one.
    pub fn get(&self, key: &str) -> (r: Option<&Document>)
        ensures
            match r {
                Some(doc) => self@.dom().contains(key@) && doc@ == self@[key@],
                None => !self@.dom().contains(key@),
            },
    {
        proof {
            use_type_invariant(self);
        }
        match self.position(key) {
            Some(i) => {
                proof {
                    lemma_entry_is_record(self.entries@, i as int);
                }
                Some(&self.entries[i].1)
            },
            None => None,
        }
    }

    /// Stores `value` under `key`, in place of what was stored there.
    pub fn insert(&mut self, key: String, value: Document)
        ensures
            final(self)@ == old(self)@.insert(key@, value@),
    {
        proof {
            use_type_invariant(&*self);
        }
        let ghost before = self.entries@;
        let found = self.position(key.as_str());
        let mut entries: Vec<(String, Document)> = Vec::new();
        core::mem::swap(&mut entries, &mut self.entries);
        match found {
            Some(i) => {
                entries[i] = (key, value);
                let ghost after = entries@;
                proof {
                    assert forall|a: int, b: int| 0 <= a < b < after.len() implies (
                    #[trigger] after[a]).0@ != (#[trigger] after[b]).0@ by {
                        assert(before[a].0@ != before[b].0@);
                    }
                    assert forall|k: Seq<char>|
                        entries_map(after).dom().contains(k) <==> entries_map(before).insert(
                            key@,
                            value@,
                        ).dom().contains(k) by {
                        if entries_map(after).dom().contains(k) {
                            let c = choose|c: int| key_is_at(after, k, c);
                            assert(key_is_at(before, k, c));
                        }
                        if entries_map(before).dom().contains(k) {
                            let c = choose|c: int| key_is_at(before, k, c);
                            assert(key_is_at(after, k, c));
                        }
                        if k == key@ {
                            assert(key_is_at(after, k, i as int));
                        }
                    }
                    assert forall|k: Seq<char>| entries_map(after).dom().contains(k) implies (
                    #[trigger] entries_map(after)[k]) == entries_map(before).insert(
                        key@,
                        value@,
                    )[k] by {
                        let c = choose|c: int| key_is_at(after, k, c);
                        lemma_entry_is_record(after, c);
                        if k != key@ {
                            assert(c != i);
                            lemma_entry_is_record(before, c);
                        } else {
                            if c < i {
                                assert(after[c].0@ != after[i as int].0@);
                            } else if i < c {
                                assert(after[i as int].0@ != after[c].0@);
                            }
                        }
                    }
                    assert(entries_map(after) =~= entries_map(before).insert(key@, value@));
                }
                self.entries = entries;
            },
            None => {
                entries.push((key, value));
                let ghost after = entries@;
                proof {
                    let n = before.len() as int;
                    assert forall|a: int, b: int| 0 <= a < b < after.len() implies (
                    #[trigger] after[a]).0@ != (#[trigger] after[b]).0@ by {
                        if b < n {
                            assert(before[a].0@ != before[b].0@);
                        } else {
                            assert(!key_is_at(before, key@, a));
                        }
                    }
                    assert forall|k: Seq<char>|
                        entries_map(after).dom().contains(k) <==> entries_map(before).insert(
                            key@,
                            value@,
                        ).dom().contains(k) by {
                        if entries_map(after).dom().contains(k) {
                            let c = choose|c: int| key_is_at(after, k, c);
                            if c < n {
                                assert(key_is_at(before, k, c));
                            }
                        }
                        if entries_map(before).dom().contains(k) {
                            let c = choose|c: int| key_is_at(before, k, c);
                            assert(key_is_at(after, k, c));
                        }
                        if k == key@ {
                            assert(key_is_at(after, k, n));
                        }
                    }
                    assert forall|k: Seq<char>| entries_map(after).dom().contains(k) implies (
                    #[trigger] entries_map(after)[k]) == entries_map(before).insert(
                        key@,
                        value@,
                    )[k] by {
                        let c = choose|c: int| key_is_at(after, k, c);
                        lemma_entry_is_record(after, c);
                        if k != key@ {
                            assert(c < n);
                            lemma_entry_is_record(before, c);
                        } else {
                            if c < n {
                                assert(key_is_at(before, key@, c));
                            }
                        }
                    }
                    assert(entries_map(after) =~= entries_map(before).insert(key@, value@));
                }
                self.entries = entries;
            },
        }
    }

    /// Removes the record of `key`, if there is one.
    pub fn remove(&mut self, key: &str)
        ensures
            final(self)@ == old(self)@.remove(key@),
    {
        proof {
            use_type_invariant(&*self);
        }
        let ghost before = self.entries@;
        match self.position(key) {
            Some(i) => {
                let mut entries: Vec<(String, Document)> = Vec::new();
                core::mem::swap(&mut entries, &mut self.entries);
                entries.remove(i);
                let ghost after = entries@;
                proof {
                    assert forall|a: int, b: int| 0 <= a < b < after.len() implies (
                    #[trigger] after[a]).0@ != (#[trigger] after[b]).0@ by {
                        let a0 = if a < i { a } else { a + 1 };
                        let b0 = if b < i { b } else { b + 1 };
                        assert(before[a0].0@ != before[b0].0@);
                    }
                    assert forall|k: Seq<char>|
                        entries_map(after).dom().contains(k) <==> entries_map(before).remove(
                            key@,
                        ).dom().contains(k) by {
                        if entries_map(after).dom().contains(k) {
                            let c = choose|c: int| key_is_at(after, k, c);
                            let c0 = if c < i { c } else { c + 1 };
                            assert(key_is_at(before, k, c0));
                            if c0 < i {
                                assert(before[c0].0@ != before[i as int].0@);
                            } else {
                                assert(before[i as int].0@ != before[c0].0@);
                            }
                        }
                        if entries_map(before).dom().contains(k) && k != key@ {
                            let c = choose|c: int| key_is_at(before, k, c);
                            let c1 = if c < i { c } else { c - 1 };
                            assert(key_is_at(after, k, c1));
                        }
                    }
                    assert forall|k: Seq<char>| entries_map(after).dom().contains(k) implies (
                    #[trigger] entries_map(after)[k]) == entries_map(before).remove(key@)[k] by {
                        let c = choose|c: int| key_is_at(after, k, c);
                        lemma_entry_is_record(after, c);
                        let c0 = if c < i { c } else { c + 1 };
                        lemma_entry_is_record(before, c0);
                    }
                    assert(entries_map(after) =~= entries_map(before).remove(key@));
                }
                self.entries = entries;
            },
            None => {
                assert(self@ =~= old(self)@.remove(key@));
            },
        }
    }

    /// The keys that have a record, each once.
    pub fn keys(&self) -> (r: Vec<String>)
        ensures
            keys_are_distinct(r@),
            forall|k: Seq<char>| #[trigger] lists_key(r@, k) <==> self@.dom().contains(k),
    {
        proof {
            use_type_invariant(self);
        }
        let mut out: Vec<String> = Vec::new();
        let mut i: usize = 0;
        while i < self.entries.len()
            invariant
                i <= self.entries.len(),
                out.len() == i,
                forall|j: int| 0 <= j < i ==> (#[trigger] out@[j])@ == self.entries@[j].0@,
            decreases self.entries.len() - i,
        {
            out.push(self.entries[i].0.clone());
            i += 1;
        }
        proof {
            let entries = self.entries@;
            assert forall|a: int, b: int| 0 <= a < b < out@.len() implies #[trigger] out@[a]@
                != #[trigger] out@[b]@ by {
                assert(entries[a].0@ != entries[b].0@);
            }
            assert forall|k: Seq<char>| #[trigger]
                lists_key(out@, k) <==> self@.dom().contains(k) by {
                if lists_key(out@, k) {
                    let c = choose|c: int| 0 <= c < out@.len() && #[trigger] out@[c]@ == k;
                    assert(key_is_at(entries, k, c));
                }
                if self@.dom().contains(k) {
                    let c = choose|c: int| key_is_at(entries, k, c);
                    assert(out@[c]@ == k);
                }
            }
        }
        out
    }
}

} // verus!
