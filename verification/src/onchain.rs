//! Persistence for the chain-sync engine: one record that holds everything
//! the engine has reported so far, grown by merging each new changeset into it.

use crate::document::{Document, Json};
use crate::error::{MutinyError, MutinyStorageError};
use crate::storage::{
    is_backend_error, lemma_plain_keys, read_record, value_of, MutinyStorage, KEYCHAIN_STORE_KEY,
};
use vstd::prelude::*;

verus! {

/// What the chain-sync engine reports: a unit of change that can be empty,
/// can take another one in, and can be written as a document.
///
/// The first four functions are the changeset's model. An implementation
/// written in Verus states its own. The bodies written here are there for
/// implementations in ordinary Rust, which cannot state one: they are those
/// of a changeset that is always empty and has no document, and nothing
/// proved of a changeset in general rests on them.
pub trait Changeset: Sized {
    /// Whether the changeset holds nothing.
    open spec fn holds_nothing(&self) -> bool {
        true
    }

    /// The changeset that holds what `self` holds and what `other` holds.
    open spec fn merged(self, other: Self) -> Self {
        self
    }

    /// The document that stands for the changeset, if it has one.
    open spec fn encoded(&self) -> Option<Json> {
        None
    }

    /// The changeset that a document stands for, if it stands for one.
    open spec fn decoded(doc: Json) -> Option<Self> {
        None
    }

    /// A changeset that holds nothing.
    fn empty() -> (r: Self)
        ensures
            r.holds_nothing(),
    ;

    /// Whether the changeset holds nothing.
    fn is_empty(&self) -> (r: bool)
        ensures
            r == self.holds_nothing(),
    ;

    /// Takes in what `other` holds.
    fn append(&mut self, other: Self)
        ensures
            *final(self) == old(self).merged(other),
    ;

    /// A copy of the changeset.
    fn duplicate(&self) -> (r: Self)
        ensures
            r == *self,
    ;

    /// The document that stands for the changeset.
    fn to_document(&self) -> (r: Option<Document>)
        ensures
            value_of(r) == self.encoded(),
    ;

    /// The changeset that a document stands for.
    fn from_document(doc: &Document) -> (r: Option<Self>)
        ensures
            r == Self::decoded(doc@),
    ;
}

/// The changeset of an engine that reports nothing: always empty, written
/// as `null`.
impl Changeset for () {
    open spec fn holds_nothing(&self) -> bool {
        true
    }

    open spec fn merged(self, other: Self) -> Self {
        ()
    }

    open spec fn encoded(&self) -> Option<Json> {
        Some(Json::Null)
    }

    open spec fn decoded(doc: Json) -> Option<Self> {
        if doc is Null {
            Some(())
        } else {
            None
        }
    }

    fn empty() -> (r: Self) {
        ()
    }

    fn is_empty(&self) -> (r: bool) {
        true
    }

    fn append(&mut self, other: Self) {
    }

    fn duplicate(&self) -> (r: Self) {
        ()
    }

    fn to_document(&self) -> (r: Option<Document>) {
        Some(Document::Null)
    }

    fn from_document(doc: &Document) -> (r: Option<Self>) {
        match doc {
            Document::Null => Some(()),
            _ => None,
        }
    }
}

/// The record of the accumulated changeset, if there is one.
pub open spec fn stored_changeset(records: Map<Seq<char>, Json>) -> Option<Json> {
    if records.dom().contains(KEYCHAIN_STORE_KEY@) {
        Some(records[KEYCHAIN_STORE_KEY@])
    } else {
        None
    }
}

/// The changeset to store once `changeset` has come in: `changeset` itself
/// where nothing is stored yet, else what is stored with `changeset` merged
/// into it; none where what is stored stands for no changeset.
pub open spec fn accumulated<K: Changeset>(stored: Option<Json>, changeset: K) -> Option<K> {
    match stored {
        None => Some(changeset),
        Some(doc) => match K::decoded(doc) {
            Some(sum) => Some(sum.merged(changeset)),
            None => None,
        },
    }
}

/// The records after `changeset` has been written to a backend that holds
/// `records`, or the error that the write ends in.
pub open spec fn written<K: Changeset>(records: Map<Seq<char>, Json>, changeset: K) -> Result<
    Map<Seq<char>, Json>,
    MutinyError,
> {
    if changeset.holds_nothing() {
        Ok(records)
    } else {
        match accumulated(stored_changeset(records), changeset) {
            None => Err(MutinyError::SerializationFailed),
            Some(sum) => match sum.encoded() {
                None => Err(MutinyError::PersistenceFailed { source: MutinyStorageError::SerdeError }),
                Some(doc) => Ok(records.insert(KEYCHAIN_STORE_KEY@, doc)),
            },
        }
    }
}

/// What loading finds in `records`: none where no changeset is stored, else
/// the changeset that the record stands for.
pub open spec fn loaded<K: Changeset>(records: Map<Seq<char>, Json>) -> Result<
    Option<K>,
    MutinyError,
> {
    match stored_changeset(records) {
        None => Ok(None),
        Some(doc) => match K::decoded(doc) {
            Some(sum) => Ok(Some(sum)),
            None => Err(MutinyError::SerializationFailed),
        },
    }
}

/// What the adapter asks of a kind of changeset: the document of a changeset
/// stands for that changeset, merging is associative, an empty changeset
/// adds nothing, and a merge is empty only where both sides are.
pub open spec fn is_lawful<K: Changeset>() -> bool {
    &&& forall|k: K| #[trigger] k.encoded() is Some ==> K::decoded(k.encoded().unwrap()) == Some(k)
    &&& forall|a: K, b: K, c: K| #[trigger] a.merged(b).merged(c) == a.merged(b.merged(c))
    &&& forall|a: K, e: K| e.holds_nothing() ==> #[trigger] a.merged(e) == a
    &&& forall|a: K, e: K| e.holds_nothing() ==> #[trigger] e.merged(a) == a
    &&& forall|a: K, b: K| #[trigger]
        a.merged(b).holds_nothing() <==> a.holds_nothing() && b.holds_nothing()
}

/// The changeset that is always empty is lawful.
pub proof fn lemma_unit_is_lawful()
    ensures
        is_lawful::<()>(),
{
}

/// Loading from a backend without records finds nothing stored, and
/// so gives an empty changeset and no error.
pub proof fn lemma_nothing_stored_loads_empty<K: Changeset>()
    ensures
        loaded::<K>(Map::empty()) == Ok::<Option<K>, MutinyError>(None),
{
}

/// Writing an empty changeset leaves every record as it is.
pub proof fn lemma_empty_changeset_writes_nothing<K: Changeset>(
    records: Map<Seq<char>, Json>,
    changeset: K,
)
    requires
        changeset.holds_nothing(),
    ensures
        written(records, changeset) == Ok::<Map<Seq<char>, Json>, MutinyError>(records),
{
}

/// Where nothing is stored yet, writing a changeset that holds something
/// stores its document, and touches no other record.
pub proof fn lemma_first_write_stores_the_changeset<K: Changeset>(
    records: Map<Seq<char>, Json>,
    changeset: K,
)
    requires
        stored_changeset(records) is None,
        !changeset.holds_nothing(),
        changeset.encoded() is Some,
    ensures
        written(records, changeset) == Ok::<Map<Seq<char>, Json>, MutinyError>(
            records.insert(KEYCHAIN_STORE_KEY@, changeset.encoded().unwrap()),
        ),
{
}

/// Where a changeset is stored, writing another that holds something stores
/// the document of the stored one with the other merged into it: the stored
/// one takes the other in, not the other way round.
pub proof fn lemma_write_merges_into_what_is_stored<K: Changeset>(
    records: Map<Seq<char>, Json>,
    sum: K,
    changeset: K,
)
    requires
        stored_changeset(records) is Some,
        K::decoded(stored_changeset(records).unwrap()) == Some(sum),
        !changeset.holds_nothing(),
        sum.merged(changeset).encoded() is Some,
    ensures
        written(records, changeset) == Ok::<Map<Seq<char>, Json>, MutinyError>(
            records.insert(KEYCHAIN_STORE_KEY@, sum.merged(changeset).encoded().unwrap()),
        ),
{
}

/// A changeset whose document stands for it is loaded as it was stored.
pub proof fn lemma_stored_changeset_loads<K: Changeset>(records: Map<Seq<char>, Json>, sum: K)
    requires
        sum.encoded() is Some,
        K::decoded(sum.encoded().unwrap()) == Some(sum),
    ensures
        loaded::<K>(records.insert(KEYCHAIN_STORE_KEY@, sum.encoded().unwrap())) == Ok::<
            Option<K>,
            MutinyError,
        >(Some(sum)),
{
}

/// Writing one changeset and then another leaves the records that writing
/// the two merged leaves, for a lawful kind of changeset.
pub proof fn lemma_two_writes_are_one_merged_write<K: Changeset>(
    records: Map<Seq<char>, Json>,
    first: K,
    second: K,
)
    requires
        is_lawful::<K>(),
        written(records, first) is Ok,
        written(written(records, first).unwrap(), second) is Ok,
    ensures
        written(records, first.merged(second)) == written(
            written(records, first).unwrap(),
            second,
        ),
{
    let key = KEYCHAIN_STORE_KEY@;
    let middle = written(records, first).unwrap();
    let last = written(middle, second).unwrap();
    if first.holds_nothing() {
        assert(first.merged(second) == second);
    } else if second.holds_nothing() {
        assert(first.merged(second) == first);
    } else {
        let sum1 = accumulated(stored_changeset(records), first).unwrap();
        assert(sum1.encoded() is Some);
        assert(K::decoded(sum1.encoded().unwrap()) == Some(sum1));
        let sum2 = accumulated(stored_changeset(middle), second).unwrap();
        assert(sum2 == sum1.merged(second));
        assert(!first.merged(second).holds_nothing());
        match stored_changeset(records) {
            None => {},
            Some(doc) => {
                let sum0 = K::decoded(doc).unwrap();
                assert(sum0.merged(first).merged(second) == sum0.merged(first.merged(second)));
            },
        }
        assert(accumulated(stored_changeset(records), first.merged(second)) == Some(sum2));
        assert(middle.insert(key, sum2.encoded().unwrap()) =~= records.insert(
            key,
            sum2.encoded().unwrap(),
        ));
    }
}

/// A storage seen as the place where the chain-sync engine keeps its changesets.
pub struct OnChainStorage<S: MutinyStorage>(pub S);

impl<S: MutinyStorage> OnChainStorage<S> {
    /// Stores a changeset as the record of the accumulated changeset.
    fn store<K: Changeset>(&mut self, sum: &K) -> (r: Result<(), MutinyError>)
        ensures
            final(self).0.settings() == old(self).0.settings(),
            sum.encoded() is None ==> r == Err::<(), MutinyError>(
                MutinyError::PersistenceFailed { source: MutinyStorageError::SerdeError },
            ),
            sum.encoded() is Some && old(self).0.settings().can_write() ==> r is Ok,
            sum.encoded() is Some && old(self).0.settings().writes is Refused ==> r == Err::<
                (),
                MutinyError,
            >(old(self).0.settings().writes->Refused_0),
            final(self).0.records() == if r is Ok && old(self).0.settings().keeps_records {
                old(self).0.records().insert(KEYCHAIN_STORE_KEY@, sum.encoded().unwrap())
            } else {
                old(self).0.records()
            },
            r is Ok ==> sum.encoded() is Some,
            r is Err && sum.encoded() is Some ==> is_backend_error(r.unwrap_err()),
            final(self).0.versions() == if r is Ok && old(self).0.settings().keeps_versions {
                old(self).0.versions().insert(KEYCHAIN_STORE_KEY@, None)
            } else {
                old(self).0.versions()
            },
    {
        proof {
            lemma_plain_keys();
        }
        match sum.to_document() {
            Some(doc) => self.0.set_data(KEYCHAIN_STORE_KEY, doc, None),
            None => Err(MutinyError::PersistenceFailed { source: MutinyStorageError::SerdeError }),
        }
    }

    /// Merges `changeset` into what is stored.
    ///
    /// An empty changeset changes nothing and reads nothing. Any other is
    /// merged into the stored changeset, or stored as it is where none is
    /// stored yet, and the result takes the place of the record. A call that
    /// fails leaves the record as it was.
    pub fn write_changes<K: Changeset>(&mut self, changeset: &K) -> (r: Result<(), MutinyError>)
        ensures
            changeset.holds_nothing() ==> r is Ok && *final(self) == *old(self),
            final(self).0.settings() == old(self).0.settings(),
            final(self).0.versions() == if r is Ok && !changeset.holds_nothing()
                && old(self).0.settings().keeps_versions {
                old(self).0.versions().insert(KEYCHAIN_STORE_KEY@, None)
            } else {
                old(self).0.versions()
            },
            r is Ok ==> written(old(self).0.records(), *changeset) is Ok,
            final(self).0.records() == if r is Ok && old(self).0.settings().keeps_records {
                written(old(self).0.records(), *changeset).unwrap()
            } else {
                old(self).0.records()
            },
            old(self).0.settings().can_read() ==> match written(old(self).0.records(), *changeset) {
                Ok(_) => if changeset.holds_nothing() {
                    r is Ok
                } else {
                    &&& old(self).0.settings().can_write() ==> r is Ok
                    &&& old(self).0.settings().writes is Refused ==> r == Err::<(), MutinyError>(
                        old(self).0.settings().writes->Refused_0,
                    )
                },
                Err(e) => r == Err::<(), MutinyError>(e),
            },
            !changeset.holds_nothing() && old(self).0.settings().reads is Refused ==> r == Err::<
                (),
                MutinyError,
            >(old(self).0.settings().reads->Refused_0),
            r is Err ==> is_backend_error(r.unwrap_err()) || written(
                old(self).0.records(),
                *changeset,
            ) == Err::<Map<Seq<char>, Json>, MutinyError>(r.unwrap_err()),
    {
        if changeset.is_empty() {
            return Ok(());
        }
        proof {
            lemma_plain_keys();
        }
        match self.0.get_data(KEYCHAIN_STORE_KEY) {
            Err(e) => Err(e),
            Ok(Some(doc)) => match K::from_document(&doc) {
                Some(mut keychain_store) => {
                    keychain_store.append(changeset.duplicate());
                    self.store(&keychain_store)
                },
                None => Err(MutinyError::SerializationFailed),
            },
            Ok(None) => self.store(changeset),
        }
    }

    /// Loads the stored changeset, or an empty one where none is stored.
    ///
    /// Fails with `SerializationFailed` where the record stands for no
    /// changeset. The storage is left as it is.
    pub fn load_from_persistence<K: Changeset>(&mut self) -> (r: Result<K, MutinyError>)
        ensures
            *final(self) == *old(self),
            r is Ok ==> match loaded::<K>(old(self).0.records()) {
                Ok(Some(sum)) => r.unwrap() == sum,
                Ok(None) => r.unwrap().holds_nothing(),
                Err(_) => false,
            },
            old(self).0.settings().can_read() ==> match loaded::<K>(old(self).0.records()) {
                Ok(_) => r is Ok,
                Err(e) => r == Err::<K, MutinyError>(e),
            },
            old(self).0.settings().reads is Refused ==> r == Err::<K, MutinyError>(
                old(self).0.settings().reads->Refused_0,
            ),
            r is Err ==> is_backend_error(r->Err_0) || loaded::<K>(old(self).0.records())
                == Err::<Option<K>, MutinyError>(r->Err_0),
    {
        proof {
            lemma_plain_keys();
        }
        match self.0.get_data(KEYCHAIN_STORE_KEY) {
            Err(e) => Err(e),
            Ok(Some(doc)) => match K::from_document(&doc) {
                Some(k) => Ok(k),
                None => Err(MutinyError::SerializationFailed),
            },
            // If there is no keychain store, we return an empty one
            Ok(None) => Ok(K::empty()),
        }
    }
}

} // verus!
