//! The backends that come with the crate: one that keeps its records in
//! memory, and one that keeps nothing.

use crate::document::{lemma_object_view, object_value, Document, Json};
use crate::encrypt::{Cipher, IdleCipher};
use crate::error::{MutinyError, MutinyStorageError};
use crate::lock::RwLock;
use crate::storage::{
    fields_map, key_matches, keys_are_distinct, lemma_lists_key_push, lemma_lists_key_step,
    lists_key, passphrase_of, text_of, Access, MutinyStorage, Settings,
};
use crate::table::Table;
use crate::text::{ends_with, starts_with};
use vstd::prelude::*;

verus! {

/// A storage that keeps its records in memory, behind a lock that never
/// waits: a read fails while the write hold stands on `memory`, a write
/// fails while any hold stands.
pub struct MemoryStorage<C: Cipher> {
    /// The configured passphrase.
    pub password: Option<String>,
    /// The configured cipher.
    pub cipher: Option<C>,
    /// The records, behind their lock.
    pub memory: RwLock<Table>,
}

impl<C: Cipher> MemoryStorage<C> {
    /// An empty storage with the given passphrase and cipher.
    pub fn new(password: Option<String>, cipher: Option<C>) -> (r: Self)
        ensures
            r.records() == Map::<Seq<char>, Json>::empty(),
            r.settings() == (Settings {
                passphrase: passphrase_of(password),
                cipher,
                keeps_records: true,
                keeps_versions: false,
                reads: Access::Granted,
                writes: Access::Granted,
            }),
    {
        Self { cipher, password, memory: RwLock::new(Table::new()) }
    }
}

impl<C: Cipher> Default for MemoryStorage<C> {
    fn default() -> (r: Self)
        ensures
            r.records() == Map::<Seq<char>, Json>::empty(),
            r.settings() == (Settings::<C> {
                passphrase: None,
                cipher: None,
                keeps_records: true,
                keeps_versions: false,
                reads: Access::Granted,
                writes: Access::Granted,
            }),
    {
        Self::new(None, None)
    }
}

impl<C: Cipher> MutinyStorage for MemoryStorage<C> {
    type Cipher = C;

    open spec fn records(&self) -> Map<Seq<char>, Json> {
        self.memory@@
    }

    /// This storage keeps no versions.
    open spec fn versions(&self) -> Map<Seq<char>, Option<u32>> {
        Map::empty()
    }

    open spec fn settings(&self) -> Settings<C> {
        Settings {
            passphrase: passphrase_of(self.password),
            cipher: self.cipher,
            keeps_records: true,
            keeps_versions: false,
            reads: if self.memory.readable() {
                Access::Granted
            } else {
                Access::Refused(MutinyError::ReadError { source: MutinyStorageError::LockError })
            },
            writes: if self.memory.writable() {
                Access::Granted
            } else {
                Access::Refused(MutinyError::WriteError { source: MutinyStorageError::LockError })
            },
        }
    }

    fn password(&self) -> (r: Option<&str>) {
        match &self.password {
            Some(p) => Some(p.as_str()),
            None => None,
        }
    }

    fn cipher(&self) -> (r: Option<&C>) {
        match &self.cipher {
            Some(c) => Some(c),
            None => None,
        }
    }

    /// Fails, with a write error for lock contention, exactly while a hold
    /// stands on `memory`. The version is not looked at.
    fn set(&mut self, key: &str, value: Document, version: Option<u32>) -> (r: Result<
        (),
        MutinyError,
    >) {
        let key = key.to_owned();
        match self.memory.try_write() {
            Ok(map) => {
                map.insert(key, value);
                Ok(())
            },
            Err(_) => Err(MutinyError::write_err(MutinyStorageError::LockError)),
        }
    }

    /// Fails, with a read error for lock contention, exactly while the write
    /// hold stands on `memory`.
    fn get(&self, key: &str) -> (r: Result<Option<Document>, MutinyError>) {
        match self.memory.try_read() {
            Ok(map) => match map.get(key) {
                None => Ok(None),
                Some(value) => Ok(Some(value.clone())),
            },
            Err(_) => Err(MutinyError::read_err(MutinyStorageError::LockError)),
        }
    }

    /// Fails, with a write error for lock contention, exactly while a hold
    /// stands on `memory`; nothing is removed then.
    fn delete(&mut self, keys: &[String]) -> (r: Result<(), MutinyError>) {
        match self.memory.try_write() {
            Ok(map) => {
                let ghost before = map@;
                let mut i: usize = 0;
                while i < keys.len()
                    invariant
                        i <= keys.len(),
                        map@ == before.remove_keys(
                            Set::new(|k: Seq<char>| lists_key(keys@.subrange(0, i as int), k)),
                        ),
                    decreases keys.len() - i,
                {
                    map.remove(keys[i].as_str());
                    proof {
                        lemma_lists_key_step(keys@, i as int);
                        assert(map@ =~= before.remove_keys(
                            Set::new(|k: Seq<char>| lists_key(keys@.subrange(0, i + 1), k)),
                        ));
                    }
                    i += 1;
                }
                assert(keys@.subrange(0, i as int) =~= keys@);
                Ok(())
            },
            Err(_) => Err(MutinyError::write_err(MutinyStorageError::LockError)),
        }
    }

    /// Nothing to set up: always succeeds and changes nothing.
    fn start(&mut self) -> (r: Result<(), MutinyError>)
        ensures
            r is Ok,
            final(self).settings() == old(self).settings(),
    {
        Ok(())
    }

    fn stop(&self) {
    }

    /// This storage never reaches anything outside the process.
    fn connected(&self) -> (r: Result<bool, MutinyError>)
        ensures
            r == Ok::<bool, MutinyError>(false),
    {
        Ok(false)
    }

    /// Fails, with a read error for lock contention, exactly while the write
    /// hold stands on `memory`.
    fn scan_keys(&self, prefix: &str, suffix: Option<&str>) -> (r: Result<
        Vec<String>,
        MutinyError,
    >) {
        match self.memory.try_read() {
            Ok(map) => {
                let all = map.keys();
                let mut out: Vec<String> = Vec::new();
                let mut i: usize = 0;
                while i < all.len()
                    invariant
                        i <= all.len(),
                        keys_are_distinct(all@),
                        keys_are_distinct(out@),
                        forall|j: int|
                            0 <= j < out.len() ==> lists_key(
                                all@.subrange(0, i as int),
                                (#[trigger] out@[j])@,
                            ) && key_matches(out@[j]@, prefix@, text_of(suffix)),
                        forall|j: int|
                            0 <= j < i && key_matches(
                                (#[trigger] all@[j])@,
                                prefix@,
                                text_of(suffix),
                            ) ==> lists_key(out@, all@[j]@),
                    decreases all.len() - i,
                {
                    let key = &all[i];
                    let fits = starts_with(key.as_str(), prefix) && match suffix {
                        Some(s) => ends_with(key.as_str(), s),
                        None => true,
                    };
                    let ghost done = all@.subrange(0, i as int);
                    let ghost before = out@;
                    if fits {
                        out.push(key.clone());
                    }
                    proof {
                        lemma_lists_key_step(all@, i as int);
                        if fits {
                            lemma_lists_key_push(before, out@[before.len() as int]);
                            assert forall|a: int, b: int| 0 <= a < b < out@.len() implies #[trigger] out@[a]@
                                != #[trigger] out@[b]@ by {
                                if b == before.len() {
                                    assert(lists_key(done, before[a]@));
                                    let c = choose|c: int|
                                        0 <= c < done.len() && #[trigger] done[c]@ == before[a]@;
                                    assert(all@[c]@ != all@[i as int]@);
                                } else {
                                    assert(before[a]@ != before[b]@);
                                }
                            }
                        }
                    }
                    i += 1;
                }
                proof {
                    assert(all@.subrange(0, i as int) =~= all@);
                    assert forall|k: Seq<char>| #[trigger]
                        lists_key(out@, k) <==> self.records().dom().contains(k) && key_matches(
                            k,
                            prefix@,
                            text_of(suffix),
                        ) by {
                        if lists_key(out@, k) {
                            let c = choose|c: int| 0 <= c < out@.len() && #[trigger] out@[c]@ == k;
                            assert(lists_key(all@, out@[c]@));
                        }
                        if self.records().dom().contains(k) && key_matches(k, prefix@, text_of(suffix)) {
                            assert(lists_key(all@, k));
                            let c = choose|c: int| 0 <= c < all@.len() && #[trigger] all@[c]@ == k;
                            assert(lists_key(out@, all@[c]@));
                        }
                    }
                }
                Ok(out)
            },
            Err(_) => Err(MutinyError::read_err(MutinyStorageError::LockError)),
        }
    }

    /// Always succeeds: the passphrase and the cipher are not behind the lock.
    fn change_password(&mut self, new: Option<String>, new_cipher: Option<C>) -> (r: Result<
        (),
        MutinyError,
    >)
        ensures
            r is Ok,
    {
        self.password = new;
        self.cipher = new_cipher;
        Ok(())
    }

    /// Fails, with a write error for lock contention, exactly while a hold
    /// stands on `memory`; otherwise exactly on a document that is no object.
    fn import(&mut self, json: Document) -> (r: Result<(), MutinyError>) {
        match self.memory.try_write() {
            Ok(map) => match json {
                Document::Object(fields) => {
                    proof {
                        lemma_object_view(fields);
                    }
                    let ghost all = object_value(fields@);
                    let mut table = Table::new();
                    let mut i: usize = 0;
                    assert(all.subrange(0, 0) =~= Seq::empty());
                    while i < fields.len()
                        invariant
                            i <= fields.len(),
                            all == object_value(fields@),
                            table@ == fields_map(all.subrange(0, i as int)),
                        decreases fields.len() - i,
                    {
                        proof {
                            assert(all.subrange(0, i + 1).drop_last() =~= all.subrange(0, i as int));
                        }
                        table.insert(fields[i].0.clone(), fields[i].1.clone());
                        i += 1;
                    }
                    assert(all.subrange(0, i as int) =~= all);
                    *map = table;
                    Ok(())
                },
                _ => Err(MutinyError::SerializationFailed),
            },
            Err(_) => Err(MutinyError::write_err(MutinyStorageError::LockError)),
        }
    }

    /// Fails, with a write error for lock contention, exactly while a hold
    /// stands on `memory`.
    fn clear(&mut self) -> (r: Result<(), MutinyError>) {
        match self.memory.try_write() {
            Ok(map) => {
                *map = Table::new();
                Ok(())
            },
            Err(_) => Err(MutinyError::write_err(MutinyStorageError::LockError)),
        }
    }
}

/// The storage for a wallet that runs with persistence switched off: every
/// operation succeeds, nothing is kept, every read finds nothing.
impl MutinyStorage for () {
    type Cipher = IdleCipher;

    open spec fn records(&self) -> Map<Seq<char>, Json> {
        Map::empty()
    }

    open spec fn versions(&self) -> Map<Seq<char>, Option<u32>> {
        Map::empty()
    }

    open spec fn settings(&self) -> Settings<IdleCipher> {
        Settings {
            passphrase: None,
            cipher: None,
            keeps_records: false,
            keeps_versions: false,
            reads: Access::Granted,
            writes: Access::Granted,
        }
    }

    fn password(&self) -> (r: Option<&str>) {
        None
    }

    fn cipher(&self) -> (r: Option<&IdleCipher>) {
        None
    }

    fn set(&mut self, key: &str, value: Document, version: Option<u32>) -> (r: Result<
        (),
        MutinyError,
    >) {
        Ok(())
    }

    fn get(&self, key: &str) -> (r: Result<Option<Document>, MutinyError>) {
        Ok(None)
    }

    fn delete(&mut self, keys: &[String]) -> (r: Result<(), MutinyError>) {
        Ok(())
    }

    fn start(&mut self) -> (r: Result<(), MutinyError>)
        ensures
            r is Ok,
    {
        Ok(())
    }

    fn stop(&self) {
    }

    fn connected(&self) -> (r: Result<bool, MutinyError>)
        ensures
            r == Ok::<bool, MutinyError>(false),
    {
        Ok(false)
    }

    fn scan_keys(&self, prefix: &str, suffix: Option<&str>) -> (r: Result<Vec<String>, MutinyError>) {
        Ok(Vec::new())
    }

    fn change_password(&mut self, new: Option<String>, new_cipher: Option<IdleCipher>) -> (r: Result<
        (),
        MutinyError,
    >) {
        Ok(())
    }

    fn import(&mut self, json: Document) -> (r: Result<(), MutinyError>) {
        Ok(())
    }

    fn clear(&mut self) -> (r: Result<(), MutinyError>) {
        Ok(())
    }
}

} // verus!
