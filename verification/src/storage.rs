//! The storage interface, the rule that says which records are secret, and
//! the codec that applies the rule on the way in and on the way out.

use crate::document::{Document, Json, Number, NumberValue};
use crate::encrypt::{opens_what_it_seals, Cipher, CipherError};
use crate::error::MutinyError;
use crate::fees::{
    document_fees, fees_document, fees_from_document, fees_to_document, fees_value,
};
use crate::json::{deserialize, deserialized, json_text, reads_back, serialize};
use crate::mnemonic::{
    document_mnemonic, mnemonic_document, mnemonic_from_document, mnemonic_to_document,
};
use crate::nodemanager::{document_nodes, nodes_document, NodeStorage, NodeStorageValue};
use crate::text::{has_prefix, has_suffix, same_text, starts_with};
use bip39::Mnemonic;
use vstd::prelude::*;

verus! {

/// The key of the accumulated chain-sync changeset.
pub const KEYCHAIN_STORE_KEY: &'static str = "bdk_keychain";

/// The key of the seed mnemonic.
pub const MNEMONIC_KEY: &'static str = "mnemonic";

/// The key of the table of nodes.
pub const NODES_KEY: &'static str = "nodes";

/// The key of the fee estimates.
pub const FEE_ESTIMATES_KEY: &'static str = "fee_estimates";

/// The key of the flag that marks the first sync as done.
pub const FIRST_SYNC_KEY: &'static str = "first_sync";

/// The prefix that every key of channel-manager state begins with.
pub const CHANNEL_MANAGER_KEY: &'static str = "manager";

/// The keys whose records are secret: the mnemonic key, and every key in the
/// channel-manager namespace.
pub open spec fn is_sensitive(key: Seq<char>) -> bool {
    key == MNEMONIC_KEY@ || has_prefix(key, CHANNEL_MANAGER_KEY@)
}

/// The keys of the records that the wallet keeps in the clear are not secret.
pub proof fn lemma_plain_keys()
    ensures
        !is_sensitive(KEYCHAIN_STORE_KEY@),
        !is_sensitive(NODES_KEY@),
        !is_sensitive(FEE_ESTIMATES_KEY@),
        !is_sensitive(FIRST_SYNC_KEY@),
        is_sensitive(MNEMONIC_KEY@),
{
    reveal_strlit("bdk_keychain");
    reveal_strlit("mnemonic");
    reveal_strlit("nodes");
    reveal_strlit("fee_estimates");
    reveal_strlit("first_sync");
    reveal_strlit("manager");
    assert(NODES_KEY@.len() < CHANNEL_MANAGER_KEY@.len());
    assert(KEYCHAIN_STORE_KEY@.subrange(0, 7)[0] != CHANNEL_MANAGER_KEY@[0]);
    assert(FEE_ESTIMATES_KEY@.subrange(0, 7)[0] != CHANNEL_MANAGER_KEY@[0]);
    assert(FIRST_SYNC_KEY@.subrange(0, 7)[0] != CHANNEL_MANAGER_KEY@[0]);
}

/// Whether the record under `key` must be encrypted before a backend sees it.
pub fn needs_encryption(key: &str) -> (r: bool)
    ensures
        r == is_sensitive(key@),
{
    same_text(key, MNEMONIC_KEY) || starts_with(key, CHANNEL_MANAGER_KEY)
}

/// The characters of an optional string.
pub open spec fn text_of(s: Option<&str>) -> Option<Seq<char>> {
    match s {
        Some(s) => Some(s@),
        None => None,
    }
}

/// The value behind an optional reference.
pub open spec fn owned<T>(r: Option<&T>) -> Option<T> {
    match r {
        Some(r) => Some(*r),
        None => None,
    }
}

/// Whether `stored` is a form in which `value` may be handed to a backend
/// under `key`: for a secret key under a cipher, a string that the cipher
/// gives for the flat string form of `value`; in every other case `value`
/// itself.
pub open spec fn is_sealed_form<C: Cipher>(
    key: Seq<char>,
    value: Json,
    cipher: Option<C>,
    stored: Json,
) -> bool {
    if cipher is Some && is_sensitive(key) {
        stored is Text && json_text(value) is Some && cipher.unwrap().seals(
            json_text(value).unwrap(),
            stored->Text_0,
        )
    } else {
        stored == value
    }
}

/// The error that preparing `value` for a backend ends in, if it ends in
/// one: for a secret key under a cipher, `SerializationFailed` where the
/// document has no JSON text and `EncryptionFailed` where the cipher does not
/// encrypt the text; in every other case none.
pub open spec fn sealing_failure<C: Cipher>(
    key: Seq<char>,
    value: Json,
    cipher: Option<C>,
) -> Option<MutinyError> {
    if cipher is Some && is_sensitive(key) {
        match json_text(value) {
            None => Some(MutinyError::SerializationFailed),
            Some(text) => if cipher.unwrap().encrypts(text) {
                None
            } else {
                Some(MutinyError::EncryptionFailed)
            },
        }
    } else {
        None
    }
}

/// What reading `stored` under `key` gives, with the passphrase if there is
/// one: for a secret key under a passphrase, the document whose encrypted
/// flat string form `stored` holds; in every other case `stored` itself.
pub open spec fn unsealed<C: Cipher>(
    key: Seq<char>,
    stored: Json,
    password: Option<Seq<char>>,
) -> Result<Json, MutinyError> {
    if password is Some && is_sensitive(key) {
        match stored {
            Json::Text(ciphertext) => match C::opened(ciphertext, password.unwrap()) {
                Some(text) => deserialized(text),
                None => Err(MutinyError::DecryptionFailed),
            },
            _ => Err(MutinyError::SerializationFailed),
        }
    } else {
        Ok(stored)
    }
}

/// Whether a result is the one that a model gives, documents taken by their value.
pub open spec fn is_document_result(
    r: Result<Document, MutinyError>,
    model: Result<Json, MutinyError>,
) -> bool {
    match model {
        Ok(doc) => r is Ok && r.unwrap()@ == doc,
        Err(e) => r == Err::<Document, MutinyError>(e),
    }
}

/// The stored form of what the cipher made of a document's text: the
/// ciphertext as a string document, or `EncryptionFailed`.
pub fn wrap_ciphertext(encrypted: Result<String, CipherError>) -> (r: Result<
    Document,
    MutinyError,
>)
    ensures
        match encrypted {
            Ok(ciphertext) => r is Ok && r.unwrap()@ == Json::Text(ciphertext@),
            Err(_) => r == Err::<Document, MutinyError>(MutinyError::EncryptionFailed),
        },
{
    match encrypted {
        Ok(ciphertext) => Ok(Document::Text(ciphertext)),
        Err(_) => Err(MutinyError::EncryptionFailed),
    }
}

/// The document in what the cipher made of a ciphertext: the parsed
/// plaintext, `SerializationFailed` where the plaintext is no document, or
/// `DecryptionFailed`.
pub fn unwrap_plaintext(decrypted: Result<String, CipherError>) -> (r: Result<
    Document,
    MutinyError,
>)
    ensures
        is_document_result(
            r,
            match decrypted {
                Ok(text) => deserialized(text@),
                Err(_) => Err(MutinyError::DecryptionFailed),
            },
        ),
{
    match decrypted {
        Ok(text) => deserialize(text.as_str()),
        Err(_) => Err(MutinyError::DecryptionFailed),
    }
}

/// Prepares `value` for a backend: encrypted if the key is secret and a
/// cipher is configured, unchanged otherwise.
///
/// Without a cipher, or for a key that is not secret, the call succeeds and
/// returns `value`. Otherwise it fails with `SerializationFailed` exactly
/// where the document has no JSON text, with `EncryptionFailed` exactly
/// where it has one that the cipher does not encrypt, and else returns a
/// string that the cipher gives for the text.
pub fn encrypt_value<C: Cipher>(key: &str, value: Document, cipher: Option<&C>) -> (r: Result<
    Document,
    MutinyError,
>)
    ensures
        match sealing_failure(key@, value@, owned(cipher)) {
            Some(e) => r == Err::<Document, MutinyError>(e),
            None => r is Ok && is_sealed_form(key@, value@, owned(cipher), r.unwrap()@),
        },
        !(cipher is Some && is_sensitive(key@)) ==> r == Ok::<Document, MutinyError>(value),
        cipher is Some && is_sensitive(key@) ==> (r == Err::<Document, MutinyError>(
            MutinyError::SerializationFailed,
        ) <==> json_text(value@) is None),
{
    match cipher {
        Some(c) => {
            if needs_encryption(key) {
                let text = serialize(&value)?;
                wrap_ciphertext(c.encrypt(text.as_str()))
            } else {
                Ok(value)
            }
        },
        None => Ok(value),
    }
}

/// Reads what a backend holds under `key`: decrypted if the key is secret and
/// a passphrase is configured, unchanged otherwise.
///
/// Fails with `SerializationFailed` where a secret record is not a string or
/// its plaintext is no document, with `DecryptionFailed` where the cipher
/// does not open it.
pub fn decrypt_value<C: Cipher>(
    key: &str,
    value: Document,
    password: Option<&str>,
) -> (r: Result<Document, MutinyError>)
    ensures
        is_document_result(r, unsealed::<C>(key@, value@, text_of(password))),
        !(password is Some && is_sensitive(key@)) ==> r == Ok::<Document, MutinyError>(value),
{
    match password {
        Some(pw) => {
            if needs_encryption(key) {
                match value.as_text() {
                    Some(ciphertext) => unwrap_plaintext(C::decrypt_with_password(ciphertext, pw)),
                    None => Err(MutinyError::SerializationFailed),
                }
            } else {
                Ok(value)
            }
        },
        None => Ok(value),
    }
}

/// The value of an optional document.
pub open spec fn value_of(doc: Option<Document>) -> Option<Json> {
    match doc {
        Some(doc) => Some(doc@),
        None => None,
    }
}

/// Whether a key begins with `prefix` and, where a suffix is given, ends with it.
pub open spec fn key_matches(key: Seq<char>, prefix: Seq<char>, suffix: Option<Seq<char>>) -> bool {
    has_prefix(key, prefix) && (suffix is Some ==> has_suffix(key, suffix.unwrap()))
}

/// Whether `key` is one of `keys`.
pub open spec fn lists_key(keys: Seq<String>, key: Seq<char>) -> bool {
    exists|i: int| 0 <= i < keys.len() && #[trigger] keys[i]@ == key
}

/// Whether no key occurs twice in `keys`.
pub open spec fn keys_are_distinct(keys: Seq<String>) -> bool {
    forall|i: int, j: int| 0 <= i < j < keys.len() ==> #[trigger] keys[i]@ != #[trigger] keys[j]@
}

/// Whether `entries` holds an entry of the given key.
pub open spec fn names_key(entries: Seq<(String, Document)>, key: Seq<char>) -> bool {
    exists|i: int| 0 <= i < entries.len() && (#[trigger] entries[i]).0@ == key
}

/// A key is listed once another has been added exactly if it was listed
/// before or is the one added.
pub proof fn lemma_lists_key_push(keys: Seq<String>, key: String)
    ensures
        forall|k: Seq<char>| #[trigger]
            lists_key(keys.push(key), k) <==> lists_key(keys, k) || k == key@,
{
    let more = keys.push(key);
    assert forall|k: Seq<char>| #[trigger] lists_key(more, k) <==> lists_key(keys, k) || k
        == key@ by {
        if lists_key(more, k) {
            let c = choose|c: int| 0 <= c < more.len() && #[trigger] more[c]@ == k;
            if c < keys.len() {
                assert(keys[c]@ == k);
            }
        }
        if lists_key(keys, k) {
            let c = choose|c: int| 0 <= c < keys.len() && #[trigger] keys[c]@ == k;
            assert(more[c]@ == k);
        }
        if k == key@ {
            assert(more[keys.len() as int]@ == k);
        }
    }
}

/// A key is among the first `i + 1` keys exactly if it is among the first
/// `i` or is the next one.
pub proof fn lemma_lists_key_step(keys: Seq<String>, i: int)
    requires
        0 <= i < keys.len(),
    ensures
        forall|k: Seq<char>| #[trigger]
            lists_key(keys.subrange(0, i + 1), k) <==> lists_key(keys.subrange(0, i), k) || k
                == keys[i]@,
{
    assert(keys.subrange(0, i + 1) =~= keys.subrange(0, i).push(keys[i]));
    lemma_lists_key_push(keys.subrange(0, i), keys[i]);
}

/// A key is named once an entry has been added exactly if it was named
/// before or is the key of the entry added.
pub proof fn lemma_names_key_push(entries: Seq<(String, Document)>, entry: (String, Document))
    ensures
        forall|k: Seq<char>| #[trigger]
            names_key(entries.push(entry), k) <==> names_key(entries, k) || k == entry.0@,
{
    let more = entries.push(entry);
    assert forall|k: Seq<char>| #[trigger] names_key(more, k) <==> names_key(entries, k) || k
        == entry.0@ by {
        if names_key(more, k) {
            let c = choose|c: int| 0 <= c < more.len() && (#[trigger] more[c]).0@ == k;
            if c < entries.len() {
                assert(entries[c].0@ == k);
            }
        }
        if names_key(entries, k) {
            let c = choose|c: int| 0 <= c < entries.len() && (#[trigger] entries[c]).0@ == k;
            assert(more[c].0@ == k);
        }
        if k == entry.0@ {
            assert(more[entries.len() as int].0@ == k);
        }
    }
}

/// A key is named among the first `i + 1` entries exactly if it is named
/// among the first `i` or is the key of the next one.
pub proof fn lemma_names_key_step(entries: Seq<(String, Document)>, i: int)
    requires
        0 <= i < entries.len(),
    ensures
        forall|k: Seq<char>| #[trigger]
            names_key(entries.subrange(0, i + 1), k) <==> names_key(entries.subrange(0, i), k)
                || k == entries[i].0@,
{
    assert(entries.subrange(0, i + 1) =~= entries.subrange(0, i).push(entries[i]));
    lemma_names_key_push(entries.subrange(0, i), entries[i]);
}

/// Whether `after` is what a rotation may leave under `key` in place of
/// `before`: for a secret record that the old passphrase reads, a form of the
/// document read, sealed with the new cipher; for every other record,
/// `before` itself.
pub open spec fn is_rotated_form<C: Cipher>(
    key: Seq<char>,
    before: Json,
    old_password: Option<Seq<char>>,
    new_cipher: Option<C>,
    after: Json,
) -> bool {
    if is_sensitive(key) && unsealed::<C>(key, before, old_password) is Ok {
        is_sealed_form(key, unsealed::<C>(key, before, old_password).unwrap(), new_cipher, after)
    } else {
        after == before
    }
}

/// Whether a new passphrase switches encryption on: it is there and not empty.
pub open spec fn calls_for_cipher(new: Option<Seq<char>>) -> bool {
    new is Some && new.unwrap().len() > 0
}

/// The cipher that a rotation to `new` installs: the key material derived
/// from it where it switches encryption on, none otherwise.
pub open spec fn rotated_cipher<C: Cipher>(new: Option<Seq<char>>) -> Option<C> {
    if calls_for_cipher(new) {
        C::derived(new.unwrap())
    } else {
        None
    }
}

/// Whether a rotation writes the record under `key` again: the record is
/// there, it is secret, and the old passphrase reads it.
pub open spec fn is_rewritten<C: Cipher>(
    records: Map<Seq<char>, Json>,
    old_password: Option<Seq<char>>,
    key: Seq<char>,
) -> bool {
    records.dom().contains(key) && is_sensitive(key) && unsealed::<C>(
        key,
        records[key],
        old_password,
    ) is Ok
}

/// Whether two notes of versions say the same of `key`.
pub open spec fn same_version(
    a: Map<Seq<char>, Option<u32>>,
    b: Map<Seq<char>, Option<u32>>,
    key: Seq<char>,
) -> bool {
    a.dom().contains(key) == b.dom().contains(key) && (a.dom().contains(key) ==> a[key] == b[key])
}

/// Whether the record under `key` is noted as written without a version.
pub open spec fn is_unversioned(versions: Map<Seq<char>, Option<u32>>, key: Seq<char>) -> bool {
    versions.dom().contains(key) && versions[key] is None
}

/// The settings that a rotation to `new` installs on a storage with the
/// given settings: the new passphrase and its cipher where the storage keeps
/// what it is given, the settings as they are where it does not.
pub open spec fn rotated_settings<C: Cipher>(settings: Settings<C>, new: Option<Seq<char>>) -> Settings<
    C,
> {
    if settings.keeps_records {
        Settings { passphrase: new, cipher: rotated_cipher::<C>(new), ..settings }
    } else {
        settings
    }
}

/// Whether a rotation to `new` has the cipher it needs: where `new`
/// switches encryption on, key material is derived from it.
pub open spec fn finds_cipher<C: Cipher>(new: Option<Seq<char>>) -> bool {
    calls_for_cipher(new) ==> C::derived(new.unwrap()) is Some
}

/// Whether a rotation can write the record under `key` again: where the
/// record is secret and the old passphrase reads it, preparing what was read
/// for the backend under the new cipher does not fail.
pub open spec fn can_reseal<C: Cipher>(
    key: Seq<char>,
    before: Json,
    old_password: Option<Seq<char>>,
    new_cipher: Option<C>,
) -> bool {
    is_sensitive(key) && unsealed::<C>(key, before, old_password) is Ok ==> sealing_failure(
        key,
        unsealed::<C>(key, before, old_password).unwrap(),
        new_cipher,
    ) is None
}

/// What reading the flag of the first sync makes of a typed read: the flag
/// counts as set only where the record is `true`; a record that is no
/// boolean is an error.
pub open spec fn first_sync_flag(read: Result<Option<Json>, MutinyError>) -> Result<
    bool,
    MutinyError,
> {
    match read {
        Ok(Some(Json::Bool(flag))) => Ok(flag),
        Ok(Some(_)) => Err(MutinyError::SerializationFailed),
        Ok(None) => Ok(false),
        Err(e) => Err(e),
    }
}

/// What reading the table of nodes makes of a typed read: the table that is
/// stored, or the empty table at version 0 where none is stored.
pub open spec fn stored_nodes(read: Result<Option<Json>, MutinyError>) -> Result<
    NodeStorageValue,
    MutinyError,
> {
    match read {
        Ok(Some(doc)) => match document_nodes(doc) {
            Some(table) => Ok(table),
            None => Err(MutinyError::SerializationFailed),
        },
        Ok(None) => Ok(NodeStorageValue { nodes: Seq::empty(), version: 0 }),
        Err(e) => Err(e),
    }
}

/// What reading the fee estimates makes of a typed read.
pub open spec fn stored_fees(read: Result<Option<Json>, MutinyError>) -> Result<
    Option<Seq<(Seq<char>, NumberValue)>>,
    MutinyError,
> {
    match read {
        Ok(Some(doc)) => match document_fees(doc) {
            Some(fees) => Ok(Some(fees)),
            None => Err(MutinyError::SerializationFailed),
        },
        Ok(None) => Ok(None),
        Err(e) => Err(e),
    }
}

/// The mathematical value of optional fee estimates.
pub open spec fn fees_of(fees: Option<Vec<(String, Number)>>) -> Option<
    Seq<(Seq<char>, NumberValue)>,
> {
    match fees {
        Some(fees) => Some(fees_value(fees@)),
        None => None,
    }
}

/// What reading the mnemonic makes of a typed read.
pub open spec fn stored_mnemonic(read: Result<Option<Json>, MutinyError>) -> Result<
    Option<Mnemonic>,
    MutinyError,
> {
    match read {
        Ok(Some(doc)) => match document_mnemonic(doc) {
            Ok(mnemonic) => Ok(Some(mnemonic)),
            Err(e) => Err(e),
        },
        Ok(None) => Ok(None),
        Err(e) => Err(e),
    }
}

/// What a typed read of `key` gives over the given records: nothing where
/// the key is absent, else the stored document read with the passphrase.
pub open spec fn read_record<C: Cipher>(
    records: Map<Seq<char>, Json>,
    password: Option<Seq<char>>,
    key: Seq<char>,
) -> Result<Option<Json>, MutinyError> {
    if records.dom().contains(key) {
        match unsealed::<C>(key, records[key], password) {
            Ok(doc) => Ok(Some(doc)),
            Err(e) => Err(e),
        }
    } else {
        Ok(None)
    }
}

/// The characters of an optional owned string.
pub open spec fn passphrase_of(password: Option<String>) -> Option<Seq<char>> {
    match password {
        Some(p) => Some(p@),
        None => None,
    }
}

/// The records that the fields of an object stand for: each name with its
/// value, the last value where a name occurs more than once.
pub open spec fn fields_map(fields: Seq<(Seq<char>, Json)>) -> Map<Seq<char>, Json>
    decreases fields.len(),
{
    if fields.len() == 0 {
        Map::empty()
    } else {
        fields_map(fields.drop_last()).insert(fields.last().0, fields.last().1)
    }
}

/// The records that a document stands for when it is imported: those of its
/// fields, where it is an object.
pub open spec fn imported(json: Json) -> Option<Map<Seq<char>, Json>> {
    match json {
        Json::Object(fields) => Some(fields_map(fields)),
        _ => None,
    }
}

/// Whether an error is one of those that a backend reports of itself: that
/// it could not read, could not write, or would not keep the data.
pub open spec fn is_backend_error(e: MutinyError) -> bool {
    e is ReadError || e is WriteError || e is PersistenceFailed
}

/// How a backend stands to one kind of access, as long as its settings stay
/// as they are.
pub enum Access {
    /// Every access succeeds.
    Granted,
    /// Every access fails with the given error, and changes nothing.
    Refused(MutinyError),
    /// The backend decides from access to access.
    Unsettled,
}

/// What a storage is configured with, and its standing: all that an
/// operation on records leaves alone.
pub struct Settings<C> {
    /// The configured passphrase, if there is one.
    pub passphrase: Option<Seq<char>>,
    /// The configured cipher, if there is one.
    pub cipher: Option<C>,
    /// Whether the backend keeps what it is given. One that does not accepts
    /// every write and every new passphrase, and holds nothing.
    pub keeps_records: bool,
    /// Whether the backend keeps, with each record, the version that the
    /// record was written at.
    pub keeps_versions: bool,
    /// How the backend stands to reads.
    pub reads: Access,
    /// How the backend stands to writes.
    pub writes: Access,
}

impl<C> Settings<C> {
    /// Whether every read succeeds.
    pub open spec fn can_read(self) -> bool {
        self.reads is Granted
    }

    /// Whether every write succeeds.
    pub open spec fn can_write(self) -> bool {
        self.writes is Granted
    }
}

/// A record that is not secret reads back as it was written, whatever the
/// passphrase and the cipher: what `set_data` stores under such a key is the
/// document itself, and `get_data` returns it.
pub proof fn lemma_plain_record_reads_back<C: Cipher>(
    records: Map<Seq<char>, Json>,
    key: Seq<char>,
    value: Json,
    cipher: Option<C>,
    password: Option<Seq<char>>,
    stored: Json,
)
    requires
        !is_sensitive(key),
        is_sealed_form(key, value, cipher, stored),
    ensures
        stored == value,
        read_record::<C>(records.insert(key, stored), password, key) == Ok::<
            Option<Json>,
            MutinyError,
        >(Some(value)),
{
}

/// Under a cipher, what `set_data` stores for a secret key is a string.
pub proof fn lemma_secret_record_is_text<C: Cipher>(
    key: Seq<char>,
    value: Json,
    cipher: C,
    stored: Json,
)
    requires
        is_sensitive(key),
        is_sealed_form(key, value, Some(cipher), stored),
    ensures
        stored is Text,
        json_text(value) is Some,
        cipher.seals(json_text(value).unwrap(), stored->Text_0),
{
}

/// Under a cipher, the mnemonic is stored as a string, and the string opens
/// under the passphrase to the JSON text of the phrase: given a cipher that
/// opens under the passphrase what it seals.
pub proof fn lemma_mnemonic_is_stored_as_ciphertext<C: Cipher>(
    mnemonic: Mnemonic,
    cipher: C,
    password: Seq<char>,
    stored: Json,
)
    requires
        is_sealed_form(MNEMONIC_KEY@, mnemonic_document(mnemonic), Some(cipher), stored),
        opens_what_it_seals(cipher, password),
    ensures
        stored is Text,
        json_text(mnemonic_document(mnemonic)) is Some,
        C::opened(stored->Text_0, password) == json_text(mnemonic_document(mnemonic)),
{
    lemma_plain_keys();
}

/// A secret record reads back as it was written, given a cipher that opens
/// under the passphrase what it seals and a document whose JSON text reads
/// back as itself.
pub proof fn lemma_secret_record_reads_back<C: Cipher>(
    records: Map<Seq<char>, Json>,
    key: Seq<char>,
    value: Json,
    cipher: C,
    password: Seq<char>,
    stored: Json,
)
    requires
        is_sensitive(key),
        is_sealed_form(key, value, Some(cipher), stored),
        opens_what_it_seals(cipher, password),
        reads_back(value),
    ensures
        read_record::<C>(records.insert(key, stored), Some(password), key) == Ok::<
            Option<Json>,
            MutinyError,
        >(Some(value)),
{
}

/// Without a cipher and a passphrase nothing is encrypted: a record, secret
/// or not, is stored as the document itself and reads back as it.
pub proof fn lemma_record_without_passphrase<C: Cipher>(
    records: Map<Seq<char>, Json>,
    key: Seq<char>,
    value: Json,
    stored: Json,
)
    requires
        is_sealed_form(key, value, None::<C>, stored),
    ensures
        stored == value,
        read_record::<C>(records.insert(key, stored), None, key) == Ok::<
            Option<Json>,
            MutinyError,
        >(Some(value)),
{
}

/// What a rotation leaves of a secret record reads, with the new passphrase,
/// as the record read with the old one: given that the old passphrase read
/// it, that the new cipher opens under the new passphrase what it seals, and
/// that the JSON text of the document reads back as itself.
pub proof fn lemma_rotated_record_reads_back<C: Cipher>(
    key: Seq<char>,
    before: Json,
    old_password: Option<Seq<char>>,
    value: Json,
    new_cipher: C,
    new_password: Seq<char>,
    after: Json,
)
    requires
        is_sensitive(key),
        unsealed::<C>(key, before, old_password) == Ok::<Json, MutinyError>(value),
        is_rotated_form(key, before, old_password, Some(new_cipher), after),
        opens_what_it_seals(new_cipher, new_password),
        reads_back(value),
    ensures
        unsealed::<C>(key, after, Some(new_password)) == Ok::<Json, MutinyError>(value),
{
}

/// After a rotation to a passphrase that switches encryption on, a secret
/// record that the old passphrase read reads the same with the new one:
/// given that the key material derived from the new passphrase opens under
/// it what it seals, and that the JSON text of the document reads back as
/// itself.
pub proof fn lemma_rotation_reads_back<C: Cipher>(
    key: Seq<char>,
    before: Json,
    old_password: Option<Seq<char>>,
    value: Json,
    new_password: Seq<char>,
    after: Json,
)
    requires
        is_sensitive(key),
        unsealed::<C>(key, before, old_password) == Ok::<Json, MutinyError>(value),
        calls_for_cipher(Some(new_password)),
        finds_cipher::<C>(Some(new_password)),
        is_rotated_form(
            key,
            before,
            old_password,
            rotated_cipher::<C>(Some(new_password)),
            after,
        ),
        opens_what_it_seals(C::derived(new_password).unwrap(), new_password),
        reads_back(value),
    ensures
        after is Text,
        unsealed::<C>(key, after, Some(new_password)) == Ok::<Json, MutinyError>(value),
{
    lemma_rotated_record_reads_back::<C>(
        key,
        before,
        old_password,
        value,
        C::derived(new_password).unwrap(),
        new_password,
        after,
    );
}

/// A rotation to no passphrase leaves a secret record that the old
/// passphrase read as the document itself.
pub proof fn lemma_rotated_record_without_passphrase<C: Cipher>(
    key: Seq<char>,
    before: Json,
    old_password: Option<Seq<char>>,
    value: Json,
    after: Json,
)
    requires
        is_sensitive(key),
        unsealed::<C>(key, before, old_password) == Ok::<Json, MutinyError>(value),
        is_rotated_form(key, before, old_password, None::<C>, after),
    ensures
        after == value,
        unsealed::<C>(key, after, None) == Ok::<Json, MutinyError>(value),
{
}

/// A rotation leaves a record that is not secret as it was.
pub proof fn lemma_rotation_keeps_plain_records<C: Cipher>(
    key: Seq<char>,
    before: Json,
    old_password: Option<Seq<char>>,
    new_cipher: Option<C>,
    after: Json,
)
    requires
        !is_sensitive(key),
        is_rotated_form(key, before, old_password, new_cipher, after),
    ensures
        after == before,
{
}

/// A document with the version that it was written at, for backends that
/// tell a stale write from a fresh one.
#[derive(Debug, PartialEq, Eq)]
pub struct VersionedValue {
    pub version: u32,
    pub value: Document,
}

impl Clone for VersionedValue {
    fn clone(&self) -> (r: VersionedValue)
        ensures
            r.version == self.version,
            r.value@ == self.value@,
    {
        VersionedValue { version: self.version, value: self.value.clone() }
    }
}

/// The interface between the wallet and a place that keeps its records.
///
/// A backend supplies the operations without a body; the typed and
/// encrypting operations are built on them and come with the trait.
pub trait MutinyStorage: Sized {
    /// The cipher that protects the secret records.
    type Cipher: Cipher;

    /// The records that the backend holds: each key with the document stored under it.
    spec fn records(&self) -> Map<Seq<char>, Json>;

    /// The version that each record was last written at, for a backend that
    /// keeps versions.
    spec fn versions(&self) -> Map<Seq<char>, Option<u32>>;

    /// The passphrase, the cipher and the standing of the storage.
    spec fn settings(&self) -> Settings<Self::Cipher>;

    /// Get the password used to encrypt the storage
    fn password(&self) -> (r: Option<&str>)
        ensures
            text_of(r) == self.settings().passphrase,
    ;

    /// Get the encryption key used for storage
    fn cipher(&self) -> (r: Option<&Self::Cipher>)
        ensures
            owned(r) == self.settings().cipher,
    ;

    /// Set a value in the storage, the value will already be encrypted if needed
    ///
    /// A backend that keeps versions notes `version` with the record; what
    /// it makes of a stale version is its own concern.
    fn set(&mut self, key: &str, value: Document, version: Option<u32>) -> (r: Result<
        (),
        MutinyError,
    >)
        ensures
            old(self).settings().can_write() ==> r is Ok,
            old(self).settings().writes is Refused ==> r == Err::<(), MutinyError>(
                old(self).settings().writes->Refused_0,
            ),
            r is Err ==> is_backend_error(r.unwrap_err()),
            final(self).records() == if r is Ok && old(self).settings().keeps_records {
                old(self).records().insert(key@, value@)
            } else {
                old(self).records()
            },
            final(self).versions() == if r is Ok && old(self).settings().keeps_versions {
                old(self).versions().insert(key@, version)
            } else {
                old(self).versions()
            },
            final(self).settings() == old(self).settings(),
    ;

    /// Get a value from the storage, use get_data if you want the value to be decrypted
    fn get(&self, key: &str) -> (r: Result<Option<Document>, MutinyError>)
        ensures
            self.settings().can_read() ==> r is Ok,
            self.settings().reads is Refused ==> r == Err::<Option<Document>, MutinyError>(
                self.settings().reads->Refused_0,
            ),
            r is Err ==> is_backend_error(r.unwrap_err()),
            r is Ok ==> value_of(r.unwrap()) == if self.records().dom().contains(key@) {
                Some(self.records()[key@])
            } else {
                None
            },
    ;

    /// Delete a set of values from the storage
    ///
    /// Keys without a record are passed over. A call that fails has removed
    /// nothing but records of the given keys.
    fn delete(&mut self, keys: &[String]) -> (r: Result<(), MutinyError>)
        ensures
            old(self).settings().can_write() ==> r is Ok,
            old(self).settings().writes is Refused ==> r == Err::<(), MutinyError>(
                old(self).settings().writes->Refused_0,
            ) && final(self).records() == old(self).records(),
            r is Err ==> is_backend_error(r.unwrap_err()),
            r is Ok ==> final(self).records() == if old(self).settings().keeps_records {
                old(self).records().remove_keys(Set::new(|k: Seq<char>| lists_key(keys@, k)))
            } else {
                old(self).records()
            },
            forall|k: Seq<char>| #[trigger]
                final(self).records().dom().contains(k) ==> old(self).records().dom().contains(k)
                    && final(self).records()[k] == old(self).records()[k],
            forall|k: Seq<char>| #[trigger]
                old(self).records().dom().contains(k) && !lists_key(keys@, k)
                    ==> final(self).records().dom().contains(k),
            final(self).settings() == old(self).settings(),
    ;

    /// Start the storage, this will be called before any other methods
    fn start(&mut self) -> (r: Result<(), MutinyError>)
        ensures
            r is Err ==> is_backend_error(r.unwrap_err()),
            final(self).records() == old(self).records(),
            final(self).settings().passphrase == old(self).settings().passphrase,
            final(self).settings().cipher == old(self).settings().cipher,
            final(self).settings().keeps_records == old(self).settings().keeps_records,
            final(self).settings().keeps_versions == old(self).settings().keeps_versions,
    ;

    /// Stop the storage, this will be called when the application is shutting down
    fn stop(&self)
    ;

    /// Check if the storage is connected
    fn connected(&self) -> (r: Result<bool, MutinyError>)
        ensures
            r is Err ==> is_backend_error(r.unwrap_err()),
    ;

    /// Scan the storage for keys with a given prefix and suffix, this will return a list of keys
    /// If this function does not properly filter the keys, it can cause major problems.
    fn scan_keys(&self, prefix: &str, suffix: Option<&str>) -> (r: Result<Vec<String>, MutinyError>)
        ensures
            self.settings().can_read() ==> r is Ok,
            self.settings().reads is Refused ==> r == Err::<Vec<String>, MutinyError>(
                self.settings().reads->Refused_0,
            ),
            r is Err ==> is_backend_error(r.unwrap_err()),
            r is Ok ==> keys_are_distinct(r.unwrap()@),
            r is Ok ==> forall|k: Seq<char>| #[trigger]
                lists_key(r.unwrap()@, k) <==> self.records().dom().contains(k) && key_matches(
                    k,
                    prefix@,
                    text_of(suffix),
                ),
    ;

    /// Replaces the configured passphrase and cipher. No record is touched.
    fn change_password(&mut self, new: Option<String>, new_cipher: Option<Self::Cipher>) -> (r:
        Result<(), MutinyError>)
        ensures
            old(self).settings().can_write() ==> r is Ok,
            r is Err ==> is_backend_error(r.unwrap_err()),
            final(self).settings() == if r is Ok && old(self).settings().keeps_records {
                Settings { passphrase: passphrase_of(new), cipher: new_cipher, ..old(self).settings() }
            } else {
                old(self).settings()
            },
            final(self).records() == old(self).records(),
            final(self).versions() == old(self).versions(),
    ;

    /// Override the storage with the new JSON object
    ///
    /// The fields of the object become the records, in place of all that was
    /// stored. A document that is no object is refused with
    /// `SerializationFailed`, and a call that fails leaves the records as
    /// they were.
    fn import(&mut self, json: Document) -> (r: Result<(), MutinyError>)
        ensures
            old(self).settings().can_write() ==> r == if imported(json@) is None
                && old(self).settings().keeps_records {
                Err::<(), MutinyError>(MutinyError::SerializationFailed)
            } else {
                Ok(())
            },
            old(self).settings().writes is Refused ==> r == Err::<(), MutinyError>(
                old(self).settings().writes->Refused_0,
            ),
            r is Err ==> is_backend_error(r.unwrap_err()) || (r.unwrap_err()
                == MutinyError::SerializationFailed && imported(json@) is None),
            r is Ok && old(self).settings().keeps_records ==> imported(json@) is Some,
            final(self).records() == if r is Ok && old(self).settings().keeps_records {
                imported(json@).unwrap()
            } else {
                old(self).records()
            },
            final(self).settings() == old(self).settings(),
    ;

    /// Deletes all data from the storage
    fn clear(&mut self) -> (r: Result<(), MutinyError>)
        ensures
            old(self).settings().can_write() ==> r is Ok,
            r is Err ==> is_backend_error(r.unwrap_err()),
            old(self).settings().writes is Refused ==> r == Err::<(), MutinyError>(
                old(self).settings().writes->Refused_0,
            ),
            final(self).records() == if r is Ok && old(self).settings().keeps_records {
                Map::<Seq<char>, Json>::empty()
            } else {
                old(self).records()
            },
            final(self).settings() == old(self).settings(),
    ;

    /// Set a value in the storage, the function will encrypt the value if needed
    ///
    /// The document is prepared as `encrypt_value` prepares it, and where
    /// that fails the call fails with the same error and the backend is not
    /// asked. Otherwise the prepared document is handed to `set` with the
    /// key and the version as they were given, and what `set` returns is
    /// returned. A call that fails leaves every record as it was.
    fn set_data(&mut self, key: &str, value: Document, version: Option<u32>) -> (r: Result<
        (),
        MutinyError,
    >)
        ensures
            match sealing_failure(key@, value@, old(self).settings().cipher) {
                Some(e) => r == Err::<(), MutinyError>(e),
                None => {
                    &&& old(self).settings().can_write() ==> r is Ok
                    &&& old(self).settings().writes is Refused ==> r == Err::<(), MutinyError>(
                        old(self).settings().writes->Refused_0,
                    )
                    &&& r is Err ==> is_backend_error(r.unwrap_err())
                },
            },
            final(self).versions() == if r is Ok && old(self).settings().keeps_versions {
                old(self).versions().insert(key@, version)
            } else {
                old(self).versions()
            },
            r is Ok && old(self).settings().keeps_records ==> {
                &&& final(self).records().dom().contains(key@)
                &&& is_sealed_form(
                    key@,
                    value@,
                    old(self).settings().cipher,
                    final(self).records()[key@],
                )
                &&& final(self).records() == old(self).records().insert(
                    key@,
                    final(self).records()[key@],
                )
            },
            !(r is Ok && old(self).settings().keeps_records) ==> final(self).records()
                == old(self).records(),
            final(self).settings() == old(self).settings(),
    {
        let sealed = encrypt_value(key, value, self.cipher());
        match sealed {
            Ok(json) => self.set(key, json, version),
            Err(e) => Err(e),
        }
    }

    /// Get a value from the storage, the function will decrypt the value if needed
    ///
    /// Where the backend can read, the result is exactly what `read_record`
    /// gives for the records and the passphrase.
    fn get_data(&self, key: &str) -> (r: Result<Option<Document>, MutinyError>)
        ensures
            r is Ok ==> read_record::<Self::Cipher>(self.records(), self.settings().passphrase, key@)
                == Ok::<Option<Json>, MutinyError>(value_of(r.unwrap())),
            self.settings().can_read() ==> match read_record::<Self::Cipher>(
                self.records(),
                self.settings().passphrase,
                key@,
            ) {
                Ok(doc) => r is Ok,
                Err(e) => r == Err::<Option<Document>, MutinyError>(e),
            },
            self.settings().reads is Refused ==> r == Err::<Option<Document>, MutinyError>(
                self.settings().reads->Refused_0,
            ),
            r is Err ==> is_backend_error(r.unwrap_err()) || read_record::<Self::Cipher>(
                self.records(),
                self.settings().passphrase,
                key@,
            ) == Err::<Option<Json>, MutinyError>(r.unwrap_err()),
    {
        match self.get(key) {
            Err(e) => Err(e),
            Ok(None) => Ok(None),
            Ok(Some(value)) => {
                match decrypt_value::<Self::Cipher>(key, value, self.password()) {
                    Ok(doc) => Ok(Some(doc)),
                    Err(e) => Err(e),
                }
            },
        }
    }

    /// Scan the storage for keys with a given prefix and suffix, and then gets their values
    ///
    /// A record that cannot be read (not decrypted, not parsed, not handed
    /// out by the backend) is left out; the scan itself does not fail for it.
    /// So every entry is a matching record as `get_data` reads it, and where
    /// the backend can read, every matching record that `get_data` reads is
    /// an entry.
    fn scan(&self, prefix: &str, suffix: Option<&str>) -> (r: Result<
        Vec<(String, Document)>,
        MutinyError,
    >)
        ensures
            self.settings().can_read() ==> r is Ok,
            self.settings().reads is Refused ==> r == Err::<Vec<(String, Document)>, MutinyError>(
                self.settings().reads->Refused_0,
            ),
            r is Err ==> is_backend_error(r.unwrap_err()),
            r is Ok ==> forall|i: int|
                0 <= i < r.unwrap()@.len() ==> {
                    let key = (#[trigger] r.unwrap()@[i]).0@;
                    &&& self.records().dom().contains(key)
                    &&& key_matches(key, prefix@, text_of(suffix))
                    &&& read_record::<Self::Cipher>(self.records(), self.settings().passphrase, key)
                        == Ok::<Option<Json>, MutinyError>(Some(r.unwrap()@[i].1@))
                },
            r is Ok ==> forall|i: int, j: int|
                0 <= i < j < r.unwrap()@.len() ==> (#[trigger] r.unwrap()@[i]).0@ != (
                #[trigger] r.unwrap()@[j]).0@,
            r is Ok && self.settings().can_read() ==> forall|key: Seq<char>|
                self.records().dom().contains(key) && key_matches(key, prefix@, text_of(suffix))
                    && read_record::<Self::Cipher>(
                    self.records(),
                    self.settings().passphrase,
                    key,
                ) is Ok ==> #[trigger] names_key(r.unwrap()@, key),
    {
        let keys = match self.scan_keys(prefix, suffix) {
            Ok(keys) => keys,
            Err(e) => {
                return Err(e);
            },
        };
        let mut out: Vec<(String, Document)> = Vec::new();
        let mut i: usize = 0;
        while i < keys.len()
            invariant
                i <= keys.len(),
                keys_are_distinct(keys@),
                forall|k: Seq<char>| #[trigger]
                    lists_key(keys@, k) <==> self.records().dom().contains(k) && key_matches(
                        k,
                        prefix@,
                        text_of(suffix),
                    ),
                forall|j: int|
                    0 <= j < out@.len() ==> {
                        let key = (#[trigger] out@[j]).0@;
                        &&& lists_key(keys@.subrange(0, i as int), key)
                        &&& read_record::<Self::Cipher>(
                            self.records(),
                            self.settings().passphrase,
                            key,
                        ) == Ok::<Option<Json>, MutinyError>(Some(out@[j].1@))
                    },
                forall|a: int, b: int|
                    0 <= a < b < out@.len() ==> (#[trigger] out@[a]).0@ != (#[trigger] out@[b]).0@,
                self.settings().can_read() ==> forall|j: int|
                    0 <= j < i && read_record::<Self::Cipher>(
                        self.records(),
                        self.settings().passphrase,
                        (#[trigger] keys@[j])@,
                    ) is Ok ==> names_key(out@, keys@[j]@),
            decreases keys.len() - i,
        {
            let key = &keys[i];
            let ghost done = keys@.subrange(0, i as int);
            let ghost before = out@;
            proof {
                assert(lists_key(keys@, keys@[i as int]@));
                lemma_lists_key_step(keys@, i as int);
            }
            match self.get_data(key.as_str()) {
                Ok(Some(value)) => {
                    out.push((key.clone(), value));
                    proof {
                        lemma_names_key_push(before, out@[before.len() as int]);
                        assert forall|a: int, b: int| 0 <= a < b < out@.len() implies (
                        #[trigger] out@[a]).0@ != (#[trigger] out@[b]).0@ by {
                            if b == before.len() {
                                assert(lists_key(done, before[a].0@));
                                let c = choose|c: int|
                                    0 <= c < done.len() && #[trigger] done[c]@ == before[a].0@;
                                assert(keys@[c]@ != keys@[i as int]@);
                            } else {
                                assert(before[a].0@ != before[b].0@);
                            }
                        }
                    }
                },
                _ => {},
            }
            i += 1;
        }
        proof {
            assert(keys@.subrange(0, i as int) =~= keys@);
            if self.settings().can_read() {
                assert forall|key: Seq<char>|
                    self.records().dom().contains(key) && key_matches(
                        key,
                        prefix@,
                        text_of(suffix),
                    ) && read_record::<Self::Cipher>(
                        self.records(),
                        self.settings().passphrase,
                        key,
                    ) is Ok implies #[trigger] names_key(out@, key) by {
                    assert(lists_key(keys@, key));
                    let c = choose|c: int| 0 <= c < keys@.len() && #[trigger] keys@[c]@ == key;
                    assert(names_key(out@, keys@[c]@));
                }
            }
        }
        Ok(out)
    }

    /// Changes the passphrase and writes every secret record again under the
    /// new one.
    ///
    /// With an `old_password` that is not the configured passphrase the call
    /// fails with `IncorrectPassword` and touches nothing; with the right one
    /// it never fails with that error. It reads every secret record with the
    /// old passphrase, derives a cipher from `new` (none where `new` is absent
    /// or empty), installs both, and writes back what it read. A secret
    /// record that the old passphrase does not read stays as it is.
    ///
    /// Where no key material is derived from `new`, the call fails with
    /// `EncryptionFailed` and touches nothing. On a backend that keeps
    /// records and grants reads and writes, the call succeeds whenever the
    /// cipher is derived and every record that is read can be prepared under
    /// it.
    ///
    /// A call that fails later than the derivation may leave some secret
    /// records under the old cipher and some under the new one; it never
    /// loses a key, and never touches a record that is not secret.
    fn change_password_and_rewrite_storage(
        &mut self,
        old_password: Option<String>,
        new: Option<String>,
    ) -> (r: Result<(), MutinyError>)
        ensures
            passphrase_of(old_password) != old(self).settings().passphrase ==> r == Err::<
                (),
                MutinyError,
            >(MutinyError::IncorrectPassword) && *final(self) == *old(self),
            passphrase_of(old_password) == old(self).settings().passphrase
                && old(self).settings().reads is Refused ==> r == Err::<(), MutinyError>(
                old(self).settings().reads->Refused_0,
            ) && *final(self) == *old(self),
            passphrase_of(old_password) == old(self).settings().passphrase && r is Err ==> {
                ||| is_backend_error(r.unwrap_err())
                ||| r.unwrap_err() == MutinyError::SerializationFailed
                ||| r.unwrap_err() == MutinyError::EncryptionFailed
            },
            passphrase_of(old_password) == old(self).settings().passphrase
                && old(self).settings().can_read() && !finds_cipher::<Self::Cipher>(
                passphrase_of(new),
            ) ==> r == Err::<(), MutinyError>(MutinyError::EncryptionFailed) && *final(self)
                == *old(self),
            passphrase_of(old_password) == old(self).settings().passphrase
                && old(self).settings().can_read() && old(self).settings().can_write()
                && finds_cipher::<Self::Cipher>(passphrase_of(new)) && (forall|key: Seq<char>| #[trigger]
                old(self).records().dom().contains(key) ==> can_reseal(
                    key,
                    old(self).records()[key],
                    old(self).settings().passphrase,
                    rotated_settings(old(self).settings(), passphrase_of(new)).cipher,
                )) ==> r == Ok::<(), MutinyError>(()),
            r is Ok ==> finds_cipher::<Self::Cipher>(passphrase_of(new)),
            r is Ok ==> final(self).settings() == rotated_settings(
                old(self).settings(),
                passphrase_of(new),
            ),
            final(self).settings() == old(self).settings() || final(self).settings()
                == rotated_settings(old(self).settings(), passphrase_of(new)),
            r is Ok && old(self).settings().keeps_records ==> forall|key: Seq<char>| #[trigger]
                old(self).records().dom().contains(key) ==> is_rotated_form(
                    key,
                    old(self).records()[key],
                    old(self).settings().passphrase,
                    final(self).settings().cipher,
                    final(self).records()[key],
                ),
            final(self).records().dom() == old(self).records().dom(),
            forall|key: Seq<char>| #[trigger]
                old(self).records().dom().contains(key) ==> final(self).records()[key]
                    == old(self).records()[key] || is_rotated_form(
                    key,
                    old(self).records()[key],
                    old(self).settings().passphrase,
                    final(self).settings().cipher,
                    final(self).records()[key],
                ),
            !old(self).settings().keeps_records ==> final(self).records() == old(self).records()
                && final(self).settings() == old(self).settings(),
            !old(self).settings().keeps_versions ==> final(self).versions() == old(self).versions(),
            r is Ok && old(self).settings().keeps_versions ==> forall|key: Seq<char>| #[trigger]
                is_rewritten::<Self::Cipher>(
                    old(self).records(),
                    old(self).settings().passphrase,
                    key,
                ) ==> is_unversioned(final(self).versions(), key),
            forall|key: Seq<char>| #[trigger]
                same_version(final(self).versions(), old(self).versions(), key) || (
                is_rewritten::<Self::Cipher>(
                    old(self).records(),
                    old(self).settings().passphrase,
                    key,
                ) && is_unversioned(final(self).versions(), key)),
            final(self).settings().keeps_records == old(self).settings().keeps_records,
            final(self).settings().keeps_versions == old(self).settings().keeps_versions,
            final(self).settings().reads == old(self).settings().reads,
            final(self).settings().writes == old(self).settings().writes,
    {
        // check if old password is correct
        let matches = match (&old_password, self.password()) {
            (Some(given), Some(configured)) => same_text(given.as_str(), configured),
            (None, None) => true,
            _ => false,
        };
        if !matches {
            return Err(MutinyError::IncorrectPassword);
        }
        let ghost records = self.records();
        let ghost settings = self.settings();

        // get all of our keys
        let keys = match self.scan_keys("", None) {
            Ok(keys) => keys,
            Err(e) => {
                return Err(e);
            },
        };
        proof {
            reveal_strlit("");
            assert forall|k: Seq<char>| #[trigger] lists_key(keys@, k) <==> records.dom().contains(
                k,
            ) by {
                assert(k.subrange(0, 0) =~= ""@);
                assert(key_matches(k, ""@, text_of(None)));
            }
        }

        // decrypt all of the values that need encryption
        let mut values: Vec<(String, Document)> = Vec::new();
        let mut i: usize = 0;
        while i < keys.len()
            invariant
                i <= keys.len(),
                self.records() == records,
                self.settings() == settings,
                *self == *old(self),
                !(settings.reads is Refused),
                passphrase_of(old_password) == settings.passphrase,
                forall|k: Seq<char>| #[trigger] lists_key(keys@, k) <==> records.dom().contains(k),
                forall|j: int|
                    0 <= j < values@.len() ==> {
                        let key = (#[trigger] values@[j]).0@;
                        &&& records.dom().contains(key)
                        &&& is_sensitive(key)
                        &&& unsealed::<Self::Cipher>(key, records[key], settings.passphrase)
                            == Ok::<Json, MutinyError>(values@[j].1@)
                    },
                forall|j: int|
                    0 <= j < i && is_sensitive((#[trigger] keys@[j])@) && unsealed::<Self::Cipher>(
                        keys@[j]@,
                        records[keys@[j]@],
                        settings.passphrase,
                    ) is Ok ==> names_key(values@, keys@[j]@),
            decreases keys.len() - i,
        {
            let key = &keys[i];
            let ghost before = values@;
            if needs_encryption(key.as_str()) {
                match self.get(key.as_str()) {
                    Err(e) => {
                        return Err(e);
                    },
                    Ok(None) => {
                        proof {
                            assert(lists_key(keys@, keys@[i as int]@));
                        }
                    },
                    Ok(Some(raw)) => {
                        match decrypt_value::<Self::Cipher>(key.as_str(), raw, self.password()) {
                            Ok(doc) => {
                                values.push((key.clone(), doc));
                                proof {
                                    lemma_names_key_push(before, values@[before.len() as int]);
                                }
                            },
                            Err(_) => {},
                        }
                    },
                }
            }
            i += 1;
        }

        // change the password
        let new_cipher = match &new {
            Some(p) => {
                if p.as_str().is_empty() {
                    None
                } else {
                    match Self::Cipher::encryption_key_from_pass(p.as_str()) {
                        Ok(c) => Some(c),
                        Err(_) => {
                            return Err(MutinyError::EncryptionFailed);
                        },
                    }
                }
            },
            None => None,
        };
        assert(new_cipher == rotated_cipher::<Self::Cipher>(passphrase_of(new)));
        match self.change_password(new, new_cipher) {
            Ok(()) => {},
            Err(e) => {
                return Err(e);
            },
        }
        let ghost installed = self.settings();

        // encrypt all of the values
        let mut j: usize = 0;
        while j < values.len()
            invariant
                j <= values.len(),
                self.settings() == installed,
                records == old(self).records(),
                settings == old(self).settings(),
                !(settings.reads is Refused),
                passphrase_of(old_password) == settings.passphrase,
                installed.reads == settings.reads,
                settings.keeps_records ==> installed.passphrase == passphrase_of(new),
                finds_cipher::<Self::Cipher>(passphrase_of(new)),
                installed == rotated_settings(settings, passphrase_of(new)),
                !settings.keeps_records ==> installed == settings,
                installed.keeps_records == settings.keeps_records,
                installed.keeps_versions == settings.keeps_versions,
                !settings.keeps_versions ==> self.versions() == old(self).versions(),
                settings.keeps_versions ==> forall|key: Seq<char>| #[trigger]
                    names_key(values@.subrange(0, j as int), key) ==> is_unversioned(
                        self.versions(),
                        key,
                    ),
                forall|key: Seq<char>| #[trigger]
                    same_version(self.versions(), old(self).versions(), key) || (names_key(
                        values@.subrange(0, j as int),
                        key,
                    ) && is_unversioned(self.versions(), key)),
                installed.writes == settings.writes,
                !settings.keeps_records ==> self.records() == records,
                self.records().dom() == records.dom(),
                forall|k: int|
                    0 <= k < values@.len() ==> {
                        let key = (#[trigger] values@[k]).0@;
                        &&& records.dom().contains(key)
                        &&& is_sensitive(key)
                        &&& unsealed::<Self::Cipher>(key, records[key], settings.passphrase)
                            == Ok::<Json, MutinyError>(values@[k].1@)
                    },
                settings.keeps_records ==> forall|key: Seq<char>| #[trigger]
                    records.dom().contains(key) ==> if names_key(
                        values@.subrange(0, j as int),
                        key,
                    ) {
                        is_sealed_form(
                            key,
                            unsealed::<Self::Cipher>(key, records[key], settings.passphrase).unwrap(),
                            installed.cipher,
                            self.records()[key],
                        )
                    } else {
                        self.records()[key] == records[key]
                    },
            decreases values.len() - j,
        {
            let key = &values[j].0;
            let value = values[j].1.clone();
            let ghost done = values@.subrange(0, j as int);
            proof {
                lemma_names_key_step(values@, j as int);
            }
            let ghost noted = self.versions();
            match self.set_data(key.as_str(), value, None) {
                Ok(()) => {
                    proof {
                        assert forall|key: Seq<char>| #[trigger]
                            same_version(self.versions(), old(self).versions(), key) || (names_key(
                                values@.subrange(0, j + 1),
                                key,
                            ) && is_unversioned(self.versions(), key)) by {
                            assert(same_version(noted, old(self).versions(), key) || (names_key(
                                done,
                                key,
                            ) && is_unversioned(noted, key)));
                        }
                    }
                },
                Err(e) => {
                    proof {
                        assert forall|key: Seq<char>| #[trigger]
                            same_version(self.versions(), old(self).versions(), key) || (
                            is_rewritten::<Self::Cipher>(records, settings.passphrase, key)
                                && is_unversioned(self.versions(), key)) by {
                            if names_key(done, key) {
                                let c = choose|c: int|
                                    0 <= c < done.len() && (#[trigger] done[c]).0@ == key;
                                assert(values@[c].0@ == key);
                            }
                        }
                        if settings.keeps_records {
                            assert forall|key: Seq<char>| #[trigger]
                                records.dom().contains(key) implies self.records()[key]
                                == records[key] || is_rotated_form(
                                key,
                                records[key],
                                settings.passphrase,
                                installed.cipher,
                                self.records()[key],
                            ) by {
                                if names_key(done, key) {
                                    let c = choose|c: int|
                                        0 <= c < done.len() && (#[trigger] done[c]).0@ == key;
                                    assert(values@[c].0@ == key);
                                }
                            }
                        }
                    }
                    return Err(e);
                },
            }
            j += 1;
        }
        proof {
            assert(values@.subrange(0, j as int) =~= values@);
            assert forall|key: Seq<char>|
                is_rewritten::<Self::Cipher>(records, settings.passphrase, key) <==> names_key(
                    values@,
                    key,
                ) by {
                if is_rewritten::<Self::Cipher>(records, settings.passphrase, key) {
                    assert(lists_key(keys@, key));
                    let c = choose|c: int| 0 <= c < keys@.len() && #[trigger] keys@[c]@ == key;
                    assert(names_key(values@, keys@[c]@));
                }
                if names_key(values@, key) {
                    let c = choose|c: int|
                        0 <= c < values@.len() && (#[trigger] values@[c]).0@ == key;
                }
            }
            if settings.keeps_versions {
                assert forall|key: Seq<char>| #[trigger]
                    is_rewritten::<Self::Cipher>(
                        records,
                        settings.passphrase,
                        key,
                    ) implies is_unversioned(self.versions(), key) by {
                    assert(names_key(values@, key));
                }
            }
            assert forall|key: Seq<char>| #[trigger]
                same_version(self.versions(), old(self).versions(), key) || (
                is_rewritten::<Self::Cipher>(records, settings.passphrase, key) && is_unversioned(
                    self.versions(),
                    key,
                )) by {
                assert(same_version(self.versions(), old(self).versions(), key) || (names_key(
                    values@,
                    key,
                ) && is_unversioned(self.versions(), key)));
            }
            if settings.keeps_records {
                assert forall|key: Seq<char>| #[trigger] records.dom().contains(key) implies is_rotated_form(
                    key,
                    records[key],
                    settings.passphrase,
                    installed.cipher,
                    self.records()[key],
                ) by {
                    if is_sensitive(key) && unsealed::<Self::Cipher>(
                        key,
                        records[key],
                        settings.passphrase,
                    ) is Ok {
                        assert(lists_key(keys@, key));
                        let c = choose|c: int| 0 <= c < keys@.len() && #[trigger] keys@[c]@ == key;
                        assert(names_key(values@, keys@[c]@));
                    } else {
                        if names_key(values@, key) {
                            let c = choose|c: int|
                                0 <= c < values@.len() && (#[trigger] values@[c]).0@ == key;
                        }
                    }
                }
            }
        }
        Ok(())
    }

    /// Insert a mnemonic into the storage
    ///
    /// Stores the phrase under the mnemonic key, encrypted where a cipher is
    /// configured, and hands the mnemonic back. The call fails where
    /// preparing the phrase for the backend fails, with the same error, and
    /// else where the backend does not write.
    fn insert_mnemonic(&mut self, mnemonic: Mnemonic) -> (r: Result<Mnemonic, MutinyError>)
        ensures
            match sealing_failure(
                MNEMONIC_KEY@,
                mnemonic_document(mnemonic),
                old(self).settings().cipher,
            ) {
                Some(e) => r == Err::<Mnemonic, MutinyError>(e),
                None => {
                    &&& old(self).settings().can_write() ==> r is Ok
                    &&& old(self).settings().writes is Refused ==> r == Err::<
                        Mnemonic,
                        MutinyError,
                    >(old(self).settings().writes->Refused_0)
                    &&& r is Err ==> is_backend_error(r.unwrap_err())
                },
            },
            r is Ok ==> r.unwrap() == mnemonic,
            final(self).versions() == if r is Ok && old(self).settings().keeps_versions {
                old(self).versions().insert(MNEMONIC_KEY@, None)
            } else {
                old(self).versions()
            },
            r is Ok && old(self).settings().keeps_records ==> {
                &&& final(self).records().dom().contains(MNEMONIC_KEY@)
                &&& is_sealed_form(
                    MNEMONIC_KEY@,
                    mnemonic_document(mnemonic),
                    old(self).settings().cipher,
                    final(self).records()[MNEMONIC_KEY@],
                )
                &&& final(self).records() == old(self).records().insert(
                    MNEMONIC_KEY@,
                    final(self).records()[MNEMONIC_KEY@],
                )
            },
            !(r is Ok && old(self).settings().keeps_records) ==> final(self).records()
                == old(self).records(),
            final(self).settings() == old(self).settings(),
    {
        let doc = mnemonic_to_document(&mnemonic);
        match self.set_data(MNEMONIC_KEY, doc, None) {
            Ok(()) => Ok(mnemonic),
            Err(e) => Err(e),
        }
    }

    /// Get the mnemonic from the storage
    ///
    /// Gives nothing where no mnemonic is stored, and fails with
    /// `SerializationFailed` where what is stored is not the phrase of one.
    fn get_mnemonic(&self) -> (r: Result<Option<Mnemonic>, MutinyError>)
        ensures
            r is Ok ==> stored_mnemonic(
                read_record::<Self::Cipher>(
                    self.records(),
                    self.settings().passphrase,
                    MNEMONIC_KEY@,
                ),
            ) == r,
            self.settings().can_read() ==> stored_mnemonic(
                read_record::<Self::Cipher>(
                    self.records(),
                    self.settings().passphrase,
                    MNEMONIC_KEY@,
                ),
            ) == r,
            self.settings().reads is Refused ==> r == Err::<Option<Mnemonic>, MutinyError>(
                self.settings().reads->Refused_0,
            ),
            r is Err ==> is_backend_error(r.unwrap_err()) || stored_mnemonic(
                read_record::<Self::Cipher>(
                    self.records(),
                    self.settings().passphrase,
                    MNEMONIC_KEY@,
                ),
            ) == r,
    {
        match self.get_data(MNEMONIC_KEY) {
            Ok(Some(doc)) => match mnemonic_from_document(&doc) {
                Ok(mnemonic) => Ok(Some(mnemonic)),
                Err(e) => Err(e),
            },
            Ok(None) => Ok(None),
            Err(e) => Err(e),
        }
    }

    /// Whether the first sync has been marked as done.
    fn has_done_first_sync(&self) -> (r: Result<bool, MutinyError>)
        ensures
            r is Ok ==> first_sync_flag(
                read_record::<Self::Cipher>(
                    self.records(),
                    self.settings().passphrase,
                    FIRST_SYNC_KEY@,
                ),
            ) == r,
            self.settings().can_read() ==> first_sync_flag(
                read_record::<Self::Cipher>(
                    self.records(),
                    self.settings().passphrase,
                    FIRST_SYNC_KEY@,
                ),
            ) == r,
            self.settings().reads is Refused ==> r == Err::<bool, MutinyError>(
                self.settings().reads->Refused_0,
            ),
            r is Err ==> is_backend_error(r.unwrap_err()) || first_sync_flag(
                read_record::<Self::Cipher>(
                    self.records(),
                    self.settings().passphrase,
                    FIRST_SYNC_KEY@,
                ),
            ) == r,
    {
        match self.get_data(FIRST_SYNC_KEY) {
            Ok(Some(Document::Bool(flag))) => Ok(flag),
            Ok(Some(_)) => Err(MutinyError::SerializationFailed),
            Ok(None) => Ok(false),
            Err(e) => Err(e),
        }
    }

    /// Marks the first sync as done.
    fn set_done_first_sync(&mut self) -> (r: Result<(), MutinyError>)
        ensures
            old(self).settings().can_write() ==> r is Ok,
            old(self).settings().writes is Refused ==> r == Err::<(), MutinyError>(
                old(self).settings().writes->Refused_0,
            ),
            r is Err ==> is_backend_error(r.unwrap_err()),
            final(self).versions() == if r is Ok && old(self).settings().keeps_versions {
                old(self).versions().insert(FIRST_SYNC_KEY@, None)
            } else {
                old(self).versions()
            },
            final(self).records() == if r is Ok && old(self).settings().keeps_records {
                old(self).records().insert(FIRST_SYNC_KEY@, Json::Bool(true))
            } else {
                old(self).records()
            },
            final(self).settings() == old(self).settings(),
    {
        proof {
            lemma_plain_keys();
        }
        self.set_data(FIRST_SYNC_KEY, Document::Bool(true), None)
    }

    /// Gets the node indexes from storage
    ///
    /// Where no table is stored, the result is the empty table at version 0.
    fn get_nodes(&self) -> (r: Result<NodeStorage, MutinyError>)
        ensures
            r is Ok ==> stored_nodes(
                read_record::<Self::Cipher>(self.records(), self.settings().passphrase, NODES_KEY@),
            ) == Ok::<NodeStorageValue, MutinyError>(r.unwrap()@),
            self.settings().can_read() ==> match stored_nodes(
                read_record::<Self::Cipher>(self.records(), self.settings().passphrase, NODES_KEY@),
            ) {
                Ok(_) => r is Ok,
                Err(e) => r == Err::<NodeStorage, MutinyError>(e),
            },
            self.settings().reads is Refused ==> r == Err::<NodeStorage, MutinyError>(
                self.settings().reads->Refused_0,
            ),
            r is Err ==> is_backend_error(r.unwrap_err()) || stored_nodes(
                read_record::<Self::Cipher>(self.records(), self.settings().passphrase, NODES_KEY@),
            ) == Err::<NodeStorageValue, MutinyError>(r.unwrap_err()),
    {
        match self.get_data(NODES_KEY) {
            Ok(Some(doc)) => match NodeStorage::from_document(&doc) {
                Some(nodes) => Ok(nodes),
                None => Err(MutinyError::SerializationFailed),
            },
            Ok(None) => Ok(NodeStorage::default()),
            Err(e) => Err(e),
        }
    }

    /// Inserts the node indexes into storage
    ///
    /// The table is written at its own version.
    fn insert_nodes(&mut self, nodes: NodeStorage) -> (r: Result<(), MutinyError>)
        ensures
            old(self).settings().can_write() ==> r is Ok,
            old(self).settings().writes is Refused ==> r == Err::<(), MutinyError>(
                old(self).settings().writes->Refused_0,
            ),
            r is Err ==> is_backend_error(r.unwrap_err()),
            final(self).versions() == if r is Ok && old(self).settings().keeps_versions {
                old(self).versions().insert(NODES_KEY@, Some(nodes.version))
            } else {
                old(self).versions()
            },
            final(self).records() == if r is Ok && old(self).settings().keeps_records {
                old(self).records().insert(NODES_KEY@, nodes_document(nodes@))
            } else {
                old(self).records()
            },
            final(self).settings() == old(self).settings(),
    {
        proof {
            lemma_plain_keys();
        }
        let version = Some(nodes.version);
        self.set_data(NODES_KEY, nodes.to_document(), version)
    }

    /// Get the current fee estimates from storage
    /// The key is block target, the value is the fee in satoshis per byte
    fn get_fee_estimates(&self) -> (r: Result<Option<Vec<(String, Number)>>, MutinyError>)
        ensures
            r is Ok ==> stored_fees(
                read_record::<Self::Cipher>(
                    self.records(),
                    self.settings().passphrase,
                    FEE_ESTIMATES_KEY@,
                ),
            ) == Ok::<Option<Seq<(Seq<char>, NumberValue)>>, MutinyError>(fees_of(r.unwrap())),
            self.settings().can_read() ==> match stored_fees(
                read_record::<Self::Cipher>(
                    self.records(),
                    self.settings().passphrase,
                    FEE_ESTIMATES_KEY@,
                ),
            ) {
                Ok(_) => r is Ok,
                Err(e) => r == Err::<Option<Vec<(String, Number)>>, MutinyError>(e),
            },
            self.settings().reads is Refused ==> r == Err::<
                Option<Vec<(String, Number)>>,
                MutinyError,
            >(self.settings().reads->Refused_0),
            r is Err ==> is_backend_error(r.unwrap_err()) || stored_fees(
                read_record::<Self::Cipher>(
                    self.records(),
                    self.settings().passphrase,
                    FEE_ESTIMATES_KEY@,
                ),
            ) == Err::<Option<Seq<(Seq<char>, NumberValue)>>, MutinyError>(r.unwrap_err()),
    {
        match self.get_data(FEE_ESTIMATES_KEY) {
            Ok(Some(doc)) => match fees_from_document(&doc) {
                Some(fees) => Ok(Some(fees)),
                None => Err(MutinyError::SerializationFailed),
            },
            Ok(None) => Ok(None),
            Err(e) => Err(e),
        }
    }

    /// Inserts the fee estimates into storage
    /// The key is block target, the value is the fee in satoshis per byte
    fn insert_fee_estimates(&mut self, fees: Vec<(String, Number)>) -> (r: Result<
        (),
        MutinyError,
    >)
        ensures
            old(self).settings().can_write() ==> r is Ok,
            old(self).settings().writes is Refused ==> r == Err::<(), MutinyError>(
                old(self).settings().writes->Refused_0,
            ),
            r is Err ==> is_backend_error(r.unwrap_err()),
            final(self).versions() == if r is Ok && old(self).settings().keeps_versions {
                old(self).versions().insert(FEE_ESTIMATES_KEY@, None)
            } else {
                old(self).versions()
            },
            final(self).records() == if r is Ok && old(self).settings().keeps_records {
                old(self).records().insert(FEE_ESTIMATES_KEY@, fees_document(fees_value(fees@)))
            } else {
                old(self).records()
            },
            final(self).settings() == old(self).settings(),
    {
        proof {
            lemma_plain_keys();
        }
        self.set_data(FEE_ESTIMATES_KEY, fees_to_document(&fees), None)
    }
}

} // verus!
