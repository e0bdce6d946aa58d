use bip39::Mnemonic;
use mutiny_core::document::Document;
use mutiny_core::encrypt::{Cipher, CipherError, IdleCipher, NoCipher};
use mutiny_core::memory::MemoryStorage;
use mutiny_core::document::Number;
use mutiny_core::nodemanager::{NodeIndex, NodeStorage};
use mutiny_core::storage::{
    decrypt_value, encrypt_value, needs_encryption, unwrap_plaintext, wrap_ciphertext,
    MutinyStorage, VersionedValue, CHANNEL_MANAGER_KEY, FEE_ESTIMATES_KEY, FIRST_SYNC_KEY,
    KEYCHAIN_STORE_KEY, MNEMONIC_KEY, NODES_KEY,
};
use mutiny_core::{MutinyError, MutinyStorageError};

/// A cipher for the tests: the text, marked and mixed with the bytes of the
/// passphrase, written in hexadecimal digits.
#[derive(Debug, Clone, PartialEq, Eq)]
struct TestCipher {
    pass: String,
}

fn mix(bytes: &[u8], pass: &str) -> Vec<u8> {
    let key = pass.as_bytes();
    bytes.iter().enumerate().map(|(i, b)| b ^ key[i % key.len()] ^ (i as u8)).collect()
}

impl Cipher for TestCipher {
    fn encryption_key_from_pass(passphrase: &str) -> Result<Self, CipherError> {
        if passphrase.is_empty() || passphrase == "no key for this" {
            return Err(CipherError);
        }
        Ok(TestCipher { pass: passphrase.to_string() })
    }

    fn encrypt(&self, text: &str) -> Result<String, CipherError> {
        if text.contains("cannot be sealed") {
            return Err(CipherError);
        }
        let marked = format!("sealed:{text}");
        Ok(mix(marked.as_bytes(), &self.pass).iter().map(|b| format!("{b:02x}")).collect())
    }

    fn decrypt_with_password(ciphertext: &str, passphrase: &str) -> Result<String, CipherError> {
        if passphrase.is_empty() || ciphertext.len() % 2 != 0 || !ciphertext.is_ascii() {
            return Err(CipherError);
        }
        let mut bytes = Vec::new();
        for i in (0..ciphertext.len()).step_by(2) {
            bytes.push(u8::from_str_radix(&ciphertext[i..i + 2], 16).map_err(|_| CipherError)?);
        }
        let plain = String::from_utf8(mix(&bytes, passphrase)).map_err(|_| CipherError)?;
        plain.strip_prefix("sealed:").map(|s| s.to_string()).ok_or(CipherError)
    }
}

fn encryption_key_from_pass(pass: &str) -> Result<TestCipher, CipherError> {
    TestCipher::encryption_key_from_pass(pass)
}

fn generate_seed(num_words: u8) -> Result<Mnemonic, ()> {
    let entropy_size = match num_words {
        12 => 16,
        24 => 32,
        _ => return Err(()),
    };
    let mut entropy = vec![0u8; entropy_size];
    getrandom::getrandom(&mut entropy).map_err(|_| ())?;
    Mnemonic::from_entropy(&entropy).map_err(|_| ())
}

#[test]
fn insert_and_get_mnemonic_no_password() {
    let test_name = "insert_and_get_mnemonic_no_password";
    println!("{}", test_name);

    let seed = generate_seed(12).unwrap();

    let mut storage = MemoryStorage::<NoCipher>::new(None, None);
    let mnemonic = storage.insert_mnemonic(seed).unwrap();

    let stored_mnemonic = storage.get_mnemonic().unwrap();
    assert_eq!(Some(mnemonic), stored_mnemonic);
}

#[test]
fn insert_and_get_mnemonic_with_password() {
    let test_name = "insert_and_get_mnemonic_with_password";
    println!("{}", test_name);

    let seed = generate_seed(12).unwrap();

    let pass = uuid::Uuid::new_v4().to_string();
    let cipher = encryption_key_from_pass(&pass).unwrap();
    let mut storage = MemoryStorage::new(Some(pass), Some(cipher));

    let mnemonic = storage.insert_mnemonic(seed).unwrap();

    let stored_mnemonic = storage.get_mnemonic().unwrap();
    assert_eq!(Some(mnemonic), stored_mnemonic);
}

#[test]
fn needs_encryption_follows_the_two_rules() {
    assert!(needs_encryption("mnemonic"));
    assert!(needs_encryption("manager"));
    assert!(needs_encryption("manager_abc"));
    assert!(!needs_encryption("mnemonic2"));
    assert!(!needs_encryption("mnemoni"));
    assert!(!needs_encryption("manage"));
    assert!(!needs_encryption("a_manager"));
    assert!(!needs_encryption("nodes"));
    assert!(!needs_encryption(""));
}

#[test]
fn mnemonic_is_stored_as_ciphertext_under_a_passphrase() {
    let seed = Mnemonic::from_entropy(&[7u8; 16]).unwrap();
    let cipher = encryption_key_from_pass("hunter2").unwrap();
    let mut storage = MemoryStorage::new(Some("hunter2".to_string()), Some(cipher));
    storage.insert_mnemonic(seed.clone()).unwrap();

    let raw = storage.get(MNEMONIC_KEY).unwrap().unwrap();
    match &raw {
        Document::Text(ciphertext) => {
            assert_ne!(ciphertext, &seed.to_string());
            let plain = TestCipher::decrypt_with_password(ciphertext, "hunter2").unwrap();
            assert_eq!(plain, format!("\"{}\"", seed));
        }
        other => panic!("not a string: {:?}", other),
    }
    assert_eq!(storage.get_mnemonic().unwrap(), Some(seed));
}

#[test]
fn lock_contention_is_reported() {
    let mut storage = MemoryStorage::<NoCipher>::new(None, None);
    storage.set("a", Document::Bool(true), None).unwrap();

    storage.memory.hold_read().unwrap();
    assert_eq!(storage.get("a").unwrap(), Some(Document::Bool(true)));
    assert_eq!(
        storage.set("a", Document::Null, None),
        Err(MutinyError::WriteError { source: MutinyStorageError::LockError })
    );
    storage.memory.release_read();

    storage.memory.hold_write().unwrap();
    assert_eq!(
        storage.get("a"),
        Err(MutinyError::ReadError { source: MutinyStorageError::LockError })
    );
    storage.memory.release_write();
    assert_eq!(storage.get("a").unwrap(), Some(Document::Bool(true)));
}

#[test]
fn codec_passes_plain_keys_through() {
    let cipher = encryption_key_from_pass("hunter2").unwrap();
    let doc = Document::List(vec![Document::Bool(true), Document::Null]);
    let out = encrypt_value("nodes", doc.clone(), Some(&cipher)).unwrap();
    assert_eq!(out, doc);
    let back = decrypt_value::<TestCipher>("nodes", out, Some("hunter2")).unwrap();
    assert_eq!(back, doc);
}

fn sample() -> Document {
    Document::Object(vec![
        ("a".to_string(), Document::List(vec![Document::Null, Document::Bool(false)])),
        ("b".to_string(), Document::Number(Number::Unsigned(7))),
        ("c".to_string(), Document::Text("text".to_string())),
    ])
}

fn memory_with(pass: &str) -> MemoryStorage<TestCipher> {
    let cipher = encryption_key_from_pass(pass).unwrap();
    MemoryStorage::new(Some(pass.to_string()), Some(cipher))
}

#[test]
fn well_known_keys() {
    assert_eq!(KEYCHAIN_STORE_KEY, "bdk_keychain");
    assert_eq!(MNEMONIC_KEY, "mnemonic");
    assert_eq!(NODES_KEY, "nodes");
    assert_eq!(FEE_ESTIMATES_KEY, "fee_estimates");
    assert_eq!(FIRST_SYNC_KEY, "first_sync");
    assert_eq!(CHANNEL_MANAGER_KEY, "manager");
    for key in [KEYCHAIN_STORE_KEY, NODES_KEY, FEE_ESTIMATES_KEY, FIRST_SYNC_KEY] {
        assert!(!needs_encryption(key));
    }
}

#[test]
fn plain_record_reads_back_with_and_without_passphrase() {
    let mut plain = MemoryStorage::<TestCipher>::new(None, None);
    plain.set_data("settings", sample(), None).unwrap();
    assert_eq!(plain.get_data("settings").unwrap(), Some(sample()));
    assert_eq!(plain.get("settings").unwrap(), Some(sample()));

    let mut keyed = memory_with("hunter2");
    keyed.set_data("settings", sample(), Some(3)).unwrap();
    assert_eq!(keyed.get_data("settings").unwrap(), Some(sample()));
    assert_eq!(keyed.get("settings").unwrap(), Some(sample()));
}

#[test]
fn secret_record_is_a_string_and_reads_back() {
    let mut storage = memory_with("hunter2");
    for key in ["mnemonic", "manager", "manager_1"] {
        storage.set_data(key, sample(), None).unwrap();
        let raw = storage.get(key).unwrap().unwrap();
        assert!(matches!(raw, Document::Text(_)));
        assert_ne!(raw, sample());
        assert_eq!(storage.get_data(key).unwrap(), Some(sample()));
    }
}

#[test]
fn secret_record_is_plain_without_passphrase() {
    let mut storage = MemoryStorage::<TestCipher>::new(None, None);
    for key in ["mnemonic", "manager_1"] {
        storage.set_data(key, sample(), None).unwrap();
        assert_eq!(storage.get(key).unwrap(), Some(sample()));
        assert_eq!(storage.get_data(key).unwrap(), Some(sample()));
    }
}

#[test]
fn set_overwrites_and_delete_removes() {
    let mut storage = MemoryStorage::<NoCipher>::new(None, None);
    storage.set("a", Document::Bool(true), None).unwrap();
    storage.set("a", Document::Bool(false), Some(9)).unwrap();
    storage.set("b", Document::Null, None).unwrap();
    storage.set("c", Document::Null, None).unwrap();
    assert_eq!(storage.get("a").unwrap(), Some(Document::Bool(false)));
    storage.delete(&["a".to_string(), "missing".to_string(), "c".to_string()]).unwrap();
    assert_eq!(storage.get("a").unwrap(), None);
    assert_eq!(storage.get("c").unwrap(), None);
    assert_eq!(storage.get("b").unwrap(), Some(Document::Null));
    assert_eq!(storage.scan_keys("", None).unwrap(), vec!["b".to_string()]);
}

#[test]
fn scan_keys_filters_by_prefix_and_suffix() {
    let mut storage = MemoryStorage::<NoCipher>::new(None, None);
    for key in ["node_1", "node_2", "fee_estimates"] {
        storage.set(key, Document::Null, None).unwrap();
    }
    let mut keys = storage.scan_keys("node_", None).unwrap();
    keys.sort();
    assert_eq!(keys, vec!["node_1".to_string(), "node_2".to_string()]);

    let mut keys = storage.scan_keys("", Some("2")).unwrap();
    keys.sort();
    assert_eq!(keys, vec!["node_2".to_string()]);

    let mut keys = storage.scan_keys("", None).unwrap();
    keys.sort();
    assert_eq!(keys.len(), 3);
    assert!(storage.scan_keys("node_", Some("3")).unwrap().is_empty());
    assert!(storage.scan_keys("node_12", None).unwrap().is_empty());
    assert_eq!(storage.scan_keys("node_1", Some("node_1")).unwrap(), vec!["node_1".to_string()]);
}

#[test]
fn scan_leaves_out_what_it_cannot_read() {
    let mut storage = memory_with("hunter2");
    storage.set_data("manager_1", sample(), None).unwrap();
    storage.set_data("manager_2", Document::Bool(true), None).unwrap();
    // not a ciphertext, and a string that is none
    storage.set("manager_3", Document::Bool(true), None).unwrap();
    storage.set("manager_4", Document::Text("zz".to_string()), None).unwrap();
    let mut found = storage.scan("manager_", None).unwrap();
    found.sort_by(|a, b| a.0.cmp(&b.0));
    assert_eq!(
        found,
        vec![("manager_1".to_string(), sample()), ("manager_2".to_string(), Document::Bool(true))]
    );
    assert_eq!(storage.get_data("manager_3"), Err(MutinyError::SerializationFailed));
    assert_eq!(storage.get_data("manager_4"), Err(MutinyError::DecryptionFailed));
}

#[test]
fn wrong_passphrase_does_not_read() {
    let mut storage = memory_with("hunter2");
    storage.set_data(MNEMONIC_KEY, sample(), None).unwrap();
    storage.change_password(Some("other".to_string()), None).unwrap();
    assert_eq!(storage.password(), Some("other"));
    assert!(storage.cipher().is_none());
    assert_eq!(storage.get_data(MNEMONIC_KEY), Err(MutinyError::DecryptionFailed));
}

#[test]
fn codec_wraps_and_unwraps_outcomes() {
    assert_eq!(wrap_ciphertext(Ok("abc".to_string())), Ok(Document::Text("abc".to_string())));
    assert_eq!(wrap_ciphertext(Err(CipherError)), Err(MutinyError::EncryptionFailed));
    assert_eq!(unwrap_plaintext(Ok("[true]".to_string())), Ok(Document::List(vec![Document::Bool(true)])));
    assert_eq!(unwrap_plaintext(Ok("[true".to_string())), Err(MutinyError::SerializationFailed));
    assert_eq!(unwrap_plaintext(Err(CipherError)), Err(MutinyError::DecryptionFailed));
}

#[test]
fn codec_seals_secret_keys_only_under_a_cipher() {
    let cipher = encryption_key_from_pass("hunter2").unwrap();
    let sealed = encrypt_value("mnemonic", sample(), Some(&cipher)).unwrap();
    assert_eq!(
        sealed,
        Document::Text(cipher.encrypt("{\"a\":[null,false],\"b\":7,\"c\":\"text\"}").unwrap())
    );
    assert_eq!(decrypt_value::<TestCipher>("mnemonic", sealed.clone(), Some("hunter2")), Ok(sample()));
    assert_eq!(
        decrypt_value::<TestCipher>("mnemonic", sealed.clone(), Some("hunter3")),
        Err(MutinyError::DecryptionFailed)
    );
    assert_eq!(decrypt_value::<TestCipher>("mnemonic", sealed.clone(), None), Ok(sealed));
    assert_eq!(
        decrypt_value::<TestCipher>("mnemonic", Document::Null, Some("hunter2")),
        Err(MutinyError::SerializationFailed)
    );
    assert_eq!(encrypt_value::<TestCipher>("mnemonic", sample(), None), Ok(sample()));
    assert_eq!(
        encrypt_value("mnemonic", Document::Text("cannot be sealed".to_string()), Some(&cipher)),
        Err(MutinyError::EncryptionFailed)
    );
    let not_json = cipher.encrypt("{").unwrap();
    assert_eq!(
        decrypt_value::<TestCipher>("manager", Document::Text(not_json), Some("hunter2")),
        Err(MutinyError::SerializationFailed)
    );
}

#[test]
fn rotation_with_wrong_old_passphrase_touches_nothing() {
    let seed = Mnemonic::from_entropy(&[1u8; 16]).unwrap();
    let mut storage = memory_with("hunter2");
    storage.insert_mnemonic(seed).unwrap();
    let before = storage.get(MNEMONIC_KEY).unwrap();

    let r = storage
        .change_password_and_rewrite_storage(Some("wrong".to_string()), Some("newpass".to_string()));
    assert_eq!(r, Err(MutinyError::IncorrectPassword));
    assert_eq!(storage.get(MNEMONIC_KEY).unwrap(), before);
    assert_eq!(storage.password(), Some("hunter2"));
    assert_eq!(storage.cipher(), Some(&TestCipher { pass: "hunter2".to_string() }));

    let r = storage.change_password_and_rewrite_storage(None, Some("newpass".to_string()));
    assert_eq!(r, Err(MutinyError::IncorrectPassword));
    assert_eq!(storage.get(MNEMONIC_KEY).unwrap(), before);
}

#[test]
fn rotation_reencrypts_secret_records() {
    let seed = Mnemonic::from_entropy(&[2u8; 16]).unwrap();
    let mut storage = memory_with("hunter2");
    storage.insert_mnemonic(seed.clone()).unwrap();
    storage.set_data("manager_1", sample(), None).unwrap();
    storage.set_data("nodes", sample(), None).unwrap();
    let before = storage.get(MNEMONIC_KEY).unwrap();

    storage
        .change_password_and_rewrite_storage(
            Some("hunter2".to_string()),
            Some("newpass".to_string()),
        )
        .unwrap();
    assert_eq!(storage.password(), Some("newpass"));
    assert_eq!(storage.cipher(), Some(&TestCipher { pass: "newpass".to_string() }));
    assert_ne!(storage.get(MNEMONIC_KEY).unwrap(), before);
    assert!(matches!(storage.get("manager_1").unwrap(), Some(Document::Text(_))));
    assert_eq!(storage.get("nodes").unwrap(), Some(sample()));
    assert_eq!(storage.get_mnemonic().unwrap(), Some(seed));
    assert_eq!(storage.get_data("manager_1").unwrap(), Some(sample()));

    // configured with the old passphrase again, the records do not decode
    storage.change_password(Some("hunter2".to_string()), None).unwrap();
    assert!(storage.get_mnemonic().is_err());
    assert!(storage.get_data("manager_1").is_err());
}

#[test]
fn rotation_to_no_passphrase_stores_documents() {
    let mut storage = memory_with("hunter2");
    storage.set_data("manager_1", sample(), None).unwrap();
    storage.set_data(MNEMONIC_KEY, Document::Text("words".to_string()), None).unwrap();
    storage.change_password_and_rewrite_storage(Some("hunter2".to_string()), None).unwrap();
    assert_eq!(storage.password(), None);
    assert!(storage.cipher().is_none());
    assert_eq!(storage.get("manager_1").unwrap(), Some(sample()));
    assert_eq!(storage.get(MNEMONIC_KEY).unwrap(), Some(Document::Text("words".to_string())));

    // an empty new passphrase is kept as the passphrase, without a cipher
    let mut storage = memory_with("hunter2");
    storage.set_data("manager_1", sample(), None).unwrap();
    storage
        .change_password_and_rewrite_storage(Some("hunter2".to_string()), Some(String::new()))
        .unwrap();
    assert_eq!(storage.password(), Some(""));
    assert!(storage.cipher().is_none());
    assert_eq!(storage.get("manager_1").unwrap(), Some(sample()));
}

#[test]
fn rotation_from_no_passphrase_encrypts() {
    let mut storage = MemoryStorage::<TestCipher>::new(None, None);
    storage.set_data("manager_1", sample(), None).unwrap();
    storage.set_data("other", sample(), None).unwrap();
    storage.change_password_and_rewrite_storage(None, Some("newpass".to_string())).unwrap();
    assert!(matches!(storage.get("manager_1").unwrap(), Some(Document::Text(_))));
    assert_eq!(storage.get("other").unwrap(), Some(sample()));
    assert_eq!(storage.get_data("manager_1").unwrap(), Some(sample()));
}

#[test]
fn rotation_leaves_what_the_old_passphrase_does_not_read() {
    let mut storage = memory_with("hunter2");
    storage.set("manager_bad", Document::Bool(true), None).unwrap();
    storage.set_data("manager_good", sample(), None).unwrap();
    storage
        .change_password_and_rewrite_storage(
            Some("hunter2".to_string()),
            Some("newpass".to_string()),
        )
        .unwrap();
    assert_eq!(storage.get("manager_bad").unwrap(), Some(Document::Bool(true)));
    assert_eq!(storage.get_data("manager_good").unwrap(), Some(sample()));
}

#[test]
fn rotation_fails_before_the_swap_without_a_key() {
    let mut storage = memory_with("hunter2");
    storage.set_data("manager_1", sample(), None).unwrap();
    let before = storage.get("manager_1").unwrap();
    let r = storage.change_password_and_rewrite_storage(
        Some("hunter2".to_string()),
        Some("no key for this".to_string()),
    );
    assert_eq!(r, Err(MutinyError::EncryptionFailed));
    assert_eq!(storage.password(), Some("hunter2"));
    assert_eq!(storage.get("manager_1").unwrap(), before);
}

#[test]
fn rotation_reports_lock_contention() {
    let mut storage = memory_with("hunter2");
    storage.set_data("manager_1", sample(), None).unwrap();
    storage.memory.hold_write().unwrap();
    let r = storage
        .change_password_and_rewrite_storage(Some("hunter2".to_string()), Some("n".to_string()));
    assert_eq!(r, Err(MutinyError::ReadError { source: MutinyStorageError::LockError }));
    storage.memory.release_write();
    assert_eq!(storage.password(), Some("hunter2"));
    assert_eq!(storage.get_data("manager_1").unwrap(), Some(sample()));
}

#[test]
fn first_sync_flag() {
    let mut storage = MemoryStorage::<NoCipher>::new(None, None);
    assert_eq!(storage.has_done_first_sync(), Ok(false));
    storage.set_done_first_sync().unwrap();
    assert_eq!(storage.get(FIRST_SYNC_KEY).unwrap(), Some(Document::Bool(true)));
    assert_eq!(storage.has_done_first_sync(), Ok(true));
    storage.set(FIRST_SYNC_KEY, Document::Bool(false), None).unwrap();
    assert_eq!(storage.has_done_first_sync(), Ok(false));
    storage.set(FIRST_SYNC_KEY, Document::Null, None).unwrap();
    assert_eq!(storage.has_done_first_sync(), Err(MutinyError::SerializationFailed));
}

#[test]
fn mnemonic_that_is_none() {
    let mut storage = MemoryStorage::<NoCipher>::new(None, None);
    assert_eq!(storage.get_mnemonic(), Ok(None));
    storage.set(MNEMONIC_KEY, Document::Text("not a mnemonic".to_string()), None).unwrap();
    assert_eq!(storage.get_mnemonic(), Err(MutinyError::SerializationFailed));
    storage.set(MNEMONIC_KEY, Document::Bool(true), None).unwrap();
    assert_eq!(storage.get_mnemonic(), Err(MutinyError::SerializationFailed));
    let phrase = "legal winner thank year wave sausage worth useful legal winner thank yellow";
    storage.set(MNEMONIC_KEY, Document::Text(phrase.to_string()), None).unwrap();
    assert_eq!(storage.get_mnemonic().unwrap().unwrap().to_string(), phrase);
}

#[test]
fn nodes_are_stored_and_default_to_empty() {
    let mut storage = memory_with("hunter2");
    assert_eq!(storage.get_nodes(), Ok(NodeStorage { nodes: vec![], version: 0 }));
    let nodes = NodeStorage {
        nodes: vec![
            NodeIndex { uuid: "b".to_string(), child_index: 1 },
            NodeIndex { uuid: "a".to_string(), child_index: 0 },
        ],
        version: 4,
    };
    storage.insert_nodes(nodes.clone()).unwrap();
    assert_eq!(storage.get_nodes(), Ok(nodes.clone()));
    assert_eq!(storage.get(NODES_KEY).unwrap(), Some(nodes.to_document()));
    storage.set(NODES_KEY, Document::Bool(true), None).unwrap();
    assert_eq!(storage.get_nodes(), Err(MutinyError::SerializationFailed));
}

#[test]
fn fee_estimates_are_stored() {
    let mut storage = MemoryStorage::<NoCipher>::new(None, None);
    assert_eq!(storage.get_fee_estimates(), Ok(None));
    let fees = vec![
        ("1".to_string(), Number::Real("25.5".to_string())),
        ("6".to_string(), Number::Unsigned(10)),
    ];
    storage.insert_fee_estimates(fees.clone()).unwrap();
    assert_eq!(storage.get_fee_estimates(), Ok(Some(fees)));
    storage.set(FEE_ESTIMATES_KEY, Document::List(vec![]), None).unwrap();
    assert_eq!(storage.get_fee_estimates(), Err(MutinyError::SerializationFailed));
}

#[test]
fn storage_that_keeps_nothing() {
    let mut storage = ();
    assert_eq!(storage.password(), None);
    assert!(storage.cipher().is_none());
    storage.set("a", Document::Bool(true), None).unwrap();
    storage.set_data("mnemonic", Document::Bool(true), None).unwrap();
    assert_eq!(storage.get("a"), Ok(None));
    assert_eq!(storage.get_data("mnemonic"), Ok(None));
    storage.delete(&["a".to_string()]).unwrap();
    assert_eq!(storage.scan_keys("", None), Ok(vec![]));
    assert_eq!(storage.scan("", None), Ok(vec![]));
    assert_eq!(storage.connected(), Ok(false));
    storage.start().unwrap();
    storage.stop();
    storage.change_password(Some("p".to_string()), None).unwrap();
    assert_eq!(storage.password(), None);
    storage.change_password_and_rewrite_storage(None, Some("p".to_string())).unwrap();
    assert_eq!(storage.password(), None);
    assert_eq!(
        storage.change_password_and_rewrite_storage(Some("p".to_string()), None),
        Err(MutinyError::IncorrectPassword)
    );
    storage.change_password_and_rewrite_storage(None, None).unwrap();
    assert_eq!(storage.get_nodes(), Ok(NodeStorage { nodes: vec![], version: 0 }));
    assert_eq!(storage.has_done_first_sync(), Ok(false));
    assert_eq!(storage.import(Document::Null), Ok(()));
    assert_eq!(storage.import(sample()), Ok(()));
    assert_eq!(storage.clear(), Ok(()));
    assert_eq!(storage.scan_keys("", None), Ok(vec![]));
}

#[test]
fn memory_storage_lifecycle() {
    let mut storage = MemoryStorage::<NoCipher>::default();
    assert_eq!(storage.password(), None);
    assert_eq!(storage.start(), Ok(()));
    assert_eq!(storage.start(), Ok(()));
    assert_eq!(storage.connected(), Ok(false));
    storage.stop();
    storage.memory.hold_read().unwrap();
    assert_eq!(
        storage.delete(&["a".to_string()]),
        Err(MutinyError::WriteError { source: MutinyStorageError::LockError })
    );
    storage.memory.release_read();
    storage.memory.hold_write().unwrap();
    assert_eq!(
        storage.scan_keys("", None),
        Err(MutinyError::ReadError { source: MutinyStorageError::LockError })
    );
    assert_eq!(
        storage.scan("", None),
        Err(MutinyError::ReadError { source: MutinyStorageError::LockError })
    );
}

#[test]
fn no_cipher_never_succeeds() {
    assert_eq!(NoCipher::encryption_key_from_pass("p"), Err(CipherError));
    assert_eq!(NoCipher.encrypt("text"), Err(CipherError));
    assert_eq!(NoCipher::decrypt_with_password("text", "p"), Err(CipherError));
}

#[test]
fn versioned_value_holds_its_parts() {
    let v = VersionedValue { version: 3, value: sample() };
    assert_eq!(v.clone(), VersionedValue { version: 3, value: sample() });
}

#[test]
fn errors_for_reads_and_writes() {
    assert_eq!(
        MutinyError::read_err(MutinyStorageError::LockError),
        MutinyError::ReadError { source: MutinyStorageError::LockError }
    );
    assert_eq!(
        MutinyError::write_err(MutinyStorageError::SerdeError),
        MutinyError::WriteError { source: MutinyStorageError::SerdeError }
    );
}

#[test]
fn import_replaces_and_clear_removes_everything() {
    let mut storage = MemoryStorage::<NoCipher>::new(None, None);
    storage.set("old", Document::Null, None).unwrap();
    let backup = Document::Object(vec![
        ("a".to_string(), Document::Bool(true)),
        ("b".to_string(), sample()),
        ("a".to_string(), Document::Bool(false)),
    ]);
    storage.import(backup).unwrap();
    let mut keys = storage.scan_keys("", None).unwrap();
    keys.sort();
    assert_eq!(keys, vec!["a".to_string(), "b".to_string()]);
    assert_eq!(storage.get("a").unwrap(), Some(Document::Bool(false)));
    assert_eq!(storage.get("b").unwrap(), Some(sample()));
    assert_eq!(storage.get("old").unwrap(), None);

    assert_eq!(storage.import(Document::List(vec![])), Err(MutinyError::SerializationFailed));
    assert_eq!(storage.get("b").unwrap(), Some(sample()));

    storage.memory.hold_read().unwrap();
    let locked = Err(MutinyError::WriteError { source: MutinyStorageError::LockError });
    assert_eq!(storage.import(Document::Object(vec![])), locked);
    assert_eq!(storage.import(Document::Null), locked);
    assert_eq!(storage.clear(), locked);
    storage.memory.release_read();
    assert_eq!(storage.get("b").unwrap(), Some(sample()));

    storage.clear().unwrap();
    assert_eq!(storage.scan_keys("", None), Ok(vec![]));
    storage.import(Document::Object(vec![])).unwrap();
    assert_eq!(storage.scan_keys("", None), Ok(vec![]));
}

#[test]
fn a_document_without_json_text_is_not_sealed() {
    let cipher = encryption_key_from_pass("hunter2").unwrap();
    let unwritable = Document::List(vec![Document::Number(Number::Real("1,5".to_string()))]);
    assert_eq!(
        encrypt_value("mnemonic", unwritable.clone(), Some(&cipher)),
        Err(MutinyError::SerializationFailed)
    );
    // a key that is not secret is not written as text, so nothing fails
    assert_eq!(encrypt_value("nodes", unwritable.clone(), Some(&cipher)), Ok(unwritable.clone()));

    let mut storage = memory_with("hunter2");
    storage.set_data("manager_1", sample(), None).unwrap();
    let before = storage.get("manager_1").unwrap();
    assert_eq!(
        storage.set_data("manager_1", unwritable.clone(), None),
        Err(MutinyError::SerializationFailed)
    );
    assert_eq!(
        storage.set_data("manager_1", Document::Text("cannot be sealed".to_string()), None),
        Err(MutinyError::EncryptionFailed)
    );
    assert_eq!(storage.get("manager_1").unwrap(), before);
    // with the lock held as well, the failure to prepare comes first
    storage.memory.hold_read().unwrap();
    assert_eq!(
        storage.set_data("manager_1", unwritable, None),
        Err(MutinyError::SerializationFailed)
    );
    assert_eq!(
        storage.set_data("manager_1", sample(), None),
        Err(MutinyError::WriteError { source: MutinyStorageError::LockError })
    );
}

#[test]
fn rotation_installs_the_derived_cipher() {
    let mut storage = MemoryStorage::<TestCipher>::new(None, None);
    storage.set_data("manager_1", sample(), None).unwrap();
    storage.change_password_and_rewrite_storage(None, Some("newpass".to_string())).unwrap();
    assert_eq!(storage.cipher(), Some(&encryption_key_from_pass("newpass").unwrap()));
    assert_eq!(storage.password(), Some("newpass"));
    match storage.get("manager_1").unwrap() {
        Some(Document::Text(ciphertext)) => assert_eq!(
            decrypt_value::<TestCipher>("manager_1", Document::Text(ciphertext), Some("newpass")),
            Ok(sample())
        ),
        other => panic!("not a string: {:?}", other),
    }
    // the right old passphrase never counts as incorrect, whatever else fails
    storage.memory.hold_write().unwrap();
    let r = storage.change_password_and_rewrite_storage(Some("newpass".to_string()), None);
    assert_eq!(r, Err(MutinyError::ReadError { source: MutinyStorageError::LockError }));
}

#[test]
fn idle_cipher_derives_and_does_nothing_else() {
    assert_eq!(IdleCipher::encryption_key_from_pass("p"), Ok(IdleCipher));
    assert_eq!(IdleCipher::encryption_key_from_pass(""), Ok(IdleCipher));
    assert_eq!(IdleCipher.encrypt("text"), Err(CipherError));
    assert_eq!(IdleCipher::decrypt_with_password("text", "p"), Err(CipherError));
}
