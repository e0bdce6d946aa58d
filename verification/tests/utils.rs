use mutiny_core::document::Document;
use mutiny_core::lock::{RwLock, WouldBlock};
use mutiny_core::table::Table;
use mutiny_core::text::{chars_of, ends_with, same_text, starts_with};
use mutiny_core::utils::{min_lightning_amount, Mutex, Network};

#[test]
fn min_lightning_amount_per_network() {
    assert_eq!(min_lightning_amount(Network::Bitcoin), 50_000);
    assert_eq!(min_lightning_amount(Network::Testnet), 10_000);
    assert_eq!(min_lightning_amount(Network::Signet), 10_000);
    assert_eq!(min_lightning_amount(Network::Regtest), 10_000);
}

#[test]
fn mutex_lock_reads_and_writes() {
    let mut mutex = Mutex::new(1u8);
    {
        let mut guard = mutex.lock().expect("Failed to lock mutex");
        assert_eq!(*guard.deref(), 1);
        *guard.deref_mut() = 2;
        assert_eq!(*guard.deref(), 2);
    }
    assert_eq!(*mutex.lock().unwrap().deref(), 2);
}

#[test]
fn rw_lock_never_waits() {
    let mut lock = RwLock::new(5u32);
    assert_eq!(lock.try_read(), Ok(&5));
    *lock.try_write().unwrap() = 6;
    assert_eq!(lock.try_read(), Ok(&6));

    assert_eq!(lock.hold_read(), Ok(()));
    assert_eq!(lock.hold_read(), Ok(()));
    assert_eq!(lock.try_read(), Ok(&6));
    assert_eq!(lock.try_write(), Err(WouldBlock));
    assert_eq!(lock.hold_write(), Err(WouldBlock));
    lock.release_read();
    assert_eq!(lock.try_write(), Err(WouldBlock));
    lock.release_read();
    lock.release_read();
    assert_eq!(lock.try_write(), Ok(&mut 6));

    assert_eq!(lock.hold_write(), Ok(()));
    assert_eq!(lock.try_read(), Err(WouldBlock));
    assert_eq!(lock.try_write(), Err(WouldBlock));
    assert_eq!(lock.hold_read(), Err(WouldBlock));
    assert_eq!(lock.hold_write(), Err(WouldBlock));
    lock.release_write();
    assert_eq!(lock.try_read(), Ok(&6));
}

#[test]
fn table_keeps_one_record_per_key() {
    let mut table = Table::new();
    assert_eq!(table.get("a"), None);
    assert!(table.keys().is_empty());
    table.insert("a".to_string(), Document::Bool(true));
    table.insert("b".to_string(), Document::Null);
    table.insert("a".to_string(), Document::Bool(false));
    assert_eq!(table.get("a"), Some(&Document::Bool(false)));
    assert_eq!(table.get("b"), Some(&Document::Null));
    let mut keys = table.keys();
    keys.sort();
    assert_eq!(keys, vec!["a".to_string(), "b".to_string()]);
    table.remove("a");
    table.remove("missing");
    assert_eq!(table.get("a"), None);
    assert_eq!(table.keys(), vec!["b".to_string()]);
}

#[test]
fn text_helpers() {
    assert_eq!(chars_of("aé"), vec!['a', 'é']);
    assert_eq!(chars_of(""), Vec::<char>::new());
    assert!(same_text("abc", "abc"));
    assert!(!same_text("abc", "abd"));
    assert!(!same_text("abc", "ab"));
    assert!(starts_with("manager_1", "manager"));
    assert!(starts_with("manager", "manager"));
    assert!(starts_with("x", ""));
    assert!(!starts_with("manage", "manager"));
    assert!(!starts_with("a_manager", "manager"));
    assert!(ends_with("node_1", "_1"));
    assert!(ends_with("node_1", ""));
    assert!(ends_with("é", "é"));
    assert!(!ends_with("1", "_1"));
    assert!(!ends_with("node_1", "node"));
}
