use kustodio::lock::{Lock, State};
use kustodio::storage::{Config, Memory, Storage, StorageError};

fn store() -> Memory {
    Memory::new(Config { bitmap_size: 1024, items_count: 100 })
}

fn locked() -> Lock {
    Lock { state: State::Locked }
}

#[test]
fn empty_store_finds_nothing() {
    let s = store();
    assert!(!s.probe("a".to_string()));
    assert_eq!(s.get("a".to_string()), Err(StorageError::NotFound));
    assert_eq!(s.list().unwrap().len(), 0);
}

#[test]
fn set_then_probe_and_get() {
    let mut s = store();
    assert_eq!(s.set("a".to_string(), Lock::new()), Ok(None));
    assert!(s.probe("a".to_string()));
    assert_eq!(s.get("a".to_string()), Ok(Lock::new()));
    assert!(!s.probe("b".to_string()));
}

#[test]
fn set_over_existing_returns_previous() {
    let mut s = store();
    s.set("a".to_string(), Lock::new()).unwrap();
    assert_eq!(s.set("a".to_string(), locked()), Ok(Some(Lock::new())));
    assert_eq!(s.get("a".to_string()), Ok(locked()));
    assert_eq!(s.list().unwrap().len(), 1);
}

#[test]
fn remove_takes_entry_out() {
    let mut s = store();
    s.set("a".to_string(), locked()).unwrap();
    assert_eq!(s.remove("a".to_string()), Ok(locked()));
    assert_eq!(s.get("a".to_string()), Err(StorageError::NotFound));
    assert!(!s.probe("a".to_string()));
    assert_eq!(s.remove("a".to_string()), Err(StorageError::NotFound));
}

#[test]
fn set_again_after_remove() {
    let mut s = store();
    s.set("a".to_string(), locked()).unwrap();
    s.remove("a".to_string()).unwrap();
    assert_eq!(s.set("a".to_string(), Lock::new()), Ok(None));
    assert_eq!(s.get("a".to_string()), Ok(Lock::new()));
}

#[test]
fn swap_hands_back_previous_value() {
    let mut s = store();
    let mut value = Lock::new();
    assert_eq!(s.swap("a".to_string(), &mut value), Ok(()));
    assert_eq!(value, Lock::new());
    let mut other = locked();
    assert_eq!(s.swap("a".to_string(), &mut other), Ok(()));
    assert_eq!(other, Lock::new());
    assert_eq!(s.get("a".to_string()), Ok(locked()));
}

#[test]
fn list_copies_every_entry() {
    let mut s = store();
    s.set("a".to_string(), Lock::new()).unwrap();
    s.set("b".to_string(), locked()).unwrap();
    s.set("c".to_string(), Lock::new()).unwrap();
    let mut all = s.list().unwrap();
    all.sort_by(|x, y| x.0.cmp(&y.0));
    assert_eq!(
        all,
        vec![
            ("a".to_string(), Lock::new()),
            ("b".to_string(), locked()),
            ("c".to_string(), Lock::new()),
        ]
    );
}

#[test]
fn many_keys_in_a_small_filter() {
    let mut s = Memory::new(Config { bitmap_size: 1, items_count: 1 });
    for i in 0..50 {
        s.set(format!("k{}", i), Lock::new()).unwrap();
    }
    for i in 0..50 {
        assert!(s.probe(format!("k{}", i)));
    }
    for i in 50..100 {
        assert_eq!(s.get(format!("k{}", i)), Err(StorageError::NotFound));
    }
}

#[test]
fn storage_error_messages() {
    assert_eq!(StorageError::NotFound.message(), "Key not found.");
    assert_eq!(StorageError::Occupied.message(), "Storage Occupied!");
}
