use kustodio::lock::{Lock, LockError, State};

#[test]
fn new_lock_is_unlocked() {
    let lock = Lock::new();
    assert_eq!(lock.state, State::Unlocked);
    assert!(!lock.locked());
}

#[test]
fn lock_then_lock_again_reports_already_locked() {
    let mut lock = Lock::new();
    assert_eq!(lock.lock(), None);
    assert!(lock.locked());
    assert_eq!(lock.lock(), Some(LockError::AlreadyLocked));
    assert!(lock.locked());
}

#[test]
fn unlock_of_free_lock_reports_already_unlocked() {
    let mut lock = Lock::new();
    assert_eq!(lock.unlock(), Some(LockError::AlreadyUnlocked));
    assert_eq!(lock.state, State::Unlocked);
}

#[test]
fn lock_then_unlock_frees_the_lock() {
    let mut lock = Lock::new();
    assert_eq!(lock.lock(), None);
    assert_eq!(lock.unlock(), None);
    assert!(!lock.locked());
}

#[test]
fn locks_compare_by_state() {
    let mut a = Lock::new();
    let b = Lock::new();
    assert_eq!(a, b);
    a.lock();
    assert_ne!(a, b);
}

#[test]
fn lock_error_messages() {
    assert_eq!(LockError::AlreadyLocked.message(), "Already locked");
    assert_eq!(LockError::AlreadyUnlocked.message(), "Already unlocked");
}
