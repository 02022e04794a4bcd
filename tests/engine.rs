use kustodio::event::{Action, Event};
use kustodio::handler::Handler;
use kustodio::lock::{Lock, LockError, State};
use kustodio::message::{encode, LockMessage};
use kustodio::storage::{Config, Memory, StorageError};

fn handler() -> Handler<Memory> {
    Handler::new(Memory::new(Config { bitmap_size: 4096, items_count: 1000 }))
}

fn s(x: &str) -> String {
    x.to_string()
}

#[test]
fn create_then_state_is_unlocked() {
    let mut h = handler();
    h.created(s("k"));
    assert_eq!(h.state(s("k")), Ok(false));
    assert_eq!(h.take_events(), vec![Event::Created(s("k"))]);
}

#[test]
fn lock_twice_stays_locked_and_reports_once() {
    let mut h = handler();
    h.created(s("k"));
    h.locked(s("k"));
    h.locked(s("k"));
    assert_eq!(h.state(s("k")), Ok(true));
    assert_eq!(
        h.take_events(),
        vec![Event::Created(s("k")), Event::Locked(s("k"))]
    );
}

#[test]
fn lock_then_unlock_is_unlocked() {
    let mut h = handler();
    h.created(s("k"));
    h.locked(s("k"));
    h.unlocked(s("k"));
    assert_eq!(h.state(s("k")), Ok(false));
}

#[test]
fn unlock_of_never_created_is_not_found_and_creates_nothing() {
    let mut h = handler();
    h.unlocked(s("ghost"));
    assert_eq!(h.state(s("ghost")), Err(StorageError::NotFound));
    assert_eq!(h.list().unwrap().len(), 0);
    assert_eq!(h.take_events(), vec![]);
}

#[test]
fn repeated_creates_leave_one_unlocked_lock() {
    let mut h = handler();
    h.created(s("k"));
    h.locked(s("k"));
    for _ in 0..8 {
        h.created(s("k"));
    }
    assert_eq!(h.state(s("k")), Ok(false));
    let all = h.list().unwrap();
    assert_eq!(all, vec![(s("k"), Lock::new())]);
    assert_eq!(h.take_events().len(), 10);
}

#[test]
fn watch_scenario_reports_created_locked_removed() {
    let mut h = handler();
    h.created(s("a"));
    h.locked(s("a"));
    h.removed(s("a"));
    assert_eq!(
        h.take_events(),
        vec![Event::Created(s("a")), Event::Locked(s("a")), Event::Removed(s("a"))]
    );
    assert_eq!(h.take_events(), vec![]);
}

#[test]
fn end_to_end() {
    let mut h = handler();
    h.created(s("x"));
    assert_eq!(h.state(s("x")), Ok(false));
    h.locked(s("x"));
    assert_eq!(h.state(s("x")), Ok(true));
    let mut held = Lock { state: State::Locked };
    assert_eq!(held.lock(), Some(LockError::AlreadyLocked));
    h.locked(s("x"));
    assert_eq!(h.state(s("x")), Ok(true));
    h.unlocked(s("x"));
    assert_eq!(h.state(s("x")), Ok(false));
    h.removed(s("x"));
    assert_eq!(h.state(s("x")), Err(StorageError::NotFound));
    assert_eq!(
        h.take_events(),
        vec![
            Event::Created(s("x")),
            Event::Locked(s("x")),
            Event::Unlocked(s("x")),
            Event::Removed(s("x")),
        ]
    );
}

#[test]
fn remove_of_absent_reports_nothing() {
    let mut h = handler();
    h.removed(s("nope"));
    assert_eq!(h.take_events(), vec![]);
}

#[test]
fn apply_dispatches_by_action() {
    let mut h = handler();
    h.apply(Action::Created, s("a"));
    h.apply(Action::Locked, s("a"));
    assert_eq!(h.state(s("a")), Ok(true));
    h.apply(Action::Unlocked, s("a"));
    assert_eq!(h.state(s("a")), Ok(false));
    h.apply(Action::Removed, s("a"));
    assert_eq!(h.state(s("a")), Err(StorageError::NotFound));
}

#[test]
fn inbound_payload_is_applied() {
    let mut h = handler();
    h.on_update(&encode(&LockMessage::new(Action::Created, s("p"))));
    h.on_update(&encode(&LockMessage::new(Action::Locked, s("p"))));
    assert_eq!(h.state(s("p")), Ok(true));
    h.on_update(&encode(&LockMessage::new(Action::Locked, s("p"))));
    assert_eq!(
        h.take_events(),
        vec![Event::Created(s("p")), Event::Locked(s("p"))]
    );
}

#[test]
fn undecodable_payload_is_dropped() {
    let mut h = handler();
    h.created(s("p"));
    h.take_events();
    h.on_update(&[0xFF, 0x00, 0x01]);
    h.on_update(&[]);
    assert_eq!(h.state(s("p")), Ok(false));
    assert_eq!(h.take_events(), vec![]);
}

#[test]
fn unknown_action_is_dropped() {
    let mut h = handler();
    let m = LockMessage { name: s("p"), action: 9, message_id: s("id") };
    h.on_update(&encode(&m));
    assert_eq!(h.state(s("p")), Err(StorageError::NotFound));
    assert_eq!(h.take_events(), vec![]);
}
