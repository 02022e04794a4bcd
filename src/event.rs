//! The lock actions that peers replicate, the domain events that applying
//! them produces, and the model of what each action does to the registry.

use crate::lock::{Lock, State};
use vstd::prelude::*;

verus! {

/// A unit of replicated intent on a named lock.
#[derive(PartialEq, Eq, Structural, Copy, Clone, Debug)]
pub enum Action {
    Created,
    Removed,
    Locked,
    Unlocked,
}

/// The number under which `a` travels on the wire.
pub open spec fn action_code(a: Action) -> i32 {
    match a {
        Action::Created => 0,
        Action::Removed => 1,
        Action::Locked => 2,
        Action::Unlocked => 3,
    }
}

impl Action {
    /// The number under which the action travels on the wire.
    pub fn code(&self) -> (r: i32)
        ensures
            r == action_code(*self),
    {
        match self {
            Action::Created => 0,
            Action::Removed => 1,
            Action::Locked => 2,
            Action::Unlocked => 3,
        }
    }

    /// The action that travels under `value`, if any.
    pub fn from_i32(value: i32) -> (r: Option<Action>)
        ensures
            r matches Some(a) ==> action_code(a) == value,
            r is None ==> forall|a: Action| action_code(a) != value,
    {
        match value {
            0 => Some(Action::Created),
            1 => Some(Action::Removed),
            2 => Some(Action::Locked),
            3 => Some(Action::Unlocked),
            _ => None,
        }
    }
}

/// A change of the registry, reported to watchers.
#[derive(Clone, Debug, PartialEq, Eq)]
pub enum Event {
    Created(String),
    Removed(String),
    Unlocked(String),
    Locked(String),
}

/// The event that reports `action` on the lock named `name`.
pub open spec fn event_for(action: Action, name: String) -> Event {
    match action {
        Action::Created => Event::Created(name),
        Action::Removed => Event::Removed(name),
        Action::Locked => Event::Locked(name),
        Action::Unlocked => Event::Unlocked(name),
    }
}

/// Whether the registry `m` holds an entry under `key` in state `s`.
pub open spec fn holds_in(m: Map<Seq<char>, Lock>, key: Seq<char>, s: State) -> bool {
    m.contains_key(key) && m[key].state == s
}

/// Whether applying `action` to `key` changes the registry `m`, and so
/// reports an event. A creation always counts: it writes a fresh lock, also
/// over one that was there.
pub open spec fn takes_effect(m: Map<Seq<char>, Lock>, action: Action, key: Seq<char>) -> bool {
    match action {
        Action::Created => true,
        Action::Removed => m.contains_key(key),
        Action::Locked => holds_in(m, key, State::Unlocked),
        Action::Unlocked => holds_in(m, key, State::Locked),
    }
}

/// The registry after applying `action` to `key` in `m`.
pub open spec fn apply_action(m: Map<Seq<char>, Lock>, action: Action, key: Seq<char>) -> Map<
    Seq<char>,
    Lock,
> {
    match action {
        Action::Created => m.insert(key, Lock { state: State::Unlocked }),
        Action::Removed => m.remove(key),
        Action::Locked => if takes_effect(m, action, key) {
            m.insert(key, Lock { state: State::Locked })
        } else {
            m
        },
        Action::Unlocked => if takes_effect(m, action, key) {
            m.insert(key, Lock { state: State::Unlocked })
        } else {
            m
        },
    }
}

/// The events reported by applying `action` to `name` in `m`: one when it
/// takes effect, none otherwise.
pub open spec fn events_of(m: Map<Seq<char>, Lock>, action: Action, name: String) -> Seq<Event> {
    if takes_effect(m, action, name@) {
        seq![event_for(action, name)]
    } else {
        seq![]
    }
}

/// The registry after applying `action` to `key` in `m`, `n` times over.
pub open spec fn apply_repeatedly(
    m: Map<Seq<char>, Lock>,
    action: Action,
    key: Seq<char>,
    n: nat,
) -> Map<Seq<char>, Lock>
    decreases n,
{
    if n == 0 {
        m
    } else {
        apply_action(apply_repeatedly(m, action, key, (n - 1) as nat), action, key)
    }
}

/// A lock just created is unlocked.
pub proof fn lemma_created_is_unlocked(m: Map<Seq<char>, Lock>, key: Seq<char>)
    ensures
        holds_in(apply_action(m, Action::Created, key), key, State::Unlocked),
{
}

/// Taking a held lock again changes nothing and reports nothing: after two
/// takes of an existing lock it is held, and the second take had no effect.
pub proof fn lemma_lock_twice(m: Map<Seq<char>, Lock>, key: Seq<char>)
    requires
        m.contains_key(key),
    ensures
        holds_in(apply_action(m, Action::Locked, key), key, State::Locked),
        !takes_effect(apply_action(m, Action::Locked, key), Action::Locked, key),
        apply_action(apply_action(m, Action::Locked, key), Action::Locked, key) == apply_action(
            m,
            Action::Locked,
            key,
        ),
{
}

/// Taking and then releasing an existing lock leaves it unlocked.
pub proof fn lemma_lock_then_unlock(m: Map<Seq<char>, Lock>, key: Seq<char>)
    requires
        m.contains_key(key),
    ensures
        holds_in(
            apply_action(apply_action(m, Action::Locked, key), Action::Unlocked, key),
            key,
            State::Unlocked,
        ),
{
}

/// Releasing a lock that does not exist changes nothing, creates no entry
/// and reports nothing.
pub proof fn lemma_unlock_absent(m: Map<Seq<char>, Lock>, key: Seq<char>)
    requires
        !m.contains_key(key),
    ensures
        apply_action(m, Action::Unlocked, key) == m,
        !apply_action(m, Action::Unlocked, key).contains_key(key),
        !takes_effect(m, Action::Unlocked, key),
{
}

/// Any number of creations of one name, one after the other, leave the same
/// registry as a single one: one unlocked lock under the name.
pub proof fn lemma_repeated_creates(m: Map<Seq<char>, Lock>, key: Seq<char>, n: nat)
    requires
        n >= 1,
    ensures
        apply_repeatedly(m, Action::Created, key, n) == apply_action(m, Action::Created, key),
        holds_in(apply_repeatedly(m, Action::Created, key, n), key, State::Unlocked),
    decreases n,
{
    if n > 1 {
        lemma_repeated_creates(m, key, (n - 1) as nat);
        assert(apply_action(apply_action(m, Action::Created, key), Action::Created, key)
            =~= apply_action(m, Action::Created, key));
    } else {
        assert(apply_repeatedly(m, Action::Created, key, 0) == m);
    }
}

/// Creating, taking and removing a lock, in that order, reports exactly its
/// creation, its taking and its removal, and leaves no entry under its name.
pub proof fn lemma_create_lock_remove(m: Map<Seq<char>, Lock>, name: String)
    ensures
        ({
            let m1 = apply_action(m, Action::Created, name@);
            let m2 = apply_action(m1, Action::Locked, name@);
            &&& events_of(m, Action::Created, name) + events_of(m1, Action::Locked, name)
                + events_of(m2, Action::Removed, name) == seq![
                Event::Created(name),
                Event::Locked(name),
                Event::Removed(name),
            ]
            &&& !apply_action(m2, Action::Removed, name@).contains_key(name@)
        }),
{
    let m1 = apply_action(m, Action::Created, name@);
    let m2 = apply_action(m1, Action::Locked, name@);
    assert(events_of(m, Action::Created, name) + events_of(m1, Action::Locked, name) + events_of(
        m2,
        Action::Removed,
        name,
    ) =~= seq![Event::Created(name), Event::Locked(name), Event::Removed(name)]);
}

} // verus!
