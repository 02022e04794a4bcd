//! The update engine: applies lock actions, whether a local client asked for
//! them or a peer sent them, to a store, and reports each change as an event.

use crate::event::{apply_action, event_for, events_of, takes_effect, Action, Event};
use crate::lock::{Lock, State};
use crate::message::{decode, is_request, LockMessage};
use crate::storage::{lists_exactly, Storage, StorageError};
use vstd::prelude::*;

verus! {

/// Applies lock actions to a store and collects the events that they report,
/// oldest first, until they are taken for delivery.
pub struct Handler<S: Storage> {
    storage: S,
    events: Vec<Event>,
}

impl<S: Storage> Handler<S> {
    /// The engine's internal consistency.
    pub closed spec fn wf(&self) -> bool {
        self.storage.wf()
    }

    /// The locks held, by name.
    pub closed spec fn locks(&self) -> Map<Seq<char>, Lock> {
        self.storage.entries()
    }

    /// The names that the store's membership filter has recorded.
    pub closed spec fn filter(&self) -> Set<Seq<char>> {
        self.storage.filter()
    }

    /// The events reported and not yet taken, oldest first.
    pub closed spec fn pending(&self) -> Seq<Event> {
        self.events@
    }

    /// An engine over `storage`, with no event pending.
    pub fn new(storage: S) -> (r: Self)
        requires
            storage.wf(),
        ensures
            r.wf(),
            r.locks() == storage.entries(),
            r.filter() == storage.filter(),
            r.pending() == Seq::<Event>::empty(),
    {
        Handler { storage, events: Vec::new() }
    }

    /// Creates the lock `name`, unlocked, over any lock of that name.
    pub fn created(&mut self, name: String)
        requires
            old(self).wf(),
        ensures
            final(self).wf(),
            final(self).locks() == apply_action(old(self).locks(), Action::Created, name@),
            final(self).filter() == old(self).filter().insert(name@),
            final(self).pending() == old(self).pending() + events_of(
                old(self).locks(),
                Action::Created,
                name,
            ),
    {
        match self.storage.set(name.clone(), Lock::new()) {
            Ok(_) => {
                self.events.push(Event::Created(name));
            },
            Err(_) => {},
        }
        proof {
            assert(self.events@ =~= old(self).events@ + events_of(
                old(self).locks(),
                Action::Created,
                name,
            ));
        }
    }

    /// Removes the lock `name`; an absent name is left as it is.
    pub fn removed(&mut self, name: String)
        requires
            old(self).wf(),
        ensures
            final(self).wf(),
            final(self).locks() == apply_action(old(self).locks(), Action::Removed, name@),
            final(self).filter() == old(self).filter(),
            final(self).pending() == old(self).pending() + events_of(
                old(self).locks(),
                Action::Removed,
                name,
            ),
    {
        match self.storage.remove(name.clone()) {
            Ok(_) => {
                self.events.push(Event::Removed(name));
            },
            Err(_) => {},
        }
        proof {
            assert(self.events@ =~= old(self).events@ + events_of(
                old(self).locks(),
                Action::Removed,
                name,
            ));
        }
    }

    /// Takes the lock `name`; a held or absent lock is left as it is.
    pub fn locked(&mut self, name: String)
        requires
            old(self).wf(),
        ensures
            final(self).wf(),
            final(self).locks() == apply_action(old(self).locks(), Action::Locked, name@),
            final(self).filter() == old(self).filter(),
            final(self).pending() == old(self).pending() + events_of(
                old(self).locks(),
                Action::Locked,
                name,
            ),
    {
        match self.storage.get(name.clone()) {
            Ok(lock) => {
                if !lock.locked() {
                    let mut nu_lock = lock;
                    let _ = nu_lock.lock();
                    let _ = self.storage.set(name.clone(), nu_lock);
                    self.events.push(Event::Locked(name));
                }
            },
            Err(_) => {},
        }
        proof {
            old(self).storage.lemma_filter_covers();
            assert(self.storage.filter() =~= old(self).storage.filter());
            assert(self.storage.entries() =~= apply_action(
                old(self).locks(),
                Action::Locked,
                name@,
            ));
            assert(self.events@ =~= old(self).events@ + events_of(
                old(self).locks(),
                Action::Locked,
                name,
            ));
        }
    }

    /// Releases the lock `name`; a free or absent lock is left as it is.
    pub fn unlocked(&mut self, name: String)
        requires
            old(self).wf(),
        ensures
            final(self).wf(),
            final(self).locks() == apply_action(old(self).locks(), Action::Unlocked, name@),
            final(self).filter() == old(self).filter(),
            final(self).pending() == old(self).pending() + events_of(
                old(self).locks(),
                Action::Unlocked,
                name,
            ),
    {
        match self.storage.get(name.clone()) {
            Ok(lock) => {
                if lock.locked() {
                    let mut nu_lock = lock;
                    let _ = nu_lock.unlock();
                    let _ = self.storage.set(name.clone(), nu_lock);
                    self.events.push(Event::Unlocked(name));
                }
            },
            Err(_) => {},
        }
        proof {
            old(self).storage.lemma_filter_covers();
            assert(self.storage.filter() =~= old(self).storage.filter());
            assert(self.storage.entries() =~= apply_action(
                old(self).locks(),
                Action::Unlocked,
                name@,
            ));
            assert(self.events@ =~= old(self).events@ + events_of(
                old(self).locks(),
                Action::Unlocked,
                name,
            ));
        }
    }

    /// Applies `action` to the lock `name`.
    pub fn apply(&mut self, action: Action, name: String)
        requires
            old(self).wf(),
        ensures
            final(self).wf(),
            final(self).locks() == apply_action(old(self).locks(), action, name@),
            action == Action::Created ==> final(self).filter() == old(self).filter().insert(
                name@,
            ),
            action != Action::Created ==> final(self).filter() == old(self).filter(),
            final(self).pending() == old(self).pending() + events_of(
                old(self).locks(),
                action,
                name,
            ),
    {
        match action {
            Action::Created => self.created(name),
            Action::Removed => self.removed(name),
            Action::Locked => self.locked(name),
            Action::Unlocked => self.unlocked(name),
        }
    }

    /// Applies the action that a peer's payload asks for. A payload that is
    /// not the encoding of a message, or whose action number names no action,
    /// is dropped and changes nothing.
    pub fn on_update(&mut self, content: &[u8])
        requires
            old(self).wf(),
        ensures
            final(self).wf(),
            (exists|m: LockMessage, a: Action| is_request(content@, m, a)) ==> exists|
                m: LockMessage,
                a: Action,
            |
                #![trigger is_request(content@, m, a)]
                is_request(content@, m, a) && final(self).locks() == apply_action(
                    old(self).locks(),
                    a,
                    m.name@,
                ) && final(self).pending() == old(self).pending() + events_of(
                    old(self).locks(),
                    a,
                    m.name,
                ) && (a == Action::Created ==> final(self).filter() == old(self).filter().insert(
                    m.name@,
                )) && (a != Action::Created ==> final(self).filter() == old(self).filter()),
            !(exists|m: LockMessage, a: Action| is_request(content@, m, a)) ==> final(self).locks()
                == old(self).locks() && final(self).pending() == old(self).pending()
                && final(self).filter() == old(self).filter(),
    {
        match decode(content) {
            None => {},
            Some(msg) => match Action::from_i32(msg.action) {
                None => {
                    proof {
                        assert forall|m: LockMessage, a: Action|
                            !#[trigger] is_request(content@, m, a) by {
                            if is_request(content@, m, a) {
                                assert(m.action == msg.action);
                            }
                        }
                    }
                },
                Some(action) => {
                    let ghost m = msg;
                    self.apply(action, msg.name);
                    proof {
                        assert(is_request(content@, m, action));
                    }
                },
            },
        }
    }

    /// Whether the lock `name` is held; `NotFound` when there is none.
    pub fn state(&self, name: String) -> (r: Result<bool, StorageError>)
        requires
            self.wf(),
        ensures
            self.locks().contains_key(name@) ==> r == Ok::<bool, StorageError>(
                self.locks()[name@].state == State::Locked,
            ),
            !self.locks().contains_key(name@) ==> r == Err::<bool, StorageError>(
                StorageError::NotFound,
            ),
    {
        match self.storage.get(name) {
            Ok(lock) => Ok(lock.locked()),
            Err(err) => Err(err),
        }
    }

    /// A copy of every lock with its name, in no particular order.
    pub fn list(&self) -> (r: Result<Vec<(String, Lock)>, StorageError>)
        requires
            self.wf(),
        ensures
            r matches Ok(v) && lists_exactly(v@, self.locks()),
    {
        self.storage.list()
    }

    /// Hands over the pending events, oldest first, and forgets them.
    pub fn take_events(&mut self) -> (r: Vec<Event>)
        requires
            old(self).wf(),
        ensures
            final(self).wf(),
            r@ == old(self).pending(),
            final(self).pending() == Seq::<Event>::empty(),
            final(self).locks() == old(self).locks(),
            final(self).filter() == old(self).filter(),
    {
        let mut taken: Vec<Event> = Vec::new();
        std::mem::swap(&mut self.events, &mut taken);
        taken
    }
}

} // verus!
