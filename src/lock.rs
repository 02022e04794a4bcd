use vstd::prelude::*;

verus! {

/// The two states of a lock.
#[derive(PartialEq, Eq, Structural, Copy, Clone, Debug)]
pub enum State {
    Locked,
    Unlocked,
}

/// Why a state transition of a [`Lock`] was refused.
#[derive(PartialEq, Eq, Structural, Copy, Clone, Debug)]
pub enum LockError {
    AlreadyLocked,
    AlreadyUnlocked,
}

impl LockError {
    /// A human-readable description of the error.
    pub fn message(&self) -> (r: &'static str) {
        match self {
            LockError::AlreadyLocked => "Already locked",
            LockError::AlreadyUnlocked => "Already unlocked",
        }
    }
}

/// A named lock's value: its state, compared by state only.
#[derive(PartialEq, Eq, Structural, Copy, Clone, Debug)]
pub struct Lock {
    pub state: State,
}

impl Lock {
    /// A fresh lock, unlocked.
    pub fn new() -> (r: Lock)
        ensures
            r.state == State::Unlocked,
    {
        Lock { state: State::Unlocked }
    }

    /// Whether the lock is held.
    pub fn locked(&self) -> (r: bool)
        ensures
            r == (self.state == State::Locked),
    {
        match self.state {
            State::Locked => true,
            State::Unlocked => false,
        }
    }

    /// Takes the lock; refused, with no change, when it is already held.
    pub fn lock(&mut self) -> (r: Option<LockError>)
        ensures
            old(self).state == State::Locked ==> r == Some(LockError::AlreadyLocked)
                && *final(self) == *old(self),
            old(self).state == State::Unlocked ==> r.is_none() && final(self).state
                == State::Locked,
    {
        if self.locked() {
            Some(LockError::AlreadyLocked)
        } else {
            self.state = State::Locked;
            None
        }
    }

    /// Releases the lock; refused, with no change, when it is not held.
    pub fn unlock(&mut self) -> (r: Option<LockError>)
        ensures
            old(self).state == State::Unlocked ==> r == Some(LockError::AlreadyUnlocked)
                && *final(self) == *old(self),
            old(self).state == State::Locked ==> r.is_none() && final(self).state
                == State::Unlocked,
    {
        if self.locked() {
            self.state = State::Unlocked;
            None
        } else {
            Some(LockError::AlreadyUnlocked)
        }
    }
}

} // verus!
