//! The lock registry: an authoritative map from lock names to locks, fronted
//! by an approximate-membership filter that answers most lookups of absent
//! names without touching the map.

use crate::lock::Lock;
use crate::outside::{
    bloom_check, bloom_members, bloom_new, bloom_set, table_entries, LockTable,
};
use bloomfilter::Bloom;
use vstd::prelude::*;

verus! {

/// Why a store operation failed.
#[derive(PartialEq, Eq, Structural, Copy, Clone, Debug)]
pub enum StorageError {
    /// No entry under the key.
    NotFound,
    /// An insertion was refused because the key was already taken.
    Occupied,
}

impl StorageError {
    /// A human-readable description of the error.
    pub fn message(&self) -> (r: &'static str) {
        match self {
            StorageError::NotFound => "Key not found.",
            StorageError::Occupied => "Storage Occupied!",
        }
    }
}

/// The value under `key` in `m`, if any.
pub open spec fn lookup(m: Map<Seq<char>, Lock>, key: Seq<char>) -> Option<Lock> {
    if m.contains_key(key) {
        Some(m[key])
    } else {
        None
    }
}

/// Whether `v` lists exactly the entries of `m`, each once, in any order.
pub open spec fn lists_exactly(v: Seq<(String, Lock)>, m: Map<Seq<char>, Lock>) -> bool {
    &&& v.len() == m.len()
    &&& forall|i: int|
        0 <= i < v.len() ==> #[trigger] m.contains_key(v[i].0@) && m[v[i].0@] == v[i].1
    &&& forall|i: int, j: int| 0 <= i < j < v.len() ==> #[trigger] v[i].0@ != #[trigger] v[j].0@
}

/// A registry of locks under names.
pub trait Storage: Sized {
    /// The registry's internal consistency.
    spec fn wf(&self) -> bool;

    /// The locks held, by name.
    spec fn entries(&self) -> Map<Seq<char>, Lock>;

    /// The names that the membership filter has recorded. It never forgets a
    /// name, also after the name's entry is removed.
    spec fn filter(&self) -> Set<Seq<char>>;

    /// The filter has recorded every held name, so a name that it lacks is
    /// surely absent.
    proof fn lemma_filter_covers(&self)
        requires
            self.wf(),
        ensures
            forall|k: Seq<char>| #[trigger] self.entries().contains_key(k) ==> self.filter().contains(k),
    ;

    /// Whether an entry is held under `key`.
    fn probe(&self, key: String) -> (r: bool)
        requires
            self.wf(),
        ensures
            r == self.entries().contains_key(key@),
    ;

    /// Stores `value` under `key` and returns the value it replaced.
    fn set(&mut self, key: String, value: Lock) -> (r: Result<Option<Lock>, StorageError>)
        requires
            old(self).wf(),
        ensures
            final(self).wf(),
            r == Ok::<Option<Lock>, StorageError>(lookup(old(self).entries(), key@)),
            final(self).entries() == old(self).entries().insert(key@, value),
            final(self).filter() == old(self).filter().insert(key@),
    ;

    /// The value under `key`.
    fn get(&self, key: String) -> (r: Result<Lock, StorageError>)
        requires
            self.wf(),
        ensures
            self.entries().contains_key(key@) ==> r == Ok::<Lock, StorageError>(
                self.entries()[key@],
            ),
            !self.entries().contains_key(key@) ==> r == Err::<Lock, StorageError>(
                StorageError::NotFound,
            ),
    ;

    /// Takes the entry under `key` out and returns its value. The filter keeps
    /// the name.
    fn remove(&mut self, key: String) -> (r: Result<Lock, StorageError>)
        requires
            old(self).wf(),
        ensures
            final(self).wf(),
            final(self).entries() == old(self).entries().remove(key@),
            final(self).filter() == old(self).filter(),
            old(self).entries().contains_key(key@) ==> r == Ok::<Lock, StorageError>(
                old(self).entries()[key@],
            ),
            !old(self).entries().contains_key(key@) ==> r == Err::<Lock, StorageError>(
                StorageError::NotFound,
            ),
    ;

    /// Stores the value behind `value_reference` under `key`, and hands the
    /// replaced value back through the same reference.
    fn swap(&mut self, key: String, value_reference: &mut Lock) -> (r: Result<(), StorageError>)
        requires
            old(self).wf(),
        ensures
            final(self).wf(),
            r is Ok,
            final(self).entries() == old(self).entries().insert(key@, *old(value_reference)),
            final(self).filter() == old(self).filter().insert(key@),
            old(self).entries().contains_key(key@) ==> *final(value_reference)
                == old(self).entries()[key@],
            !old(self).entries().contains_key(key@) ==> *final(value_reference)
                == *old(value_reference),
    ;

    /// A copy of every entry, in no particular order.
    fn list(&self) -> (r: Result<Vec<(String, Lock)>, StorageError>)
        requires
            self.wf(),
        ensures
            r matches Ok(v) && lists_exactly(v@, self.entries()),
    ;
}

/// A name just set is held, and so found by `probe`; once its entry is
/// removed it is no longer held, and `get` reports `NotFound`, but the filter,
/// which `remove` leaves as it is, still holds the name.
pub proof fn lemma_filter_outlives_entry(
    entries: Map<Seq<char>, Lock>,
    filter: Set<Seq<char>>,
    key: Seq<char>,
    value: Lock,
)
    ensures
        entries.insert(key, value).contains_key(key),
        !entries.insert(key, value).remove(key).contains_key(key),
        filter.insert(key).contains(key),
{
}

/// The sizes of a store's membership filter.
#[derive(Copy, Clone, Debug, PartialEq, Eq, Structural)]
pub struct Config {
    /// The filter's size in bytes.
    pub bitmap_size: usize,
    /// The number of items that the filter is sized for.
    pub items_count: usize,
}

/// An in-memory store: a membership filter in front of a hash map.
pub struct Memory {
    bloom_filter: Bloom<String>,
    hash_map: LockTable,
}

impl Memory {
    /// An empty store whose filter has the sizes of `config`.
    pub fn new(config: Config) -> (r: Memory)
        requires
            config.bitmap_size > 0,
            config.items_count > 0,
            config.bitmap_size <= usize::MAX / 8,
        ensures
            r.wf(),
            r.entries().dom() == Set::<Seq<char>>::empty(),
            r.filter() == Set::<Seq<char>>::empty(),
    {
        Memory {
            bloom_filter: bloom_new(config.bitmap_size, config.items_count),
            hash_map: LockTable::new(),
        }
    }
}

impl Storage for Memory {
    closed spec fn wf(&self) -> bool {
        table_entries(self.hash_map).dom().finite()
            && table_entries(self.hash_map).dom().subset_of(bloom_members(self.bloom_filter))
    }

    closed spec fn entries(&self) -> Map<Seq<char>, Lock> {
        table_entries(self.hash_map)
    }

    closed spec fn filter(&self) -> Set<Seq<char>> {
        bloom_members(self.bloom_filter)
    }

    proof fn lemma_filter_covers(&self) {
    }

    fn probe(&self, key: String) -> (r: bool) {
        if bloom_check(&self.bloom_filter, &key) {
            self.hash_map.contains_key(&key)
        } else {
            false
        }
    }

    fn set(&mut self, key: String, value: Lock) -> (r: Result<Option<Lock>, StorageError>) {
        match self.get(key.clone()) {
            Err(_) => {
                bloom_set(&mut self.bloom_filter, &key);
                if self.hash_map.try_insert(key, value) {
                    Ok(None)
                } else {
                    Err(StorageError::Occupied)
                }
            },
            Ok(previous) => {
                let _ = self.hash_map.remove(&key);
                proof {
                    assert(bloom_members(self.bloom_filter).insert(key@) == bloom_members(
                        self.bloom_filter,
                    ));
                }
                if self.hash_map.try_insert(key, value) {
                    Ok(Some(previous))
                } else {
                    Err(StorageError::Occupied)
                }
            },
        }
    }

    fn get(&self, key: String) -> (r: Result<Lock, StorageError>) {
        if self.probe(key.clone()) {
            match self.hash_map.get(&key) {
                Some(value) => Ok(value),
                None => Err(StorageError::NotFound),
            }
        } else {
            Err(StorageError::NotFound)
        }
    }

    fn remove(&mut self, key: String) -> (r: Result<Lock, StorageError>) {
        match self.get(key.clone()) {
            Ok(value) => {
                let _ = self.hash_map.remove(&key);
                Ok(value)
            },
            Err(err) => {
                proof {
                    assert(table_entries(self.hash_map).remove(key@) == table_entries(
                        self.hash_map,
                    ));
                }
                Err(err)
            },
        }
    }

    fn swap(&mut self, key: String, value_reference: &mut Lock) -> (r: Result<(), StorageError>) {
        match self.set(key, *value_reference) {
            Ok(Some(previous)) => {
                *value_reference = previous;
                Ok(())
            },
            Ok(None) => Ok(()),
            Err(err) => Err(err),
        }
    }

    fn list(&self) -> (r: Result<Vec<(String, Lock)>, StorageError>) {
        Ok(self.hash_map.entries())
    }
}

} // verus!
