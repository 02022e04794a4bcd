//! The outside collections behind the store: the approximate-membership
//! filter of `bloomfilter` and the hash map of `hashbrown`, each with the
//! contract that its source shows.

use crate::lock::Lock;
use bloomfilter::Bloom;
use vstd::prelude::*;

verus! {

#[verifier::external_type_specification]
#[verifier::external_body]
#[verifier::reject_recursive_types(T)]
pub struct ExBloom<T: ?Sized>(bloomfilter::Bloom<T>);

/// The keys that have been recorded in a filter.
pub uninterp spec fn bloom_members(b: Bloom<String>) -> Set<Seq<char>>;

/// Relies on `bloomfilter::Bloom::new`: a filter with every bit clear, whose
/// hash keys come from the system's random source. It asserts that both sizes
/// are positive and that the size in bits fits in a `u64`.
#[verifier::external_body]
pub(crate) fn bloom_new(bitmap_size: usize, items_count: usize) -> (r: Bloom<String>)
    requires
        bitmap_size > 0,
        items_count > 0,
        bitmap_size <= usize::MAX / 8,
    ensures
        bloom_members(r) == Set::<Seq<char>>::empty(),
{
    Bloom::new(bitmap_size, items_count)
}

/// Relies on `bloomfilter::Bloom::set`: records the key, keeping every key
/// recorded before.
#[verifier::external_body]
pub(crate) fn bloom_set(b: &mut Bloom<String>, key: &String)
    ensures
        bloom_members(*final(b)) == bloom_members(*old(b)).insert(key@),
{
    b.set(key)
}

/// Relies on `bloomfilter::Bloom::check`: true for every recorded key (no
/// false negatives); for another key it may be either.
#[verifier::external_body]
pub(crate) fn bloom_check(b: &Bloom<String>, key: &String) -> (r: bool)
    ensures
        bloom_members(*b).contains(key@) ==> r,
{
    b.check(key)
}

/// A `hashbrown::HashMap` from lock names to locks.
#[verifier::external_body]
pub struct LockTable {
    map: hashbrown::HashMap<String, Lock>,
}

/// What a table holds.
pub uninterp spec fn table_entries(t: LockTable) -> Map<Seq<char>, Lock>;

impl LockTable {
    /// Relies on `hashbrown::HashMap::new`: an empty map.
    #[verifier::external_body]
    pub(crate) fn new() -> (r: LockTable)
        ensures
            table_entries(r).dom() == Set::<Seq<char>>::empty(),
    {
        LockTable { map: hashbrown::HashMap::new() }
    }

    /// Relies on `hashbrown::HashMap::get`: the value under the key, if any.
    #[verifier::external_body]
    pub(crate) fn get(&self, key: &String) -> (r: Option<Lock>)
        ensures
            table_entries(*self).contains_key(key@) ==> r == Some(table_entries(*self)[key@]),
            !table_entries(*self).contains_key(key@) ==> r.is_none(),
    {
        self.map.get(key).copied()
    }

    /// Relies on `hashbrown::HashMap::contains_key`.
    #[verifier::external_body]
    pub(crate) fn contains_key(&self, key: &String) -> (r: bool)
        ensures
            r == table_entries(*self).contains_key(key@),
    {
        self.map.contains_key(key)
    }

    /// Relies on `hashbrown::HashMap::remove`: takes the key out and returns
    /// its value, if it was there.
    #[verifier::external_body]
    pub(crate) fn remove(&mut self, key: &String) -> (r: Option<Lock>)
        ensures
            table_entries(*final(self)) == table_entries(*old(self)).remove(key@),
            table_entries(*old(self)).contains_key(key@) ==> r == Some(
                table_entries(*old(self))[key@],
            ),
            !table_entries(*old(self)).contains_key(key@) ==> r.is_none(),
    {
        self.map.remove(key)
    }

    /// Relies on `hashbrown::HashMap::try_insert`: inserts only under a key
    /// that is not there yet, and otherwise leaves the map as it was.
    #[verifier::external_body]
    pub(crate) fn try_insert(&mut self, key: String, value: Lock) -> (r: bool)
        ensures
            r == !table_entries(*old(self)).contains_key(key@),
            r ==> table_entries(*final(self)) == table_entries(*old(self)).insert(key@, value),
            !r ==> table_entries(*final(self)) == table_entries(*old(self)),
    {
        self.map.try_insert(key, value).is_ok()
    }

    /// Relies on `hashbrown::HashMap::iter`: every entry once, in an order
    /// that the map chooses.
    #[verifier::external_body]
    pub(crate) fn entries(&self) -> (r: Vec<(String, Lock)>)
        ensures
            r@.len() == table_entries(*self).len(),
            forall|i: int|
                0 <= i < r@.len() ==> #[trigger] table_entries(*self).contains_key(r@[i].0@)
                    && table_entries(*self)[r@[i].0@] == r@[i].1,
            forall|i: int, j: int|
                0 <= i < j < r@.len() ==> #[trigger] r@[i].0@ != #[trigger] r@[j].0@,
    {
        self.map.iter().map(|(k, v)| (k.clone(), *v)).collect()
    }
}

} // verus!
