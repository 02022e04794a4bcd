//! The registry of watchers: the delivery handles of the subscribers that
//! receive every event, each under an id of its own, so that a handle whose
//! consumer has gone away can be dropped.

use vstd::prelude::*;

verus! {

/// Subscribers' delivery handles, in order of subscription, each under a
/// distinct id.
pub struct Watchers<S> {
    entries: Vec<(u64, S)>,
    next_id: u64,
}

/// The ids of `entries`, in order.
pub open spec fn ids_of<S>(entries: Seq<(u64, S)>) -> Seq<u64> {
    entries.map_values(|e: (u64, S)| e.0)
}

/// What is left of `entries` once the subscribers under the ids in `dead`
/// are dropped.
pub open spec fn without_ids<S>(entries: Seq<(u64, S)>, dead: Seq<u64>) -> Seq<(u64, S)> {
    entries.filter(|e: (u64, S)| !dead.contains(e.0))
}

impl<S> Watchers<S> {
    /// The subscribers, in order of subscription.
    pub closed spec fn subscribers(&self) -> Seq<(u64, S)> {
        self.entries@
    }

    /// The registry's internal consistency: ids increase along the list and
    /// stay below the next id to hand out.
    pub closed spec fn wf(&self) -> bool {
        &&& forall|i: int, j: int|
            0 <= i < j < self.entries@.len() ==> #[trigger] self.entries@[i].0
                < #[trigger] self.entries@[j].0
        &&& forall|i: int| 0 <= i < self.entries@.len() ==> #[trigger] self.entries@[i].0 < self.next_id
    }

    /// Whether an id is left to hand out.
    pub closed spec fn ids_left(&self) -> bool {
        self.next_id < u64::MAX
    }

    /// An empty registry.
    pub fn new() -> (r: Self)
        ensures
            r.wf(),
            r.ids_left(),
            r.subscribers() == Seq::<(u64, S)>::empty(),
    {
        Watchers { entries: Vec::new(), next_id: 0 }
    }

    /// Registers `sender` and returns its id, which no other subscriber has;
    /// `None`, with nothing registered, once every id has been handed out.
    pub fn watch(&mut self, sender: S) -> (r: Option<u64>)
        requires
            old(self).wf(),
        ensures
            final(self).wf(),
            r is Some <==> old(self).ids_left(),
            r matches Some(id) ==> final(self).subscribers() == old(self).subscribers().push(
                (id, sender),
            ) && !ids_of(old(self).subscribers()).contains(id),
            r is None ==> final(self).subscribers() == old(self).subscribers(),
    {
        if self.next_id == u64::MAX {
            return None;
        }
        let id = self.next_id;
        self.entries.push((id, sender));
        self.next_id = id + 1;
        proof {
            assert forall|i: int| 0 <= i < old(self).entries@.len() implies #[trigger] ids_of(
                old(self).entries@,
            )[i] != id by {
                assert(old(self).entries@[i].0 < id);
            }
        }
        Some(id)
    }

    /// The subscribers, in order of subscription.
    pub fn entries(&self) -> (r: &Vec<(u64, S)>)
        ensures
            r@ == self.subscribers(),
    {
        &self.entries
    }

    /// The number of subscribers.
    pub fn len(&self) -> (r: usize)
        ensures
            r == self.subscribers().len(),
    {
        self.entries.len()
    }

    /// Drops the subscribers under the ids in `dead`, keeping the others in
    /// order.
    pub fn prune(&mut self, dead: &Vec<u64>)
        requires
            old(self).wf(),
        ensures
            final(self).wf(),
            final(self).subscribers() == without_ids(old(self).subscribers(), dead@),
    {
        let ghost all = self.entries@;
        let ghost keep = |e: (u64, S)| !dead@.contains(e.0);
        let ghost mut done: int = 0;
        let mut i: usize = 0;
        while i < self.entries.len()
            invariant
                all == old(self).entries@,
                keep == (|e: (u64, S)| !dead@.contains(e.0)),
                0 <= done <= all.len(),
                i as int == all.subrange(0, done).filter(keep).len(),
                self.entries@ == all.subrange(0, done).filter(keep) + all.subrange(
                    done,
                    all.len() as int,
                ),
                self.next_id == old(self).next_id,
                self.wf(),
            decreases all.len() - done,
        {
            proof {
                assert(self.entries@[i as int] == all[done]);
            }
            let id = self.entries[i].0;
            assert(id == all[done].0);
            let mut found = false;
            let mut j: usize = 0;
            while j < dead.len()
                invariant
                    0 <= j <= dead@.len(),
                    found == dead@.subrange(0, j as int).contains(id),
                decreases dead@.len() - j,
            {
                if dead[j] == id {
                    found = true;
                }
                j = j + 1;
                proof {
                    let now = dead@.subrange(0, j as int);
                    let before = dead@.subrange(0, j - 1);
                    assert(now =~= before.push(dead@[j - 1]));
                    if before.contains(id) {
                        let k = choose|k: int| 0 <= k < before.len() && before[k] == id;
                        assert(now[k] == id);
                    }
                    if now.contains(id) && now[j - 1] != id {
                        let k = choose|k: int| 0 <= k < now.len() && now[k] == id;
                        assert(before[k] == id);
                    }
                    if dead@[j - 1] == id {
                        assert(now[j - 1] == id);
                    }
                }
            }
            proof {
                assert(dead@.subrange(0, j as int) =~= dead@);
                assert(all.subrange(0, done + 1) =~= all.subrange(0, done).push(all[done]));
                all.subrange(0, done).lemma_filter_push(all[done], keep);
            }
            let ghost before = self.entries@;
            proof {
                assert(all.subrange(done, all.len() as int) =~= seq![all[done]] + all.subrange(
                    done + 1,
                    all.len() as int,
                ));
            }
            if found {
                let _ = self.entries.remove(i);
                proof {
                    assert(self.entries@ =~= all.subrange(0, done).filter(keep) + all.subrange(
                        done + 1,
                        all.len() as int,
                    ));
                }
            } else {
                i = i + 1;
                proof {
                    assert(before =~= all.subrange(0, done).filter(keep).push(all[done])
                        + all.subrange(done + 1, all.len() as int));
                }
            }
            proof {
                let d = done;
                assert(keep(all[d]) == !found);
                assert(all.subrange(0, d + 1).filter(keep) == if found {
                    all.subrange(0, d).filter(keep)
                } else {
                    all.subrange(0, d).filter(keep).push(all[d])
                });
                done = d + 1;
            }
        }
        proof {
            assert(all.subrange(0, all.len() as int) =~= all);
            assert(self.entries@ =~= all.filter(keep));
        }
    }
}

} // verus!
