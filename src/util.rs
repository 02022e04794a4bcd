//! Small helpers of the node: peer liveness from reported ages, a counter,
//! and the API address of a peer.

use std::collections::HashMap;
use vstd::prelude::*;

verus! {

broadcast use vstd::std_specs::hash::group_hash_axioms;

/// The last age reported for each peer, by peer id.
pub struct PeerAges {
    ages: HashMap<u16, u16>,
}

impl View for PeerAges {
    type V = Map<u16, u16>;

    closed spec fn view(&self) -> Map<u16, u16> {
        self.ages@
    }
}

impl PeerAges {
    /// A table with no peer in it.
    pub fn new() -> (r: PeerAges)
        ensures
            r@ == Map::<u16, u16>::empty(),
    {
        PeerAges { ages: HashMap::new() }
    }
}

/// The status of a peer once `age` is recorded for it, given the age
/// recorded before, if any: 3 for a peer not seen before, 1 when the age grew,
/// 0 when it did not.
pub open spec fn peer_status(previous: Option<u16>, age: u16) -> u32 {
    match previous {
        None => 3,
        Some(p) => if p < age {
            1
        } else {
            0
        },
    }
}

/// Records `age` as the last age of peer `id` and reports the peer's status.
pub fn status_from_age(peers: &mut PeerAges, id: u16, age: u16) -> (r: u32)
    ensures
        final(peers)@ == old(peers)@.insert(id, age),
        r == peer_status(
            if old(peers)@.contains_key(id) {
                Some(old(peers)@[id])
            } else {
                None
            },
            age,
        ),
{
    match peers.ages.insert(id, age) {
        Some(old_age) => {
            if old_age < age {
                1
            } else {
                0
            }
        },
        None => 3,
    }
}

/// Returns the counter's value and advances it by one.
pub fn inc(n: &mut u16) -> (r: u16)
    requires
        *old(n) < u16::MAX,
    ensures
        r == *old(n),
        *final(n) == *old(n) + 1,
{
    let r = *n;
    *n = *n + 1;
    r
}

/// The API address of the peer at `_cluster_addr`. Peers do not announce one
/// yet, so it is always empty.
pub fn api_addr_from_cluster_addr(_cluster_addr: String) -> (r: String)
    ensures
        r@ == Seq::<char>::empty(),
{
    String::new()
}

} // verus!
