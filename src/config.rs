//! The node's configuration, and the settings that the node derives from it.

use crate::storage::{Config, Memory, Storage};
use vstd::prelude::*;

verus! {

/// Where the node listens for its peers, and the peers it joins at start.
pub struct ClusterConfiguration {
    pub address: String,
    pub peers: Vec<String>,
}

/// Where the node serves its API.
pub struct ApiConfiguration {
    pub grpc_address: String,
    pub http_address: String,
}

/// The kind of store, with its options.
pub enum StorageConfiguration {
    Memory(Config),
}

/// A node's whole configuration.
pub struct KustodioConfiguration {
    pub cluster: ClusterConfiguration,
    pub api: ApiConfiguration,
    pub storage: StorageConfiguration,
}

/// Whether a filter can be built with the sizes of `config`: both positive,
/// and the size in bits within range.
pub open spec fn sizes_in_range(config: Config) -> bool {
    0 < config.bitmap_size <= usize::MAX / 8 && config.items_count > 0
}

impl StorageConfiguration {
    /// An empty store as the configuration describes it; `None` when its
    /// sizes are out of range.
    pub fn open(&self) -> (r: Option<Memory>)
        ensures
            match self {
                StorageConfiguration::Memory(config) => r is Some <==> sizes_in_range(*config),
            },
            r matches Some(m) ==> m.wf() && m.entries().dom() == Set::<Seq<char>>::empty(),
    {
        match self {
            StorageConfiguration::Memory(config) => {
                if config.bitmap_size > 0 && config.items_count > 0 && config.bitmap_size
                    <= usize::MAX / 8 {
                    Some(Memory::new(*config))
                } else {
                    None
                }
            },
        }
    }
}

/// The address that the node listens on for peers when none is given.
pub const DEFAULT_CLUSTER_ADDRESS: &'static str = "127.0.0.1:9001";

/// The address to listen on for peers: the one given, or the default.
pub fn cluster_address(address: Option<String>) -> (r: String)
    ensures
        address matches Some(a) ==> r == a,
        address is None ==> r@ == DEFAULT_CLUSTER_ADDRESS@,
{
    match address {
        Some(address) => address,
        None => DEFAULT_CLUSTER_ADDRESS.to_owned(),
    }
}

/// The peers to join at start: none when the list is missing or empty.
pub fn seed_peers(peers: Option<Vec<String>>) -> (r: Option<Vec<String>>)
    ensures
        match peers {
            None => r is None,
            Some(list) => if list@.len() == 0 {
                r is None
            } else {
                r == Some(list)
            },
        },
{
    match peers {
        None => None,
        Some(list) => {
            if list.len() == 0 {
                None
            } else {
                Some(list)
            }
        },
    }
}

} // verus!
