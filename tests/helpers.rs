use kustodio::cli::{get_lock_or_fail, CliError, ClientArgs, ClientCommands};
use kustodio::config::{cluster_address, seed_peers, StorageConfiguration, DEFAULT_CLUSTER_ADDRESS};
use kustodio::storage::{Config, Storage};
use kustodio::util::{api_addr_from_cluster_addr, inc, status_from_age, PeerAges};
use kustodio::watch::Watchers;

#[test]
fn peer_status_follows_ages() {
    let mut ages = PeerAges::new();
    assert_eq!(status_from_age(&mut ages, 7, 10), 3);
    assert_eq!(status_from_age(&mut ages, 7, 12), 1);
    assert_eq!(status_from_age(&mut ages, 7, 12), 0);
    assert_eq!(status_from_age(&mut ages, 7, 3), 0);
    assert_eq!(status_from_age(&mut ages, 8, 3), 3);
}

#[test]
fn inc_returns_previous_value() {
    let mut n: u16 = 41;
    assert_eq!(inc(&mut n), 41);
    assert_eq!(n, 42);
}

#[test]
fn api_address_is_empty() {
    assert_eq!(api_addr_from_cluster_addr("10.0.0.1:9001".to_string()), "");
}

#[test]
fn cluster_address_defaults() {
    assert_eq!(cluster_address(None), "127.0.0.1:9001");
    assert_eq!(DEFAULT_CLUSTER_ADDRESS, "127.0.0.1:9001");
    assert_eq!(cluster_address(Some("0.0.0.0:1".to_string())), "0.0.0.0:1");
}

#[test]
fn seed_peers_drops_empty_lists() {
    assert_eq!(seed_peers(None), None);
    assert_eq!(seed_peers(Some(vec![])), None);
    let peers = vec!["a:1".to_string(), "b:2".to_string()];
    assert_eq!(seed_peers(Some(peers.clone())), Some(peers));
}

#[test]
fn storage_configuration_checks_sizes() {
    let ok = StorageConfiguration::Memory(Config { bitmap_size: 10, items_count: 5 });
    let store = ok.open().unwrap();
    assert!(!store.probe("a".to_string()));
    let zero_bits = StorageConfiguration::Memory(Config { bitmap_size: 0, items_count: 5 });
    assert!(zero_bits.open().is_none());
    let zero_items = StorageConfiguration::Memory(Config { bitmap_size: 10, items_count: 0 });
    assert!(zero_items.open().is_none());
    let huge = StorageConfiguration::Memory(Config { bitmap_size: usize::MAX, items_count: 1 });
    assert!(huge.open().is_none());
}

#[test]
fn client_command_needs_a_lock() {
    let with = ClientCommands {
        server: "http://127.0.0.1:50051".to_string(),
        command: ClientArgs::Lock,
        lock: Some("x".to_string()),
    };
    assert_eq!(get_lock_or_fail(&with), Ok("x".to_string()));
    let without = ClientCommands {
        server: "http://127.0.0.1:50051".to_string(),
        command: ClientArgs::State,
        lock: None,
    };
    assert_eq!(get_lock_or_fail(&without), Err(CliError::NoLockSpecified));
    assert_eq!(CliError::NoLockSpecified.message(), "No lock specified");
}

#[test]
fn watchers_get_distinct_ids_and_prune_keeps_order() {
    let mut w: Watchers<&str> = Watchers::new();
    let a = w.watch("a").unwrap();
    let b = w.watch("b").unwrap();
    let c = w.watch("c").unwrap();
    assert!(a != b && b != c && a != c);
    assert_eq!(w.len(), 3);
    w.prune(&vec![b, 999]);
    assert_eq!(w.entries().clone(), vec![(a, "a"), (c, "c")]);
    let d = w.watch("d").unwrap();
    assert!(d != a && d != b && d != c);
    w.prune(&vec![]);
    assert_eq!(w.len(), 3);
    w.prune(&vec![a, c, d]);
    assert_eq!(w.len(), 0);
}
