//! A replicated registry of named locks: the lock state machine, a
//! filter-fronted key/value store, the engine that applies lock actions and
//! emits events, the registry of event watchers, the wire codec of the
//! messages that peers exchange, and the node's configuration.

pub mod cli;
pub mod config;
pub mod event;
pub mod handler;
pub mod lock;
pub mod message;
mod outside;
pub mod storage;
pub mod util;
mod varint;
pub mod watch;
