//! Snapshot-based state recovery: a node bootstraps its storage tables and
//! its Merkle tree from a chunked snapshot instead of replaying history.
pub mod applier;
pub mod consensus;
pub mod error;
pub mod fee;
pub mod progress;
pub mod snapshot;
pub mod store;
pub mod tree;
