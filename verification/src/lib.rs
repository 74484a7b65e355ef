//! Deterministic, merkleized key-value storage core for a ledger node.
//!
//! The crate ties together a fixed-rule binary codec, hierarchical string
//! keys, a pluggable persistence backend and a pluggable hasher into a
//! generic storage engine with typed reads and writes, prefix iteration,
//! and commit-to-root bookkeeping, together with the governance parameter
//! module as the canonical storage consumer and the node configuration
//! settings the engine is opened from.

pub mod backend;
pub mod codec;
pub mod config;
pub mod engine;
pub mod gov;
pub mod hash;
pub mod key;
pub mod token;
