//! The core of a transaction pool: admission, classification into sub-pools,
//! promotion and demotion on state changes, size-bound eviction and the
//! best-transactions iterator.
pub mod access_list;
pub mod admission;
pub mod best;
pub mod canonical;
pub mod classify;
pub mod config;
pub mod db;
pub mod error;
pub mod eth_wire;
pub mod identifier;
pub mod laws;
pub mod lemmas;
pub mod lookup;
pub mod p2p;
pub mod primitives;
pub mod state;
pub mod transaction;
pub mod txpool;
