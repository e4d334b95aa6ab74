//! Pool settings.
use vstd::prelude::*;

verus! {

/// Default bound on the number of transactions in each sub-pool.
pub const SUBPOOL_MAX_COUNT_DEFAULT: usize = 10_000;

/// Default bound on the encoded size of all held transactions, in bytes.
pub const MAX_BYTES_DEFAULT: u64 = 20_000_000;

/// Default replacement bump, in percent.
pub const REPLACEMENT_BUMP_DEFAULT: u32 = 10;

/// Default bound on how far a nonce may run ahead of the sender's state nonce.
pub const GAP_LIMIT_DEFAULT: u64 = 16;

/// Settings that the enclosing node hands the pool at construction.
#[derive(Clone, Copy, Debug)]
pub struct PoolConfig {
    /// Bound on the number of held transactions.
    pub max_count: usize,
    /// Bound on the encoded size of all held transactions.
    pub max_bytes: u64,
    pub pending_max_count: usize,
    pub basefee_max_count: usize,
    pub queued_max_count: usize,
    /// How much, in percent, a replacement's priority must exceed the replaced one's.
    pub replacement_bump: u32,
    /// The replacement bump for local transactions.
    pub price_bump_local: u32,
    /// Bound on `nonce - state_nonce` of an admitted transaction.
    pub gap_limit: u64,
    /// A transaction whose priority fee cap is below this stays parked whatever the base fee;
    /// one whose fee cap is below it is refused.
    pub minimum_priority_fee: u64,
}

impl Default for PoolConfig {
    fn default() -> (r: PoolConfig)
        ensures
            r.max_count == 3 * SUBPOOL_MAX_COUNT_DEFAULT,
            r.max_bytes == MAX_BYTES_DEFAULT,
            r.pending_max_count == SUBPOOL_MAX_COUNT_DEFAULT,
            r.basefee_max_count == SUBPOOL_MAX_COUNT_DEFAULT,
            r.queued_max_count == SUBPOOL_MAX_COUNT_DEFAULT,
            r.replacement_bump == REPLACEMENT_BUMP_DEFAULT,
            r.price_bump_local == 0,
            r.gap_limit == GAP_LIMIT_DEFAULT,
            r.minimum_priority_fee == 0,
    {
        PoolConfig {
            max_count: 3 * SUBPOOL_MAX_COUNT_DEFAULT,
            max_bytes: MAX_BYTES_DEFAULT,
            pending_max_count: SUBPOOL_MAX_COUNT_DEFAULT,
            basefee_max_count: SUBPOOL_MAX_COUNT_DEFAULT,
            queued_max_count: SUBPOOL_MAX_COUNT_DEFAULT,
            replacement_bump: REPLACEMENT_BUMP_DEFAULT,
            price_bump_local: 0,
            gap_limit: GAP_LIMIT_DEFAULT,
            minimum_priority_fee: 0,
        }
    }
}

} // verus!
