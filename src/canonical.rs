//! Chain-tip updates: what the pool is told when a block becomes canonical, and the state after.
use vstd::prelude::*;
use crate::config::PoolConfig;
use crate::identifier::{SenderId, id_of};
use crate::primitives::{Address, TxHash};
use crate::state::{
    PoolState, Removal, RemovalReason, SenderState, enforced, reclassified, remove_selected,
};

verus! {

/// A sender whose account changed in the new block.
#[derive(Clone, Copy, Debug)]
pub struct ChangedAccount {
    pub address: Address,
    pub nonce: u64,
    pub balance: u128,
}

/// What the pool learns when a block becomes canonical.
#[derive(Clone, Debug)]
pub struct CanonicalStateUpdate {
    /// The base fee of the next block.
    pub pending_block_base_fee: u64,
    /// Hashes of the transactions the block included.
    pub mined_transactions: Vec<TxHash>,
    /// Senders whose nonce or balance changed.
    pub changed_accounts: Vec<ChangedAccount>,
}

/// `st` with one sender's new state applied: its records below the new nonce are dropped.
/// Senders the pool has never seen are ignored.
pub open spec fn apply_change(st: PoolState, c: ChangedAccount) -> PoolState {
    let sid = id_of(st.addresses, c.address);
    if sid >= 0 {
        remove_selected(
            PoolState { senders: st.senders.update(sid, SenderState { state_nonce: c.nonce, balance: c.balance }), ..st },
            Removal::Stale(sid as SenderId, c.nonce),
            RemovalReason::Discarded,
        )
    } else {
        st
    }
}

/// `st` with the changes applied in order.
pub open spec fn apply_changes(st: PoolState, changes: Seq<ChangedAccount>) -> PoolState
    decreases changes.len(),
{
    if changes.len() == 0 {
        st
    } else {
        apply_change(apply_changes(st, changes.drop_last()), changes.last())
    }
}

/// The state after a canonical update: mined records leave, changed senders' stale records
/// leave, the base fee is set, every record is reclassified and the size limits are enforced.
pub open spec fn canonical_updated(
    st: PoolState,
    cfg: PoolConfig,
    mined: Seq<TxHash>,
    changes: Seq<ChangedAccount>,
    base_fee: u64,
) -> PoolState {
    let s1 = remove_selected(st, Removal::Hashes(mined), RemovalReason::Mined);
    let s2 = apply_changes(s1, changes);
    enforced(reclassified(PoolState { base_fee, ..s2 }, cfg), cfg)
}

/// The state after removing the records with the given hashes.
pub open spec fn removed_by_hash(st: PoolState, cfg: PoolConfig, hashes: Seq<TxHash>) -> PoolState {
    enforced(reclassified(remove_selected(st, Removal::Hashes(hashes), RemovalReason::Discarded), cfg), cfg)
}

/// The state after setting the base fee.
pub open spec fn rebased(st: PoolState, cfg: PoolConfig, base_fee: u64) -> PoolState {
    enforced(reclassified(PoolState { base_fee, ..st }, cfg), cfg)
}

} // verus!
