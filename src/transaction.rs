//! Transactions as the pool sees them, and the records it keeps of them.
use vstd::prelude::*;
use crate::identifier::TransactionId;
use crate::primitives::{Address, TxHash};

verus! {

/// Where a transaction came from.
#[derive(Clone, Copy, Debug, PartialEq, Eq, Structural)]
pub enum TransactionOrigin {
    /// Submitted by a user of this node.
    Local,
    /// Received from a peer.
    External,
    /// Submitted locally and never to be gossiped.
    Private,
}

impl TransactionOrigin {
    pub fn is_local(&self) -> (r: bool)
        ensures
            r == (*self == TransactionOrigin::Local),
    {
        matches!(self, TransactionOrigin::Local)
    }
}

/// The fields of a signed, validated transaction that the pool reads.
#[derive(Clone, Copy, Debug)]
pub struct PoolTransaction {
    pub hash: TxHash,
    pub sender: Address,
    pub nonce: u64,
    pub gas_limit: u64,
    /// Fee cap: the most the transaction pays per unit of gas.
    pub max_fee_per_gas: u64,
    /// The most the transaction pays per unit of gas above the base fee.
    pub max_priority_fee_per_gas: u64,
    pub value: u128,
    /// Encoded length in bytes.
    pub size: u64,
}

/// The most balance a transaction can consume: `gas_limit * fee_cap + value`.
pub open spec fn spec_cost(tx: PoolTransaction) -> int {
    tx.gas_limit * tx.max_fee_per_gas + tx.value
}

/// The cost of a transaction, or `None` where it does not fit in 128 bits
/// (and so exceeds every balance).
pub fn cost(tx: &PoolTransaction) -> (r: Option<u128>)
    ensures
        r == (if spec_cost(*tx) <= u128::MAX {
            Some(spec_cost(*tx) as u128)
        } else {
            None::<u128>
        }),
{
    let gas = tx.gas_limit as u128;
    let fee = tx.max_fee_per_gas as u128;
    proof {
        assert(gas * fee <= 0xffff_ffff_ffff_ffffu128 * 0xffff_ffff_ffff_ffffu128) by (nonlinear_arith)
            requires
                gas <= 0xffff_ffff_ffff_ffffu128,
                fee <= 0xffff_ffff_ffff_ffffu128,
        ;
    }
    let fee_total = gas * fee;
    fee_total.checked_add(tx.value)
}

/// The tip per unit of gas that a transaction pays at the given base fee:
/// `min(fee_cap - base_fee, priority_fee_cap)`, and zero where the fee cap is below the base fee.
pub open spec fn spec_effective_tip(tx: PoolTransaction, base_fee: u64) -> u64 {
    if tx.max_fee_per_gas < base_fee {
        0
    } else if tx.max_fee_per_gas - base_fee < tx.max_priority_fee_per_gas {
        (tx.max_fee_per_gas - base_fee) as u64
    } else {
        tx.max_priority_fee_per_gas
    }
}

/// The ordering score of a transaction: its effective tip at the base fee.
pub fn effective_tip_per_gas(tx: &PoolTransaction, base_fee: u64) -> (r: u64)
    ensures
        r == spec_effective_tip(*tx, base_fee),
{
    if tx.max_fee_per_gas < base_fee {
        0
    } else if tx.max_fee_per_gas - base_fee < tx.max_priority_fee_per_gas {
        tx.max_fee_per_gas - base_fee
    } else {
        tx.max_priority_fee_per_gas
    }
}

/// A transaction admitted to the pool, with what the pool computed of it on admission.
///
/// Records are never changed after admission; only the sub-pool that holds them does.
#[derive(Clone, Copy, Debug)]
pub struct ValidPoolTransaction {
    pub transaction: PoolTransaction,
    pub transaction_id: TransactionId,
    /// `gas_limit * fee_cap + value`.
    pub cost: u128,
    /// The ordering score; higher is better.
    pub priority: u64,
    /// Whether the transaction may be gossiped to peers.
    pub propagate: bool,
    pub origin: TransactionOrigin,
    /// Admission order: ties in priority go to the earlier record.
    pub timestamp: u64,
}

impl ValidPoolTransaction {
    pub fn hash(&self) -> (r: TxHash)
        ensures
            r == self.transaction.hash,
    {
        self.transaction.hash
    }

    pub fn nonce(&self) -> (r: u64)
        ensures
            r == self.transaction_id.nonce,
    {
        self.transaction_id.nonce
    }

    pub fn size(&self) -> (r: u64)
        ensures
            r == self.transaction.size,
    {
        self.transaction.size
    }
}

/// Whether record `a` ranks above record `b`: higher priority, then earlier admission.
pub open spec fn ranks_above(a: ValidPoolTransaction, b: ValidPoolTransaction) -> bool {
    a.priority > b.priority || (a.priority == b.priority && a.timestamp < b.timestamp)
}

pub fn is_ranked_above(a: &ValidPoolTransaction, b: &ValidPoolTransaction) -> (r: bool)
    ensures
        r == ranks_above(*a, *b),
{
    a.priority > b.priority || (a.priority == b.priority && a.timestamp < b.timestamp)
}

} // verus!
