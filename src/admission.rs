//! The rules of admission: which error a transaction meets, and the state after it is admitted.
use vstd::prelude::*;
use crate::config::PoolConfig;
use crate::error::{PoolError, TransactionValidationOutcome};
use crate::identifier::{SenderId, TransactionId, id_of};
use crate::primitives::TxHash;
use crate::state::{
    PoolEntry, PoolEvent, PoolState, Removal, RemovalReason, SenderState, classify, cost_in,
    enforced, evicted, has_hash, has_id, reclassified, records, remove_selected, total_size,
};
use crate::transaction::{
    PoolTransaction, TransactionOrigin, ValidPoolTransaction, spec_cost, spec_effective_tip,
};

verus! {

/// Whether a replacement's priority exceeds the replaced one's by more than `bump` percent.
pub open spec fn replacement_ok(old_priority: u64, new_priority: u64, bump: u32) -> bool {
    new_priority * 100 > old_priority * (100 + bump)
}

/// The replacement bump that applies to a transaction of this origin.
pub open spec fn bump_for(cfg: PoolConfig, origin: TransactionOrigin) -> u32 {
    if origin == TransactionOrigin::Local {
        cfg.price_bump_local
    } else {
        cfg.replacement_bump
    }
}

/// The summed cost of the held records of the transaction's sender with nonces in
/// `[state_nonce, tx.nonce)`.
pub open spec fn prior_cost(st: PoolState, tx: PoolTransaction, state_nonce: u64) -> int {
    let sid = id_of(st.addresses, tx.sender);
    if sid >= 0 {
        cost_in(records(st.entries), sid as SenderId, state_nonce as int, tx.nonce as int)
    } else {
        0
    }
}

/// The id that the transaction gets: its sender's id, or the next one, and its nonce.
pub open spec fn new_id(st: PoolState, tx: PoolTransaction) -> TransactionId {
    let sid = id_of(st.addresses, tx.sender);
    TransactionId {
        sender: if sid >= 0 { sid as SenderId } else { st.addresses.len() as SenderId },
        nonce: tx.nonce,
    }
}

/// Whether a record with the transaction's id is held.
pub open spec fn replaces(st: PoolState, tx: PoolTransaction) -> bool {
    id_of(st.addresses, tx.sender) >= 0 && has_id(st.entries, new_id(st, tx))
}

/// The held record with the transaction's id.
pub open spec fn replaced_record(st: PoolState, tx: PoolTransaction) -> ValidPoolTransaction {
    let j = choose|j: int|
        0 <= j < st.entries.len() && (#[trigger] st.entries[j]).transaction.transaction_id == new_id(st, tx);
    st.entries[j].transaction
}

/// Whether the pool is at a global bound, counting the transaction's size.
pub open spec fn is_full(st: PoolState, cfg: PoolConfig, tx: PoolTransaction) -> bool {
    st.entries.len() >= cfg.max_count || total_size(st.entries) + tx.size > cfg.max_bytes
}

/// Whether the pool holds something and everything it holds has a priority above `priority`.
pub open spec fn all_rank_above(es: Seq<PoolEntry>, priority: u64) -> bool {
    es.len() > 0 && forall|i: int| 0 <= i < es.len() ==> (#[trigger] es[i]).transaction.priority > priority
}

/// The error that refuses a validated transaction, checked in this order, or `None`.
pub open spec fn admission_error(
    st: PoolState,
    cfg: PoolConfig,
    origin: TransactionOrigin,
    tx: PoolTransaction,
    state_nonce: u64,
    balance: u128,
) -> Option<PoolError> {
    let priority = spec_effective_tip(tx, st.base_fee);
    if has_hash(st.entries, tx.hash) {
        Some(PoolError::AlreadyKnown)
    } else if tx.nonce < state_nonce {
        Some(PoolError::NonceTooLow)
    } else if tx.nonce - state_nonce > cfg.gap_limit {
        Some(PoolError::NonceGapTooLarge)
    } else if tx.max_fee_per_gas < cfg.minimum_priority_fee {
        Some(PoolError::FeeCapBelowMinimum)
    } else if prior_cost(st, tx, state_nonce) + spec_cost(tx) > balance {
        Some(PoolError::InsufficientFunds)
    } else if replaces(st, tx) {
        if replacement_ok(replaced_record(st, tx).priority, priority, bump_for(cfg, origin)) {
            None
        } else {
            Some(PoolError::ReplacementUnderpriced)
        }
    } else if is_full(st, cfg, tx) && all_rank_above(st.entries, priority) {
        Some(PoolError::PoolFull)
    } else {
        None
    }
}

/// The record made of an admitted transaction.
pub open spec fn new_record(st: PoolState, origin: TransactionOrigin, tx: PoolTransaction) -> ValidPoolTransaction {
    ValidPoolTransaction {
        transaction: tx,
        transaction_id: new_id(st, tx),
        cost: spec_cost(tx) as u128,
        priority: spec_effective_tip(tx, st.base_fee),
        propagate: origin != TransactionOrigin::Private,
        origin,
        timestamp: st.next_timestamp,
    }
}

/// `st` with the sender's state set, its id handed out if it had none.
pub open spec fn with_sender(st: PoolState, tx: PoolTransaction, state_nonce: u64, balance: u128) -> PoolState {
    let sid = id_of(st.addresses, tx.sender);
    let s = SenderState { state_nonce, balance };
    if sid >= 0 {
        PoolState { senders: st.senders.update(sid, s), ..st }
    } else {
        PoolState { addresses: st.addresses.push(tx.sender), senders: st.senders.push(s), ..st }
    }
}

/// The state after admitting: the sender's state is set, its records below the state nonce
/// are dropped, a record with the same id is replaced, the new record joins the sub-pool it
/// belongs in, and every entry is reclassified.
pub open spec fn admitted(
    st: PoolState,
    cfg: PoolConfig,
    origin: TransactionOrigin,
    tx: PoolTransaction,
    state_nonce: u64,
    balance: u128,
) -> PoolState {
    let id = new_id(st, tx);
    let st1 = with_sender(st, tx, state_nonce, balance);
    let st2 = remove_selected(st1, Removal::Stale(id.sender, state_nonce), RemovalReason::Discarded);
    let st3 = remove_selected(st2, Removal::Id(id), RemovalReason::Replaced(tx.hash));
    let rec = new_record(st, origin, tx);
    let tag = classify(records(st3.entries).push(rec), st3.senders, st3.base_fee, cfg.minimum_priority_fee, rec);
    let st4 = PoolState {
        entries: st3.entries.push(PoolEntry { transaction: rec, subpool: tag }),
        next_timestamp: if st.next_timestamp < u64::MAX { (st.next_timestamp + 1) as u64 } else { st.next_timestamp },
        events: st3.events.push(PoolEvent::Added(rec, tag)),
        ..st3
    };
    reclassified(st4, cfg)
}

/// The outcome of handing the pool one validation outcome, before the size limits apply.
pub open spec fn spec_add_unenforced(
    st: PoolState,
    cfg: PoolConfig,
    origin: TransactionOrigin,
    outcome: TransactionValidationOutcome,
) -> (PoolState, Result<TxHash, PoolError>) {
    match outcome {
        TransactionValidationOutcome::Invalid(tx, err) => (
            PoolState { events: st.events.push(PoolEvent::Invalid(tx.hash)), ..st },
            Err(PoolError::Invalid(err)),
        ),
        TransactionValidationOutcome::Valid { balance, state_nonce, transaction } => {
            match admission_error(st, cfg, origin, transaction, state_nonce, balance) {
                Some(e) => (st, Err(e)),
                None => (admitted(st, cfg, origin, transaction, state_nonce, balance), Ok(transaction.hash)),
            }
        },
    }
}

/// The outcome of handing the pool one validation outcome: on admission the size limits
/// are enforced, and a transaction that they evict is reported as discarded on insert.
pub open spec fn spec_add(
    st: PoolState,
    cfg: PoolConfig,
    origin: TransactionOrigin,
    outcome: TransactionValidationOutcome,
) -> (PoolState, Result<TxHash, PoolError>) {
    let (s1, r) = spec_add_unenforced(st, cfg, origin, outcome);
    match r {
        Ok(h) => {
            let s2 = enforced(s1, cfg);
            (s2, if has_hash(s2.entries, h) { Ok(h) } else { Err(PoolError::DiscardedOnInsert(h)) })
        },
        Err(e) => (s1, Err(e)),
    }
}


/// The outcomes handed over one after another, before the size limits apply.
pub open spec fn spec_add_all(
    st: PoolState,
    cfg: PoolConfig,
    origin: TransactionOrigin,
    outcomes: Seq<TransactionValidationOutcome>,
) -> (PoolState, Seq<Result<TxHash, PoolError>>)
    decreases outcomes.len(),
{
    if outcomes.len() == 0 {
        (st, Seq::empty())
    } else {
        let (s1, rs) = spec_add_all(st, cfg, origin, outcomes.drop_last());
        let (s2, r) = spec_add_unenforced(s1, cfg, origin, outcomes.last());
        (s2, rs.push(r))
    }
}

/// A success for a transaction that the size limits evicted becomes `DiscardedOnInsert`.
pub open spec fn rewrite_discarded(r: Result<TxHash, PoolError>, gone: Seq<TxHash>) -> Result<TxHash, PoolError> {
    match r {
        Ok(h) => if gone.contains(h) {
            Err(PoolError::DiscardedOnInsert(h))
        } else {
            Ok(h)
        },
        Err(e) => Err(e),
    }
}

pub open spec fn any_ok(rs: Seq<Result<TxHash, PoolError>>) -> bool {
    exists|i: int| 0 <= i < rs.len() && (#[trigger] rs[i]).is_ok()
}

/// The outcome of handing the pool a batch: each is added in turn, and if any was admitted the
/// size limits are enforced once at the end.
pub open spec fn spec_add_batch(
    st: PoolState,
    cfg: PoolConfig,
    origin: TransactionOrigin,
    outcomes: Seq<TransactionValidationOutcome>,
) -> (PoolState, Seq<Result<TxHash, PoolError>>) {
    let (s1, rs) = spec_add_all(st, cfg, origin, outcomes);
    if any_ok(rs) {
        let gone = evicted(s1, cfg);
        (enforced(s1, cfg), Seq::new(rs.len(), |i: int| rewrite_discarded(rs[i], gone)))
    } else {
        (s1, rs)
    }
}

} // verus!
