//! The mathematical model of the pool: its state, how a record is classified
//! into a sub-pool, and the state transformations that the operations compose.
use vstd::prelude::*;
use crate::config::PoolConfig;
use crate::identifier::{SenderId, TransactionId};
use crate::primitives::{Address, TxHash};
use crate::transaction::{PoolTransaction, ValidPoolTransaction, ranks_above};

verus! {

/// The three disjoint parts of the pool.
#[derive(Clone, Copy, Debug, PartialEq, Eq, Structural)]
pub enum SubPool {
    /// Executable now.
    Pending,
    /// Gapless and affordable, but it (or one before it) cannot pay the base fee or the
    /// minimum priority fee.
    BaseFee,
    /// Behind a nonce gap, or not covered by the sender's balance.
    Queued,
}

/// What the pool last learned of a sender's account.
#[derive(Clone, Copy, Debug)]
pub struct SenderState {
    pub state_nonce: u64,
    pub balance: u128,
}

/// A held record together with the sub-pool that holds it.
#[derive(Clone, Copy, Debug)]
pub struct PoolEntry {
    pub transaction: ValidPoolTransaction,
    pub subpool: SubPool,
}

/// What listeners are told.
#[derive(Clone, Copy, Debug)]
pub enum PoolEvent {
    /// A transaction was admitted into the given sub-pool.
    Added(ValidPoolTransaction, SubPool),
    /// A held transaction moved to the given sub-pool.
    Moved(TxHash, SubPool),
    /// The first transaction was replaced by the second.
    Replaced(TxHash, TxHash),
    /// The transaction was included in a block.
    Mined(TxHash),
    /// The transaction was dropped from the pool.
    Discarded(TxHash),
    /// The validator refused the transaction.
    Invalid(TxHash),
}

/// Why records leave the pool, which decides the event they fire.
#[derive(Clone, Copy, Debug)]
pub enum RemovalReason {
    Mined,
    Discarded,
    /// Replaced by the transaction with this hash.
    Replaced(TxHash),
}

/// Which records a removal takes.
pub enum Selector {
    /// The records with one of these hashes.
    Hashes(Vec<TxHash>),
    /// The records of this sender with a nonce below this one.
    Stale(SenderId, u64),
    /// The record with this id.
    Id(TransactionId),
}

/// The view of a selector.
pub enum Removal {
    Hashes(Seq<TxHash>),
    Stale(SenderId, u64),
    Id(TransactionId),
}

impl View for Selector {
    type V = Removal;

    open spec fn view(&self) -> Removal {
        match self {
            Selector::Hashes(v) => Removal::Hashes(v@),
            Selector::Stale(s, n) => Removal::Stale(*s, *n),
            Selector::Id(id) => Removal::Id(*id),
        }
    }
}

/// The abstract state of a pool.
pub struct PoolState {
    /// Sender addresses; the id of a sender is its position.
    pub addresses: Seq<Address>,
    /// Account state of each sender, by id.
    pub senders: Seq<SenderState>,
    /// The held records and their sub-pools.
    pub entries: Seq<PoolEntry>,
    pub base_fee: u64,
    /// The timestamp that the next admitted record gets.
    pub next_timestamp: u64,
    /// Everything listeners were told, oldest first.
    pub events: Seq<PoolEvent>,
}

pub open spec fn records(es: Seq<PoolEntry>) -> Seq<ValidPoolTransaction> {
    es.map_values(|e: PoolEntry| e.transaction)
}

/// Whether a record of sender `s` with nonce `k` is held.
pub open spec fn has_nonce(recs: Seq<ValidPoolTransaction>, s: SenderId, k: int) -> bool {
    exists|j: int|
        0 <= j < recs.len() && (#[trigger] recs[j]).transaction_id.sender == s
            && recs[j].transaction_id.nonce == k
}

/// Whether every nonce of sender `s` in `[lo, hi)` is held.
pub open spec fn gapless(recs: Seq<ValidPoolTransaction>, s: SenderId, lo: int, hi: int) -> bool {
    forall|k: int| lo <= k < hi ==> #[trigger] has_nonce(recs, s, k)
}

/// Whether record `r` belongs to sender `s` and has a nonce in `[lo, hi)`.
pub open spec fn in_range(r: ValidPoolTransaction, s: SenderId, lo: int, hi: int) -> bool {
    r.transaction_id.sender == s && lo <= r.transaction_id.nonce < hi
}

/// The summed cost of the records of sender `s` with a nonce in `[lo, hi)`.
pub open spec fn cost_in(recs: Seq<ValidPoolTransaction>, s: SenderId, lo: int, hi: int) -> int
    decreases recs.len(),
{
    if recs.len() == 0 {
        0
    } else {
        cost_in(recs.drop_last(), s, lo, hi) + if in_range(recs.last(), s, lo, hi) {
            recs.last().cost as int
        } else {
            0
        }
    }
}

/// Whether a transaction can pay the base fee and the minimum priority fee.
pub open spec fn fee_ok(tx: PoolTransaction, base_fee: u64, min_tip: u64) -> bool {
    tx.max_fee_per_gas >= base_fee && tx.max_priority_fee_per_gas >= min_tip
}

/// Whether every record of sender `s` with a nonce in `[lo, hi)` can pay the fees.
pub open spec fn fees_ok_in(
    recs: Seq<ValidPoolTransaction>,
    s: SenderId,
    lo: int,
    hi: int,
    base_fee: u64,
    min_tip: u64,
) -> bool {
    forall|j: int|
        0 <= j < recs.len() && in_range(#[trigger] recs[j], s, lo, hi) ==> fee_ok(
            recs[j].transaction,
            base_fee,
            min_tip,
        )
}

/// The sub-pool that record `r` belongs in, given the held records, the sender states and the fees.
///
/// With `n` the sender's state nonce and `m` the record's nonce: Queued unless every nonce
/// of `[n, m)` is held and the costs of `[n, m]` fit the balance; else BaseFee unless all of
/// `[n, m]` pay the fees; else Pending.
pub open spec fn classify(
    recs: Seq<ValidPoolTransaction>,
    senders: Seq<SenderState>,
    base_fee: u64,
    min_tip: u64,
    r: ValidPoolTransaction,
) -> SubPool {
    let s = r.transaction_id.sender;
    let n = senders[s as int].state_nonce as int;
    let m = r.transaction_id.nonce as int;
    if !gapless(recs, s, n, m) || cost_in(recs, s, n, m + 1) > senders[s as int].balance {
        SubPool::Queued
    } else if !fees_ok_in(recs, s, n, m + 1, base_fee, min_tip) {
        SubPool::BaseFee
    } else {
        SubPool::Pending
    }
}

/// The sub-pool that `r` belongs in within `st`.
pub open spec fn tag_of(st: PoolState, cfg: PoolConfig, r: ValidPoolTransaction) -> SubPool {
    classify(records(st.entries), st.senders, st.base_fee, cfg.minimum_priority_fee, r)
}

/// Whether every entry's sub-pool is the one it belongs in.
pub open spec fn classified(st: PoolState, cfg: PoolConfig) -> bool {
    forall|i: int|
        0 <= i < st.entries.len() ==> (#[trigger] st.entries[i]).subpool == tag_of(
            st,
            cfg,
            st.entries[i].transaction,
        )
}

pub open spec fn unique_ids(es: Seq<PoolEntry>) -> bool {
    forall|i: int, j: int|
        0 <= i < es.len() && 0 <= j < es.len() && i != j
            ==> (#[trigger] es[i]).transaction.transaction_id != (#[trigger] es[j]).transaction.transaction_id
}

pub open spec fn unique_hashes(es: Seq<PoolEntry>) -> bool {
    forall|i: int, j: int|
        0 <= i < es.len() && 0 <= j < es.len() && i != j
            ==> (#[trigger] es[i]).transaction.transaction.hash != (#[trigger] es[j]).transaction.transaction.hash
}

/// Each record's id agrees with its transaction, its sender is known, and its nonce is not
/// below the sender's state nonce.
pub open spec fn entry_ok(st: PoolState, e: PoolEntry) -> bool {
    let r = e.transaction;
    &&& r.transaction_id.nonce == r.transaction.nonce
    &&& r.transaction_id.sender < st.senders.len()
    &&& r.transaction_id.nonce >= st.senders[r.transaction_id.sender as int].state_nonce
}

/// The pool's structural invariant, without the classification and the size limits.
pub open spec fn sound(st: PoolState) -> bool {
    &&& st.senders.len() == st.addresses.len()
    &&& st.addresses.len() <= usize::MAX
    &&& forall|i: int| 0 <= i < st.entries.len() ==> entry_ok(st, #[trigger] st.entries[i])
    &&& unique_ids(st.entries)
    &&& unique_hashes(st.entries)
}

/// The pool's structural invariant, without the size limits.
pub open spec fn wf_core(st: PoolState, cfg: PoolConfig) -> bool {
    sound(st) && classified(st, cfg)
}

// ---------------------------------------------------------------- sizes

pub open spec fn count_in(es: Seq<PoolEntry>, tag: SubPool) -> nat
    decreases es.len(),
{
    if es.len() == 0 {
        0
    } else {
        count_in(es.drop_last(), tag) + if es.last().subpool == tag {
            1nat
        } else {
            0nat
        }
    }
}

pub open spec fn total_size(es: Seq<PoolEntry>) -> nat
    decreases es.len(),
{
    if es.len() == 0 {
        0
    } else {
        total_size(es.drop_last()) + (es.last().transaction.transaction.size as nat)
    }
}

/// Whether the pool respects every bound of the configuration.
pub open spec fn within_limits(st: PoolState, cfg: PoolConfig) -> bool {
    &&& st.entries.len() <= cfg.max_count
    &&& total_size(st.entries) <= cfg.max_bytes
    &&& count_in(st.entries, SubPool::Pending) <= cfg.pending_max_count
    &&& count_in(st.entries, SubPool::BaseFee) <= cfg.basefee_max_count
    &&& count_in(st.entries, SubPool::Queued) <= cfg.queued_max_count
}

/// The pool's invariant.
pub open spec fn wf(st: PoolState, cfg: PoolConfig) -> bool {
    wf_core(st, cfg) && within_limits(st, cfg)
}

// ---------------------------------------------------------------- lookup

pub open spec fn has_hash(es: Seq<PoolEntry>, h: TxHash) -> bool {
    exists|i: int| 0 <= i < es.len() && (#[trigger] es[i]).transaction.transaction.hash == h
}

pub open spec fn has_id(es: Seq<PoolEntry>, id: TransactionId) -> bool {
    exists|i: int| 0 <= i < es.len() && (#[trigger] es[i]).transaction.transaction_id == id
}

// ---------------------------------------------------------------- removal

/// The view of a selector: which entries it takes.
pub open spec fn selects(sel: Removal, e: PoolEntry) -> bool {
    match sel {
        Removal::Hashes(v) => v.contains(e.transaction.transaction.hash),
        Removal::Stale(s, n) => e.transaction.transaction_id.sender == s
            && e.transaction.transaction_id.nonce < n,
        Removal::Id(id) => e.transaction.transaction_id == id,
    }
}

pub open spec fn removal_event(reason: RemovalReason, h: TxHash) -> PoolEvent {
    match reason {
        RemovalReason::Mined => PoolEvent::Mined(h),
        RemovalReason::Discarded => PoolEvent::Discarded(h),
        RemovalReason::Replaced(by) => PoolEvent::Replaced(h, by),
    }
}

/// The entries that `sel` does not take, in order.
pub open spec fn retained(es: Seq<PoolEntry>, sel: Removal) -> Seq<PoolEntry>
    decreases es.len(),
{
    if es.len() == 0 {
        es
    } else if selects(sel, es.last()) {
        retained(es.drop_last(), sel)
    } else {
        retained(es.drop_last(), sel).push(es.last())
    }
}

/// The events for the entries that `sel` takes, in order.
pub open spec fn removal_events(es: Seq<PoolEntry>, sel: Removal, reason: RemovalReason) -> Seq<
    PoolEvent,
>
    decreases es.len(),
{
    if es.len() == 0 {
        Seq::empty()
    } else if selects(sel, es.last()) {
        removal_events(es.drop_last(), sel, reason).push(
            removal_event(reason, es.last().transaction.transaction.hash),
        )
    } else {
        removal_events(es.drop_last(), sel, reason)
    }
}

/// The records that `sel` takes, in order.
pub open spec fn removed(es: Seq<PoolEntry>, sel: Removal) -> Seq<ValidPoolTransaction>
    decreases es.len(),
{
    if es.len() == 0 {
        Seq::empty()
    } else if selects(sel, es.last()) {
        removed(es.drop_last(), sel).push(es.last().transaction)
    } else {
        removed(es.drop_last(), sel)
    }
}

/// `st` without the entries that `sel` takes, with an event for each.
pub open spec fn remove_selected(st: PoolState, sel: Removal, reason: RemovalReason) -> PoolState {
    PoolState {
        entries: retained(st.entries, sel),
        events: st.events + removal_events(st.entries, sel, reason),
        ..st
    }
}

// ---------------------------------------------------------------- reclassification

/// The events for the first `k` entries whose sub-pool is not the one they belong in.
pub open spec fn moved_events(st: PoolState, cfg: PoolConfig, k: int) -> Seq<PoolEvent>
    decreases k,
{
    if k <= 0 {
        Seq::empty()
    } else {
        let e = st.entries[k - 1];
        let t = tag_of(st, cfg, e.transaction);
        if t != e.subpool {
            moved_events(st, cfg, k - 1).push(PoolEvent::Moved(e.transaction.transaction.hash, t))
        } else {
            moved_events(st, cfg, k - 1)
        }
    }
}

pub open spec fn reclassified_entries(st: PoolState, cfg: PoolConfig) -> Seq<PoolEntry> {
    Seq::new(
        st.entries.len(),
        |i: int| PoolEntry { transaction: st.entries[i].transaction, subpool: tag_of(st, cfg, st.entries[i].transaction) },
    )
}

/// `st` with every entry in the sub-pool it belongs in, and an event for each that moved.
pub open spec fn reclassified(st: PoolState, cfg: PoolConfig) -> PoolState {
    PoolState {
        entries: reclassified_entries(st, cfg),
        events: st.events + moved_events(st, cfg, st.entries.len() as int),
        ..st
    }
}

// ---------------------------------------------------------------- eviction

/// The position of the lowest-ranked entry of sub-pool `tag` among the first `k`, or -1.
pub open spec fn worst_in(es: Seq<PoolEntry>, tag: SubPool, k: int) -> int
    decreases k,
{
    if k <= 0 {
        -1
    } else {
        let w = worst_in(es, tag, k - 1);
        if es[k - 1].subpool == tag && (w < 0 || ranks_above(
            es[w].transaction,
            es[k - 1].transaction,
        )) {
            k - 1
        } else {
            w
        }
    }
}

/// Whether some global bound is exceeded.
pub open spec fn over_global(st: PoolState, cfg: PoolConfig) -> bool {
    st.entries.len() > cfg.max_count || total_size(st.entries) > cfg.max_bytes
}

/// The entry to evict next: worst-first from Queued, then BaseFee, then Pending, taking
/// from a sub-pool when it exceeds its own bound or a global bound is exceeded.
pub open spec fn victim(st: PoolState, cfg: PoolConfig) -> int {
    let es = st.entries;
    if count_in(es, SubPool::Queued) > 0 && (count_in(es, SubPool::Queued) > cfg.queued_max_count
        || over_global(st, cfg)) {
        worst_in(es, SubPool::Queued, es.len() as int)
    } else if count_in(es, SubPool::BaseFee) > 0 && (count_in(es, SubPool::BaseFee)
        > cfg.basefee_max_count || over_global(st, cfg)) {
        worst_in(es, SubPool::BaseFee, es.len() as int)
    } else {
        worst_in(es, SubPool::Pending, es.len() as int)
    }
}

/// `st` without the entry at `v`, reclassified, with a `Discarded` event for it.
pub open spec fn evict_at(st: PoolState, cfg: PoolConfig, v: int) -> PoolState {
    reclassified(
        PoolState {
            entries: st.entries.remove(v),
            events: st.events.push(PoolEvent::Discarded(st.entries[v].transaction.transaction.hash)),
            ..st
        },
        cfg,
    )
}

/// `st` after evicting until every bound holds.
pub open spec fn enforced(st: PoolState, cfg: PoolConfig) -> PoolState
    decreases st.entries.len(),
{
    let v = victim(st, cfg);
    if within_limits(st, cfg) || !(0 <= v < st.entries.len()) {
        st
    } else {
        enforced(evict_at(st, cfg, v), cfg)
    }
}

/// The hashes that `enforced` evicts, in order.
pub open spec fn evicted(st: PoolState, cfg: PoolConfig) -> Seq<TxHash>
    decreases st.entries.len(),
{
    let v = victim(st, cfg);
    if within_limits(st, cfg) || !(0 <= v < st.entries.len()) {
        Seq::empty()
    } else {
        seq![st.entries[v].transaction.transaction.hash] + evicted(evict_at(st, cfg, v), cfg)
    }
}


/// The records of sub-pool `tag`, in order.
pub open spec fn records_in(es: Seq<PoolEntry>, tag: SubPool) -> Seq<ValidPoolTransaction>
    decreases es.len(),
{
    if es.len() == 0 {
        Seq::empty()
    } else if es.last().subpool == tag {
        records_in(es.drop_last(), tag).push(es.last().transaction)
    } else {
        records_in(es.drop_last(), tag)
    }
}

} // verus!
