//! The pool: held records with their sub-pools, sender states, the base fee, and the
//! operations that admit, remove, reclassify and evict.
use vstd::prelude::*;
use crate::admission::{
    admission_error, admitted, all_rank_above, any_ok, new_id, new_record, prior_cost,
    replaced_record, replaces, rewrite_discarded, spec_add, spec_add_all, spec_add_batch,
    spec_add_unenforced, with_sender,
};
use crate::best::BestTransactions;
use crate::canonical::{
    CanonicalStateUpdate, ChangedAccount, apply_change, apply_changes, canonical_updated, rebased,
    removed_by_hash,
};
use crate::classify::{classify_record, cost_within};
use crate::config::PoolConfig;
use crate::error::{PoolError, TransactionValidationOutcome};
use crate::identifier::{SenderId, SenderIdentifiers, TransactionId, id_of};
use crate::lemmas::{
    lemma_other_senders_classified, lemma_sender_records_push, lemma_sender_records_remove,
    lemma_sender_records_retained, sender_records,
    lemma_admitted_wf, lemma_change_sound, lemma_cost_in_nonneg, lemma_enforced_within,
    lemma_evict_wf, lemma_reclassified_wf, lemma_removed_sound, lemma_total_size_prefix,
    lemma_victim,
};
use crate::primitives::{Address, TxHash};
use crate::state::{
    PoolEntry, PoolEvent, PoolState, Removal, RemovalReason, Selector, SenderState, SubPool,
    count_in, enforced, evict_at, evicted, has_hash, has_id, moved_events, over_global,
    reclassified, reclassified_entries, records, records_in, removal_events, remove_selected,
    removed, retained, selects, sound, tag_of, total_size, victim, wf_core, within_limits,
    worst_in,
};
use crate::transaction::{
    PoolTransaction, TransactionOrigin, ValidPoolTransaction, cost, effective_tip_per_gas,
    is_ranked_above, spec_cost,
};

verus! {

/// Whether `v` holds `h`.
pub fn contains_hash(v: &Vec<TxHash>, h: &TxHash) -> (r: bool)
    ensures
        r == v@.contains(*h),
{
    let mut i: usize = 0;
    while i < v.len()
        invariant
            0 <= i <= v@.len(),
            forall|j: int| 0 <= j < i ==> v@[j] != *h,
        decreases v@.len() - i,
    {
        if v[i] == *h {
            assert(v@[i as int] == *h);
            return true;
        }
        i = i + 1;
    }
    false
}

pub fn selects_entry(sel: &Selector, e: &PoolEntry) -> (r: bool)
    ensures
        r == selects(sel@, *e),
{
    match sel {
        Selector::Hashes(v) => contains_hash(v, &e.transaction.transaction.hash),
        Selector::Stale(s, n) => e.transaction.transaction_id.sender == *s
            && e.transaction.transaction_id.nonce < *n,
        Selector::Id(id) => e.transaction.transaction_id == *id,
    }
}

pub fn removal_event_of(reason: RemovalReason, h: TxHash) -> (r: PoolEvent)
    ensures
        r == crate::state::removal_event(reason, h),
{
    match reason {
        RemovalReason::Mined => PoolEvent::Mined(h),
        RemovalReason::Discarded => PoolEvent::Discarded(h),
        RemovalReason::Replaced(by) => PoolEvent::Replaced(h, by),
    }
}

/// Counts of the sub-pools.
#[derive(Clone, Copy, Debug, PartialEq, Eq, Structural)]
pub struct PoolStatus {
    pub pending: usize,
    pub basefee: usize,
    pub queued: usize,
}

/// The transaction pool.
pub struct TxPool {
    config: PoolConfig,
    identifiers: SenderIdentifiers,
    senders: Vec<SenderState>,
    entries: Vec<PoolEntry>,
    base_fee: u64,
    next_timestamp: u64,
    events: Vec<PoolEvent>,
}

impl View for TxPool {
    type V = PoolState;

    closed spec fn view(&self) -> PoolState {
        PoolState {
            addresses: self.identifiers@,
            senders: self.senders@,
            entries: self.entries@,
            base_fee: self.base_fee,
            next_timestamp: self.next_timestamp,
            events: self.events@,
        }
    }
}

/// Every record's sender has a state.
pub open spec fn senders_known(st: PoolState) -> bool {
    forall|i: int|
        0 <= i < st.entries.len() ==> (#[trigger] st.entries[i]).transaction.transaction_id.sender
            < st.senders.len()
}

impl TxPool {
    /// The settings the pool was made with.
    pub closed spec fn spec_config(&self) -> PoolConfig {
        self.config
    }

    /// The pool's invariant.
    pub open spec fn wf(&self) -> bool {
        crate::state::wf(self@, self.config())
    }

    /// An empty pool at base fee zero.
    pub fn new(config: PoolConfig) -> (r: TxPool)
        ensures
            r.config() == config,
            r@.entries.len() == 0,
            r@.addresses.len() == 0,
            r@.senders.len() == 0,
            r@.events.len() == 0,
            r@.base_fee == 0,
            r.wf(),
    {
        let r = TxPool {
            config,
            identifiers: SenderIdentifiers::new(),
            senders: Vec::new(),
            entries: Vec::new(),
            base_fee: 0,
            next_timestamp: 0,
            events: Vec::new(),
        };
        assert(r@.entries.len() == 0);
        assert(crate::state::count_in(r@.entries, SubPool::Pending) == 0);
        assert(crate::state::count_in(r@.entries, SubPool::BaseFee) == 0);
        assert(crate::state::count_in(r@.entries, SubPool::Queued) == 0);
        assert(crate::state::total_size(r@.entries) == 0);
        r
    }

    /// Puts every entry in the sub-pool it belongs in, with an event for each that moved.
    fn reclassify(&mut self)
        requires
            senders_known(old(self)@),
        ensures
            final(self)@ == reclassified(old(self)@, old(self).config()),
            final(self).config() == old(self).config(),
    {
        let ghost st0 = self@;
        let ghost cfg = self.config;
        let mut out: Vec<PoolEntry> = Vec::new();
        let mut i: usize = 0;
        while i < self.entries.len()
            invariant
                0 <= i <= st0.entries.len(),
                self.config == cfg,
                self@ == (PoolState { events: self@.events, ..st0 }),
                self@.events == st0.events + moved_events(st0, cfg, i as int),
                senders_known(st0),
                out@.len() == i,
                forall|k: int| 0 <= k < i ==> #[trigger] out@[k] == reclassified_entries(st0, cfg)[k],
            decreases st0.entries.len() - i,
        {
            let e = self.entries[i];
            assert(e == st0.entries[i as int]);
            let t = classify_record(
                &self.entries,
                &self.senders,
                self.base_fee,
                self.config.minimum_priority_fee,
                &e.transaction,
            );
            assert(t == tag_of(st0, cfg, e.transaction));
            if t != e.subpool {
                self.events.push(PoolEvent::Moved(e.transaction.transaction.hash, t));
                assert(self@.events =~= st0.events + moved_events(st0, cfg, i + 1));
            } else {
                assert(self@.events =~= st0.events + moved_events(st0, cfg, i + 1));
            }
            out.push(PoolEntry { transaction: e.transaction, subpool: t });
            i = i + 1;
        }
        self.entries = out;
        assert(self.entries@ =~= reclassified_entries(st0, cfg));
    }

    /// Puts the entries of sender `a` in the sub-pools they belong in, where every other
    /// entry already is in its own.
    fn reclassify_sender(&mut self, a: SenderId)
        requires
            senders_known(old(self)@),
            forall|i: int|
                0 <= i < old(self)@.entries.len() && (#[trigger] old(self)@.entries[i]).transaction.transaction_id.sender != a
                    ==> old(self)@.entries[i].subpool == tag_of(old(self)@, old(self).spec_config(), old(self)@.entries[i].transaction),
        ensures
            final(self)@ == reclassified(old(self)@, old(self).config()),
            final(self).config() == old(self).config(),
    {
        let ghost st0 = self@;
        let ghost cfg = self.config;
        let mut out: Vec<PoolEntry> = Vec::new();
        let mut i: usize = 0;
        while i < self.entries.len()
            invariant
                0 <= i <= st0.entries.len(),
                self.config == cfg,
                self@ == (PoolState { events: self@.events, ..st0 }),
                self@.events == st0.events + moved_events(st0, cfg, i as int),
                senders_known(st0),
                forall|k: int|
                    0 <= k < st0.entries.len() && (#[trigger] st0.entries[k]).transaction.transaction_id.sender != a
                        ==> st0.entries[k].subpool == tag_of(st0, cfg, st0.entries[k].transaction),
                out@.len() == i,
                forall|k: int| 0 <= k < i ==> #[trigger] out@[k] == reclassified_entries(st0, cfg)[k],
            decreases st0.entries.len() - i,
        {
            let e = self.entries[i];
            assert(e == st0.entries[i as int]);
            let t = if e.transaction.transaction_id.sender == a {
                classify_record(
                    &self.entries,
                    &self.senders,
                    self.base_fee,
                    self.config.minimum_priority_fee,
                    &e.transaction,
                )
            } else {
                e.subpool
            };
            assert(t == tag_of(st0, cfg, e.transaction));
            if t != e.subpool {
                self.events.push(PoolEvent::Moved(e.transaction.transaction.hash, t));
                assert(self@.events =~= st0.events + moved_events(st0, cfg, i + 1));
            } else {
                assert(self@.events =~= st0.events + moved_events(st0, cfg, i + 1));
            }
            out.push(PoolEntry { transaction: e.transaction, subpool: t });
            i = i + 1;
        }
        self.entries = out;
        assert(self.entries@ =~= reclassified_entries(st0, cfg));
    }

    /// Removes the entries that `sel` takes, with an event for each, and returns their records.
    fn remove_where(&mut self, sel: &Selector, reason: RemovalReason) -> (r: Vec<ValidPoolTransaction>)
        ensures
            final(self)@ == remove_selected(old(self)@, sel@, reason),
            r@ == removed(old(self)@.entries, sel@),
            final(self).config() == old(self).config(),
    {
        let ghost st0 = self@;
        let ghost es = st0.entries;
        let mut kept: Vec<PoolEntry> = Vec::new();
        let mut out: Vec<ValidPoolTransaction> = Vec::new();
        let mut i: usize = 0;
        assert(es.take(0) =~= Seq::<PoolEntry>::empty());
        assert(st0.events + removal_events(es.take(0), sel@, reason) =~= st0.events);
        while i < self.entries.len()
            invariant
                0 <= i <= es.len(),
                es == st0.entries,
                self.config == old(self).config,
                self@ == (PoolState { events: self@.events, ..st0 }),
                self@.events == st0.events + removal_events(es.take(i as int), sel@, reason),
                kept@ == retained(es.take(i as int), sel@),
                out@ == removed(es.take(i as int), sel@),
            decreases es.len() - i,
        {
            let e = self.entries[i];
            proof {
                assert(self@.entries == es);
                assert(e == es[i as int]);
                assert(es.take(i + 1).drop_last() =~= es.take(i as int));
                assert(es.take(i + 1).last() == e);
            }
            if selects_entry(sel, &e) {
                self.events.push(removal_event_of(reason, e.transaction.transaction.hash));
                out.push(e.transaction);
            } else {
                kept.push(e);
            }
            assert(self@.events =~= st0.events + removal_events(es.take(i + 1), sel@, reason));
            i = i + 1;
        }
        assert(es.take(es.len() as int) =~= es);
        self.entries = kept;
        out
    }

    /// Whether a record with this hash is held.
    pub fn contains(&self, h: &TxHash) -> (r: bool)
        ensures
            r == has_hash(self@.entries, *h),
    {
        match self.find_hash(h) {
            Some(_) => true,
            None => false,
        }
    }

    fn find_hash(&self, h: &TxHash) -> (r: Option<usize>)
        ensures
            match r {
                Some(i) => i < self@.entries.len() && self@.entries[i as int].transaction.transaction.hash == *h,
                None => !has_hash(self@.entries, *h),
            },
    {
        let mut i: usize = 0;
        while i < self.entries.len()
            invariant
                0 <= i <= self@.entries.len(),
                forall|j: int| 0 <= j < i ==> (#[trigger] self@.entries[j]).transaction.transaction.hash != *h,
            decreases self@.entries.len() - i,
        {
            if self.entries[i].transaction.transaction.hash == *h {
                return Some(i);
            }
            i = i + 1;
        }
        None
    }

    /// The number of entries in sub-pool `tag`.
    fn count_tag(&self, tag: SubPool) -> (r: usize)
        ensures
            r == count_in(self@.entries, tag),
    {
        let ghost es = self@.entries;
        let mut n: usize = 0;
        let mut i: usize = 0;
        assert(es.take(0) =~= Seq::<PoolEntry>::empty());
        while i < self.entries.len()
            invariant
                0 <= i <= es.len(),
                es == self@.entries,
                n == count_in(es.take(i as int), tag),
                n <= i,
            decreases es.len() - i,
        {
            assert(es.take(i + 1).drop_last() =~= es.take(i as int));
            if self.entries[i].subpool == tag {
                n = n + 1;
            }
            i = i + 1;
        }
        assert(es.take(es.len() as int) =~= es);
        n
    }

    /// Whether the encoded sizes of all entries sum to at most `limit`.
    fn size_within(&self, limit: u64) -> (r: bool)
        ensures
            r == (total_size(self@.entries) <= limit),
    {
        let ghost es = self@.entries;
        let mut acc: u64 = 0;
        let mut i: usize = 0;
        assert(es.take(0) =~= Seq::<PoolEntry>::empty());
        while i < self.entries.len()
            invariant
                0 <= i <= es.len(),
                es == self@.entries,
                acc == total_size(es.take(i as int)),
                acc <= limit,
            decreases es.len() - i,
        {
            assert(es.take(i + 1).drop_last() =~= es.take(i as int));
            let size = self.entries[i].transaction.transaction.size;
            if size > limit - acc {
                proof {
                    lemma_total_size_prefix(es, i + 1);
                }
                return false;
            }
            acc = acc + size;
            i = i + 1;
        }
        assert(es.take(es.len() as int) =~= es);
        true
    }

    fn is_within_limits(&self) -> (r: bool)
        ensures
            r == within_limits(self@, self.config()),
    {
        self.entries.len() <= self.config.max_count
            && self.size_within(self.config.max_bytes)
            && self.count_tag(SubPool::Pending) <= self.config.pending_max_count
            && self.count_tag(SubPool::BaseFee) <= self.config.basefee_max_count
            && self.count_tag(SubPool::Queued) <= self.config.queued_max_count
    }

    /// The position of the lowest-ranked entry of sub-pool `tag`.
    fn worst_of(&self, tag: SubPool) -> (r: Option<usize>)
        ensures
            match r {
                Some(i) => i == worst_in(self@.entries, tag, self@.entries.len() as int),
                None => worst_in(self@.entries, tag, self@.entries.len() as int) == -1,
            },
    {
        let ghost es = self@.entries;
        let mut w: Option<usize> = None;
        let mut i: usize = 0;
        while i < self.entries.len()
            invariant
                0 <= i <= es.len(),
                es == self@.entries,
                match w {
                    Some(k) => k == worst_in(es, tag, i as int) && k < i,
                    None => worst_in(es, tag, i as int) == -1,
                },
            decreases es.len() - i,
        {
            let e = &self.entries[i];
            if e.subpool == tag {
                match w {
                    None => {
                        w = Some(i);
                    },
                    Some(k) => {
                        if is_ranked_above(&self.entries[k].transaction, &e.transaction) {
                            w = Some(i);
                        }
                    },
                }
            }
            i = i + 1;
        }
        w
    }

    /// The position of the entry to evict next.
    fn victim_index(&self) -> (r: usize)
        requires
            !within_limits(self@, self.config()),
        ensures
            r == victim(self@, self.config()),
            r < self@.entries.len(),
    {
        proof {
            lemma_victim(self@, self.config());
        }
        let global = self.entries.len() > self.config.max_count || !self.size_within(self.config.max_bytes);
        assert(global == over_global(self@, self.config()));
        let queued = self.count_tag(SubPool::Queued);
        let basefee = self.count_tag(SubPool::BaseFee);
        let tag = if queued > 0 && (queued > self.config.queued_max_count || global) {
            SubPool::Queued
        } else if basefee > 0 && (basefee > self.config.basefee_max_count || global) {
            SubPool::BaseFee
        } else {
            SubPool::Pending
        };
        match self.worst_of(tag) {
            Some(i) => i,
            None => 0,
        }
    }

    /// Evicts worst-first until every bound holds, and returns the hashes of the evicted records.
    pub fn discard_worst(&mut self) -> (r: Vec<TxHash>)
        requires
            wf_core(old(self)@, old(self).config()),
        ensures
            final(self)@ == enforced(old(self)@, old(self).config()),
            r@ == evicted(old(self)@, old(self).config()),
            final(self).config() == old(self).config(),
            final(self).wf(),
    {
        let ghost st0 = self@;
        let ghost cfg = self.config;
        let mut out: Vec<TxHash> = Vec::new();
        while !self.is_within_limits()
            invariant
                self.config == cfg,
                wf_core(self@, cfg),
                enforced(self@, cfg) == enforced(st0, cfg),
                evicted(st0, cfg) == out@ + evicted(self@, cfg),
            decreases self@.entries.len(),
        {
            let v = self.victim_index();
            let ghost cur = self@;
            let e = self.entries.remove(v);
            self.events.push(PoolEvent::Discarded(e.transaction.transaction.hash));
            let a = e.transaction.transaction_id.sender;
            proof {
                lemma_evict_wf(cur, cfg, v as int);
                let es = cur.entries;
                assert forall|q: SenderId| q != a implies #[trigger] sender_records(self@.entries, q) == sender_records(es, q) by {
                    lemma_sender_records_remove(es, v as int, q);
                }
                assert forall|i: int| 0 <= i < self@.entries.len() && (#[trigger] self@.entries[i]).transaction.transaction_id.sender != a
                    implies es.contains(self@.entries[i]) by {
                    let k = if i < v { i } else { i + 1 };
                    assert(self@.entries[i] == es[k]);
                }
                assert forall|i: int| 0 <= i < es.len() implies (#[trigger] es[i]).transaction.transaction_id.sender < cur.senders.len() by {
                    assert(crate::state::entry_ok(cur, es[i]));
                }
                lemma_other_senders_classified(cur, self@, cfg, a);
                assert forall|i: int| 0 <= i < self@.entries.len() implies (#[trigger] self@.entries[i]).transaction.transaction_id.sender < self@.senders.len() by {
                    let k = if i < v { i } else { i + 1 };
                    assert(self@.entries[i] == es[k]);
                    assert(crate::state::entry_ok(cur, es[k]));
                }
            }
            self.reclassify_sender(a);
            assert(self@ == evict_at(cur, cfg, v as int));
            out.push(e.transaction.transaction.hash);
            assert(out@ + evicted(self@, cfg) =~= evicted(st0, cfg));
        }
        proof {
            lemma_enforced_within(st0, cfg);
        }
        out
    }

    /// Stats about the pool.
    pub fn status(&self) -> (r: PoolStatus)
        ensures
            r.pending == count_in(self@.entries, SubPool::Pending),
            r.basefee == count_in(self@.entries, SubPool::BaseFee),
            r.queued == count_in(self@.entries, SubPool::Queued),
    {
        PoolStatus {
            pending: self.count_tag(SubPool::Pending),
            basefee: self.count_tag(SubPool::BaseFee),
            queued: self.count_tag(SubPool::Queued),
        }
    }

    /// Number of held transactions.
    pub fn len(&self) -> (r: usize)
        ensures
            r == self@.entries.len(),
    {
        self.entries.len()
    }

    /// Whether the pool holds no transaction.
    pub fn is_empty(&self) -> (r: bool)
        ensures
            r == (self@.entries.len() == 0),
    {
        self.entries.len() == 0
    }

    fn find_id(&self, id: TransactionId) -> (r: Option<usize>)
        ensures
            match r {
                Some(i) => i < self@.entries.len() && self@.entries[i as int].transaction.transaction_id == id,
                None => !has_id(self@.entries, id),
            },
    {
        let mut i: usize = 0;
        while i < self.entries.len()
            invariant
                0 <= i <= self@.entries.len(),
                forall|j: int| 0 <= j < i ==> (#[trigger] self@.entries[j]).transaction.transaction_id != id,
            decreases self@.entries.len() - i,
        {
            if self.entries[i].transaction.transaction_id == id {
                return Some(i);
            }
            i = i + 1;
        }
        None
    }

    /// Whether every held record has a priority above `priority`, and there is one.
    fn all_ranked_above(&self, priority: u64) -> (r: bool)
        ensures
            r == all_rank_above(self@.entries, priority),
    {
        if self.entries.len() == 0 {
            return false;
        }
        let mut i: usize = 0;
        while i < self.entries.len()
            invariant
                0 <= i <= self@.entries.len(),
                forall|j: int| 0 <= j < i ==> (#[trigger] self@.entries[j]).transaction.priority > priority,
            decreases self@.entries.len() - i,
        {
            if self.entries[i].transaction.priority <= priority {
                return false;
            }
            i = i + 1;
        }
        true
    }

    /// The admission check: the error that refuses the transaction, or its cost.
    fn check_admission(
        &self,
        origin: TransactionOrigin,
        tx: &PoolTransaction,
        state_nonce: u64,
        balance: u128,
    ) -> (r: Result<u128, PoolError>)
        requires
            wf_core(self@, self.config()),
        ensures
            match r {
                Ok(c) => admission_error(self@, self.config(), origin, *tx, state_nonce, balance).is_none()
                    && c == spec_cost(*tx),
                Err(e) => admission_error(self@, self.config(), origin, *tx, state_nonce, balance) == Some(e),
            },
    {
        let ghost st = self@;
        if self.contains(&tx.hash) {
            return Err(PoolError::AlreadyKnown);
        }
        if tx.nonce < state_nonce {
            return Err(PoolError::NonceTooLow);
        }
        if tx.nonce - state_nonce > self.config.gap_limit {
            return Err(PoolError::NonceGapTooLarge);
        }
        if tx.max_fee_per_gas < self.config.minimum_priority_fee {
            return Err(PoolError::FeeCapBelowMinimum);
        }
        let c = match cost(tx) {
            Some(c) => c,
            None => {
                proof {
                    let sid = id_of(st.addresses, tx.sender);
                    if sid >= 0 {
                        lemma_cost_in_nonneg(records(st.entries), sid as usize, state_nonce as int, tx.nonce as int);
                    }
                }
                return Err(PoolError::InsufficientFunds);
            },
        };
        let known = self.identifiers.sender_id(&tx.sender);
        let affordable = match known {
            Some(sid) => cost_within(&self.entries, sid, state_nonce, tx.nonce, false, c, balance),
            None => c <= balance,
        };
        assert(affordable == (prior_cost(st, *tx, state_nonce) + spec_cost(*tx) <= balance));
        if !affordable {
            return Err(PoolError::InsufficientFunds);
        }
        let priority = effective_tip_per_gas(tx, self.base_fee);
        let existing = match known {
            Some(sid) => self.find_id(TransactionId::new(sid, tx.nonce)),
            None => None,
        };
        match existing {
            Some(j) => {
                let old_priority = self.entries[j].transaction.priority;
                let bump = if origin.is_local() {
                    self.config.price_bump_local
                } else {
                    self.config.replacement_bump
                };
                proof {
                    assert(replaces(st, *tx));
                    let k = choose|k: int|
                        0 <= k < st.entries.len() && (#[trigger] st.entries[k]).transaction.transaction_id == new_id(st, *tx);
                    assert(k == j);
                    assert(replaced_record(st, *tx).priority == old_priority);
                    assert((old_priority as u128) * ((100 + bump) as u128) <= 0xffff_ffff_ffff_ffffu128 * 0x1_0000_0064u128) by (nonlinear_arith)
                        requires
                            old_priority <= 0xffff_ffff_ffff_ffffu64,
                            bump <= 0xffff_ffffu32,
                    ;
                }
                if (priority as u128) * 100 > (old_priority as u128) * (100 + bump as u128) {
                    Ok(c)
                } else {
                    Err(PoolError::ReplacementUnderpriced)
                }
            },
            None => {
                assert(!replaces(st, *tx));
                let full = self.entries.len() >= self.config.max_count || tx.size > self.config.max_bytes
                    || !self.size_within(self.config.max_bytes - tx.size);
                if full && self.all_ranked_above(priority) {
                    Err(PoolError::PoolFull)
                } else {
                    Ok(c)
                }
            },
        }
    }

    /// Admits a transaction that passed the admission check.
    fn insert_admitted(
        &mut self,
        origin: TransactionOrigin,
        tx: PoolTransaction,
        state_nonce: u64,
        balance: u128,
        c: u128,
    )
        requires
            wf_core(old(self)@, old(self).config()),
            admission_error(old(self)@, old(self).config(), origin, tx, state_nonce, balance).is_none(),
            c == spec_cost(tx),
        ensures
            final(self)@ == admitted(old(self)@, old(self).config(), origin, tx, state_nonce, balance),
            wf_core(final(self)@, final(self).config()),
            final(self).config() == old(self).config(),
    {
        let ghost st = self@;
        let ghost cfg = self.config;
        proof {
            crate::lookup::lemma_first_index_facts(st.addresses, tx.sender);
        }
        let sid = self.identifiers.sender_id_or_create(tx.sender);
        let seen = self.identifiers.len();
        assert(id_of(st.addresses, tx.sender) >= 0 || st.addresses.len() < seen);
        let sender = SenderState { state_nonce, balance };
        if sid < self.senders.len() {
            self.senders.set(sid, sender);
        } else {
            self.senders.push(sender);
        }
        let ghost st1 = with_sender(st, tx, state_nonce, balance);
        assert(self@.senders =~= st1.senders);
        assert(self@ == st1);
        let id = TransactionId::new(sid, tx.nonce);
        assert(id == new_id(st, tx));
        let _ = self.remove_where(&Selector::Stale(sid, state_nonce), RemovalReason::Discarded);
        let _ = self.remove_where(&Selector::Id(id), RemovalReason::Replaced(tx.hash));
        let ghost st3 = self@;
        let rec = ValidPoolTransaction {
            transaction: tx,
            transaction_id: id,
            cost: c,
            priority: effective_tip_per_gas(&tx, self.base_fee),
            propagate: !matches!(origin, TransactionOrigin::Private),
            origin,
            timestamp: self.next_timestamp,
        };
        assert(rec == new_record(st, origin, tx));
        self.entries.push(PoolEntry { transaction: rec, subpool: SubPool::Queued });
        assert(records(self@.entries) =~= records(st3.entries).push(rec));
        let tag = classify_record(
            &self.entries,
            &self.senders,
            self.base_fee,
            self.config.minimum_priority_fee,
            &rec,
        );
        let last = self.entries.len() - 1;
        self.entries.set(last, PoolEntry { transaction: rec, subpool: tag });
        self.events.push(PoolEvent::Added(rec, tag));
        self.next_timestamp = if self.next_timestamp < u64::MAX {
            self.next_timestamp + 1
        } else {
            self.next_timestamp
        };
        assert(self@.entries =~= st3.entries.push(PoolEntry { transaction: rec, subpool: tag }));
        proof {
            lemma_admitted_wf(st, cfg, origin, tx, state_nonce, balance);
            assert forall|i: int| 0 <= i < self@.entries.len() implies (#[trigger] self@.entries[i]).transaction.transaction_id.sender < self@.senders.len() by {
                let r = admitted(st, cfg, origin, tx, state_nonce, balance);
                assert(r.entries[i].transaction == self@.entries[i].transaction);
                assert(crate::state::entry_ok(r, r.entries[i]));
            }
            let sel1 = Removal::Stale(sid, state_nonce);
            let sel2 = Removal::Id(id);
            let st2 = remove_selected(st1, sel1, RemovalReason::Discarded);
            crate::lemmas::lemma_retained(st1.entries, sel1);
            crate::lemmas::lemma_retained(st2.entries, sel2);
            assert forall|q: SenderId| q != sid implies #[trigger] sender_records(self@.entries, q) == sender_records(st.entries, q) by {
                lemma_sender_records_retained(st1.entries, sel1, q);
                assert forall|i: int| 0 <= i < st2.entries.len() && selects(sel2, #[trigger] st2.entries[i]) implies
                    st2.entries[i].transaction.transaction_id.sender != q by {}
                lemma_sender_records_retained(st2.entries, sel2, q);
                lemma_sender_records_push(st3.entries, PoolEntry { transaction: rec, subpool: tag }, q);
            }
            assert forall|i: int| 0 <= i < self@.entries.len() && (#[trigger] self@.entries[i]).transaction.transaction_id.sender != sid
                implies st.entries.contains(self@.entries[i]) by {
                assert(self@.entries[i] == st3.entries[i]);
                assert(st3.entries.contains(st3.entries[i]));
                assert(st2.entries.contains(st3.entries[i]));
            }
            assert forall|i: int| 0 <= i < st.entries.len() implies (#[trigger] st.entries[i]).transaction.transaction_id.sender < st.senders.len() by {
                assert(crate::state::entry_ok(st, st.entries[i]));
            }
            lemma_other_senders_classified(st, self@, cfg, sid);
        }
        self.reclassify_sender(sid);
    }

    /// Hands the pool one validation outcome, without enforcing the size limits.
    fn add_unenforced(&mut self, origin: TransactionOrigin, outcome: TransactionValidationOutcome) -> (r: Result<TxHash, PoolError>)
        requires
            wf_core(old(self)@, old(self).config()),
        ensures
            (final(self)@, r) == spec_add_unenforced(old(self)@, old(self).config(), origin, outcome),
            wf_core(final(self)@, final(self).config()),
            final(self).config() == old(self).config(),
    {
        match outcome {
            TransactionValidationOutcome::Invalid(tx, err) => {
                self.events.push(PoolEvent::Invalid(tx.hash));
                Err(PoolError::Invalid(err))
            },
            TransactionValidationOutcome::Valid { balance, state_nonce, transaction } => {
                match self.check_admission(origin, &transaction, state_nonce, balance) {
                    Err(e) => Err(e),
                    Ok(c) => {
                        self.insert_admitted(origin, transaction, state_nonce, balance, c);
                        Ok(transaction.hash)
                    },
                }
            },
        }
    }

    /// Adds one validated transaction, then enforces the size limits.
    ///
    /// An invalid outcome returns the validator's error and leaves the records as they are.
    pub fn add_transaction(&mut self, origin: TransactionOrigin, outcome: TransactionValidationOutcome) -> (r: Result<TxHash, PoolError>)
        requires
            old(self).wf(),
        ensures
            (final(self)@, r) == spec_add(old(self)@, old(self).config(), origin, outcome),
            final(self).wf(),
            final(self).config() == old(self).config(),
    {
        let r = self.add_unenforced(origin, outcome);
        match r {
            Ok(h) => {
                let _ = self.discard_worst();
                if self.contains(&h) {
                    Ok(h)
                } else {
                    Err(PoolError::DiscardedOnInsert(h))
                }
            },
            Err(e) => Err(e),
        }
    }

    /// Reclassifies a sound state and enforces the size limits.
    fn settle(&mut self)
        requires
            sound(old(self)@),
        ensures
            final(self)@ == enforced(reclassified(old(self)@, old(self).config()), old(self).config()),
            final(self).wf(),
            final(self).config() == old(self).config(),
    {
        proof {
            lemma_reclassified_wf(self@, self.config);
        }
        self.reclassify();
        let _ = self.discard_worst();
    }

    /// Removes the records with the given hashes and returns them; the rest are reclassified
    /// and the size limits enforced.
    pub fn remove_transactions(&mut self, hashes: Vec<TxHash>) -> (r: Vec<ValidPoolTransaction>)
        requires
            old(self).wf(),
        ensures
            final(self)@ == removed_by_hash(old(self)@, old(self).config(), hashes@),
            r@ == removed(old(self)@.entries, Removal::Hashes(hashes@)),
            final(self).wf(),
            final(self).config() == old(self).config(),
    {
        let sel = Selector::Hashes(hashes);
        let r = self.remove_where(&sel, RemovalReason::Discarded);
        proof {
            lemma_removed_sound(old(self)@, sel@, RemovalReason::Discarded);
        }
        self.settle();
        r
    }

    /// Sets the base fee, reclassifies every record and enforces the size limits.
    pub fn update_base_fee(&mut self, base_fee: u64)
        requires
            old(self).wf(),
        ensures
            final(self)@ == rebased(old(self)@, old(self).config(), base_fee),
            final(self).wf(),
            final(self).config() == old(self).config(),
    {
        self.base_fee = base_fee;
        self.settle();
    }

    /// Applies one sender's new state.
    fn apply_account_change(&mut self, c: ChangedAccount)
        requires
            sound(old(self)@),
        ensures
            final(self)@ == apply_change(old(self)@, c),
            sound(final(self)@),
            final(self).config() == old(self).config(),
    {
        proof {
            lemma_change_sound(self@, c);
            crate::lookup::lemma_first_index_facts(self@.addresses, c.address);
        }
        match self.identifiers.sender_id(&c.address) {
            Some(sid) => {
                self.senders.set(sid, SenderState { state_nonce: c.nonce, balance: c.balance });
                let _ = self.remove_where(&Selector::Stale(sid, c.nonce), RemovalReason::Discarded);
            },
            None => {},
        }
    }

    /// Reacts to a new canonical block: mined records leave, changed senders' records below
    /// their new nonce leave, the base fee is set, every record is reclassified, and the size
    /// limits are enforced.
    pub fn on_canonical_state_change(&mut self, update: CanonicalStateUpdate)
        requires
            old(self).wf(),
        ensures
            final(self)@ == canonical_updated(
                old(self)@,
                old(self).config(),
                update.mined_transactions@,
                update.changed_accounts@,
                update.pending_block_base_fee,
            ),
            final(self).wf(),
            final(self).config() == old(self).config(),
    {
        let ghost st0 = self@;
        let CanonicalStateUpdate { pending_block_base_fee, mined_transactions, changed_accounts } = update;
        let mined = Selector::Hashes(mined_transactions);
        let _ = self.remove_where(&mined, RemovalReason::Mined);
        proof {
            lemma_removed_sound(st0, mined@, RemovalReason::Mined);
        }
        let ghost s1 = self@;
        let mut i: usize = 0;
        while i < changed_accounts.len()
            invariant
                0 <= i <= changed_accounts@.len(),
                self.config == old(self).config,
                sound(self@),
                self@ == apply_changes(s1, changed_accounts@.take(i as int)),
            decreases changed_accounts@.len() - i,
        {
            let c = changed_accounts[i];
            proof {
                assert(changed_accounts@.take(i + 1).drop_last() =~= changed_accounts@.take(i as int));
            }
            self.apply_account_change(c);
            i = i + 1;
        }
        assert(changed_accounts@.take(changed_accounts@.len() as int) =~= changed_accounts@);
        self.base_fee = pending_block_base_fee;
        self.settle();
    }

    /// Adds a batch of validated transactions; if any was admitted, the size limits are
    /// enforced once at the end, and admitted transactions that they evicted are reported
    /// as `DiscardedOnInsert`.
    pub fn add_transactions(
        &mut self,
        origin: TransactionOrigin,
        outcomes: Vec<TransactionValidationOutcome>,
    ) -> (r: Vec<Result<TxHash, PoolError>>)
        requires
            old(self).wf(),
        ensures
            (final(self)@, r@) == spec_add_batch(old(self)@, old(self).config(), origin, outcomes@),
            final(self).wf(),
            final(self).config() == old(self).config(),
    {
        let ghost st0 = self@;
        let mut results: Vec<Result<TxHash, PoolError>> = Vec::new();
        let mut any = false;
        let mut i: usize = 0;
        while i < outcomes.len()
            invariant
                0 <= i <= outcomes@.len(),
                self.config == old(self).config,
                wf_core(self@, self.config),
                (self@, results@) == spec_add_all(st0, self.config, origin, outcomes@.take(i as int)),
                any == any_ok(results@),
                !any ==> self@.entries == st0.entries,
                within_limits(st0, self.config),
            decreases outcomes@.len() - i,
        {
            proof {
                assert(outcomes@.take(i + 1).drop_last() =~= outcomes@.take(i as int));
            }
            let ghost before = self@;
            let r = self.add_unenforced(origin, outcomes[i]);
            let ok = r.is_ok();
            proof {
                if !ok {
                    assert(self@.entries == before.entries);
                }
            }
            let ghost prev = results@;
            results.push(r);
            proof {
                if any {
                    let k = choose|k: int| 0 <= k < prev.len() && (#[trigger] prev[k]).is_ok();
                    assert(results@[k] == prev[k]);
                    assert(results@[k].is_ok());
                }
                if ok {
                    assert(results@[results@.len() - 1].is_ok());
                }
                if !any && !ok {
                    assert forall|k: int| 0 <= k < results@.len() implies !(#[trigger] results@[k]).is_ok() by {
                        if k < results@.len() - 1 {
                            assert(results@[k] == prev[k]);
                        }
                    }
                }
            }
            any = any || ok;
            i = i + 1;
        }
        assert(outcomes@.take(outcomes@.len() as int) =~= outcomes@);
        if !any {
            return results;
        }
        let ghost rs = results@;
        let gone = self.discard_worst();
        let mut out: Vec<Result<TxHash, PoolError>> = Vec::new();
        let mut j: usize = 0;
        while j < results.len()
            invariant
                0 <= j <= rs.len(),
                results@ == rs,
                out@.len() == j,
                forall|k: int| 0 <= k < j ==> #[trigger] out@[k] == rewrite_discarded(rs[k], gone@),
            decreases rs.len() - j,
        {
            let r = results[j];
            let rewritten = match r {
                Ok(h) => if contains_hash(&gone, &h) {
                    Err(PoolError::DiscardedOnInsert(h))
                } else {
                    Ok(h)
                },
                Err(e) => Err(e),
            };
            out.push(rewritten);
            j = j + 1;
        }
        assert(out@ =~= Seq::new(rs.len(), |k: int| rewrite_discarded(rs[k], gone@)));
        out
    }

    /// The records of sub-pool `tag`, in pool order.
    pub fn transactions_in(&self, tag: SubPool) -> (r: Vec<ValidPoolTransaction>)
        ensures
            r@ == records_in(self@.entries, tag),
    {
        let ghost es = self@.entries;
        let mut out: Vec<ValidPoolTransaction> = Vec::new();
        let mut i: usize = 0;
        assert(es.take(0) =~= Seq::<PoolEntry>::empty());
        while i < self.entries.len()
            invariant
                0 <= i <= es.len(),
                es == self@.entries,
                out@ == records_in(es.take(i as int), tag),
            decreases es.len() - i,
        {
            assert(es.take(i + 1).drop_last() =~= es.take(i as int));
            if self.entries[i].subpool == tag {
                out.push(self.entries[i].transaction);
            }
            i = i + 1;
        }
        assert(es.take(es.len() as int) =~= es);
        out
    }

    /// An iterator over a snapshot of Pending.
    pub fn best_transactions(&self) -> (r: BestTransactions)
        ensures
            r.well_formed(),
            r@.all == records_in(self@.entries, SubPool::Pending),
            r@.yielded == Seq::new(r@.all.len(), |i: int| false),
            r@.invalid == Seq::new(r@.all.len(), |i: int| false),
    {
        BestTransactions::new(self.transactions_in(SubPool::Pending))
    }

    /// The record with this hash.
    pub fn get(&self, h: &TxHash) -> (r: Option<ValidPoolTransaction>)
        ensures
            match r {
                Some(t) => t.transaction.hash == *h && exists|i: int|
                    0 <= i < self@.entries.len() && (#[trigger] self@.entries[i]).transaction == t,
                None => !has_hash(self@.entries, *h),
            },
            self.wf() && has_hash(self@.entries, *h) ==> r == Some(record_with(self@.entries, *h)),
    {
        match self.find_hash(h) {
            Some(i) => {
                proof {
                    if self.wf() {
                        let j = choose|j: int| 0 <= j < self@.entries.len() && (#[trigger] self@.entries[j]).transaction.transaction.hash == *h;
                        assert(j == i);
                    }
                }
                Some(self.entries[i].transaction)
            },
            None => None,
        }
    }

    /// The sub-pool that holds the record with this hash.
    pub fn subpool_of(&self, h: &TxHash) -> (r: Option<SubPool>)
        ensures
            match r {
                Some(t) => exists|i: int|
                    0 <= i < self@.entries.len() && (#[trigger] self@.entries[i]).transaction.transaction.hash == *h
                        && self@.entries[i].subpool == t,
                None => !has_hash(self@.entries, *h),
            },
    {
        match self.find_hash(h) {
            Some(i) => Some(self.entries[i].subpool),
            None => None,
        }
    }

    /// Hands out the events recorded since the last call.
    pub fn take_events(&mut self) -> (r: Vec<PoolEvent>)
        ensures
            r@ == old(self)@.events,
            final(self)@ == (PoolState { events: Seq::empty(), ..old(self)@ }),
            final(self).config() == old(self).config(),
    {
        let mut out: Vec<PoolEvent> = Vec::new();
        std::mem::swap(&mut out, &mut self.events);
        out
    }

    pub fn base_fee(&self) -> (r: u64)
        ensures
            r == self@.base_fee,
    {
        self.base_fee
    }

    /// The id of a sender address, if the pool has seen it.
    pub fn sender_id(&self, address: &Address) -> (r: Option<SenderId>)
        ensures
            match r {
                Some(id) => id == id_of(self@.addresses, *address),
                None => id_of(self@.addresses, *address) == -1,
            },
    {
        self.identifiers.sender_id(address)
    }

    /// The settings the pool was made with.
    #[verifier::when_used_as_spec(spec_config)]
    pub fn config(&self) -> (r: PoolConfig)
        ensures
            r == self.spec_config(),
    {
        self.config
    }

    /// The records of one sender, in pool order.
    pub fn sender_transactions(&self, sender: SenderId) -> (r: Vec<ValidPoolTransaction>)
        ensures
            r@ == sender_records(self@.entries, sender),
    {
        let ghost es = self@.entries;
        let mut out: Vec<ValidPoolTransaction> = Vec::new();
        let mut i: usize = 0;
        assert(es.take(0) =~= Seq::<PoolEntry>::empty());
        while i < self.entries.len()
            invariant
                0 <= i <= es.len(),
                es == self@.entries,
                out@ == sender_records(es.take(i as int), sender),
            decreases es.len() - i,
        {
            assert(es.take(i + 1).drop_last() =~= es.take(i as int));
            if self.entries[i].transaction.transaction_id.sender == sender {
                out.push(self.entries[i].transaction);
            }
            i = i + 1;
        }
        assert(es.take(es.len() as int) =~= es);
        out
    }

    /// The records with the given hashes, in the order of the hashes; unknown hashes are skipped.
    pub fn get_all(&self, hashes: &Vec<TxHash>) -> (r: Vec<ValidPoolTransaction>)
        requires
            self.wf(),
        ensures
            r@ == records_with(self@.entries, hashes@),
    {
        let ghost es = self@.entries;
        let mut out: Vec<ValidPoolTransaction> = Vec::new();
        let mut i: usize = 0;
        assert(hashes@.take(0) =~= Seq::<TxHash>::empty());
        while i < hashes.len()
            invariant
                0 <= i <= hashes@.len(),
                es == self@.entries,
                crate::state::unique_hashes(es),
                out@ == records_with(es, hashes@.take(i as int)),
            decreases hashes@.len() - i,
        {
            assert(hashes@.take(i + 1).drop_last() =~= hashes@.take(i as int));
            match self.find_hash(&hashes[i]) {
                Some(k) => {
                    proof {
                        let j = choose|j: int| 0 <= j < es.len() && (#[trigger] es[j]).transaction.transaction.hash == hashes@[i as int];
                        assert(j == k);
                    }
                    out.push(self.entries[k].transaction);
                },
                None => {},
            }
            i = i + 1;
        }
        assert(hashes@.take(hashes@.len() as int) =~= hashes@);
        out
    }
}

/// The held record with hash `h`.
pub open spec fn record_with(es: Seq<PoolEntry>, h: TxHash) -> ValidPoolTransaction {
    es[choose|j: int| 0 <= j < es.len() && (#[trigger] es[j]).transaction.transaction.hash == h].transaction
}

/// The held records with the hashes `hs`, in the order of `hs`, skipping hashes not held.
pub open spec fn records_with(es: Seq<PoolEntry>, hs: Seq<TxHash>) -> Seq<ValidPoolTransaction>
    decreases hs.len(),
{
    if hs.len() == 0 {
        Seq::empty()
    } else if has_hash(es, hs.last()) {
        records_with(es, hs.drop_last()).push(record_with(es, hs.last()))
    } else {
        records_with(es, hs.drop_last())
    }
}

} // verus!
