//! Properties of the pool that hold across operations, proved over the model.
use vstd::prelude::*;
use crate::admission::{admission_error, admitted, new_id, new_record, spec_add, with_sender};
use crate::canonical::{ChangedAccount, canonical_updated};
use crate::config::PoolConfig;
use crate::error::{PoolError, TransactionValidationOutcome};
use crate::identifier::id_of;
use crate::lemmas::{
    lemma_cost_in_mono, lemma_counts, lemma_evict_wf, lemma_reclassified, lemma_retained_none,
    lemma_victim,
};
use crate::primitives::TxHash;
use crate::state::{
    PoolEntry, PoolEvent, PoolState, Removal, RemovalReason, SenderState, SubPool, classify,
    cost_in, count_in, enforced, evict_at, fee_ok, fees_ok_in, gapless, has_hash, has_id,
    has_nonce, reclassified, records, records_in, remove_selected, retained, tag_of, total_size,
    unique_ids, victim, wf, wf_core, within_limits,
};
use crate::transaction::{PoolTransaction, TransactionOrigin};

verus! {

/// Whether a Pending record of sender `s` with nonce `k` is held.
pub open spec fn has_pending_nonce(es: Seq<PoolEntry>, s: crate::identifier::SenderId, k: int) -> bool {
    exists|j: int|
        0 <= j < es.len() && (#[trigger] es[j]).transaction.transaction_id.sender == s
            && es[j].transaction.transaction_id.nonce == k && es[j].subpool == SubPool::Pending
}

/// The pool's invariants, stated entry by entry:
/// ids are unique; every Pending record's sender has Pending records for every nonce from
/// its state nonce up to the record's; the Pending prefix up to each Pending record fits the
/// balance; Pending records pay the fees; BaseFee holds exactly the gapless, affordable
/// records that (or whose predecessors) do not pay the fees; Queued holds exactly the
/// records behind a gap or beyond the balance; and every bound holds.
pub open spec fn invariants(st: PoolState, cfg: PoolConfig) -> bool {
    let recs = records(st.entries);
    &&& unique_ids(st.entries)
    &&& forall|i: int| #![trigger st.entries[i]] 0 <= i < st.entries.len() ==> {
        let r = st.entries[i].transaction;
        let s = r.transaction_id.sender;
        let n = st.senders[s as int].state_nonce as int;
        let m = r.transaction_id.nonce as int;
        let ok = gapless(recs, s, n, m) && cost_in(recs, s, n, m + 1) <= st.senders[s as int].balance;
        &&& (st.entries[i].subpool == SubPool::Pending ==> {
            &&& n <= m
            &&& forall|k: int| n <= k < m ==> #[trigger] has_pending_nonce(st.entries, s, k)
            &&& cost_in(recs, s, n, m + 1) <= st.senders[s as int].balance
            &&& fee_ok(r.transaction, st.base_fee, cfg.minimum_priority_fee)
        })
        &&& (st.entries[i].subpool == SubPool::BaseFee <==> ok && !fees_ok_in(recs, s, n, m + 1, st.base_fee, cfg.minimum_priority_fee))
        &&& (st.entries[i].subpool == SubPool::Queued <==> !ok)
    }
    &&& within_limits(st, cfg)
}

/// Every well-formed pool meets its invariants.
pub proof fn lemma_invariants_hold(st: PoolState, cfg: PoolConfig)
    requires
        wf(st, cfg),
    ensures
        invariants(st, cfg),
{
    let recs = records(st.entries);
    assert forall|i: int| 0 <= i < st.entries.len() && st.entries[i].subpool == SubPool::Pending implies {
        let r = st.entries[i].transaction;
        let s = r.transaction_id.sender;
        let n = st.senders[s as int].state_nonce as int;
        let m = r.transaction_id.nonce as int;
        forall|k: int| n <= k < m ==> #[trigger] has_pending_nonce(st.entries, s, k)
    } by {
        let r = st.entries[i].transaction;
        let s = r.transaction_id.sender;
        let n = st.senders[s as int].state_nonce as int;
        let m = r.transaction_id.nonce as int;
        assert(recs[i] == r);
        assert forall|k: int| n <= k < m implies #[trigger] has_pending_nonce(st.entries, s, k) by {
            assert(has_nonce(recs, s, k));
            let j = choose|j: int| 0 <= j < recs.len() && (#[trigger] recs[j]).transaction_id.sender == s
                && recs[j].transaction_id.nonce == k;
            assert(recs[j] == st.entries[j].transaction);
            assert(gapless(recs, s, n, k)) by {
                assert forall|q: int| n <= q < k implies #[trigger] has_nonce(recs, s, q) by {
                    assert(has_nonce(recs, s, q));
                }
            }
            lemma_cost_in_mono(recs, s, n, k + 1, m + 1);
            assert(fees_ok_in(recs, s, n, k + 1, st.base_fee, cfg.minimum_priority_fee));
        }
    }
    assert forall|i: int| 0 <= i < st.entries.len() && st.entries[i].subpool == SubPool::Pending implies
        fee_ok(st.entries[i].transaction.transaction, st.base_fee, cfg.minimum_priority_fee) by {
        assert(recs[i] == st.entries[i].transaction);
    }
}

/// The sub-pool sizes add up to the number of held records, and each is the length of that
/// sub-pool's record list.
pub proof fn lemma_status_totals(es: Seq<PoolEntry>)
    ensures
        count_in(es, SubPool::Pending) + count_in(es, SubPool::BaseFee) + count_in(es, SubPool::Queued) == es.len(),
        records_in(es, SubPool::Pending).len() == count_in(es, SubPool::Pending),
        records_in(es, SubPool::BaseFee).len() == count_in(es, SubPool::BaseFee),
        records_in(es, SubPool::Queued).len() == count_in(es, SubPool::Queued),
    decreases es.len(),
{
    lemma_counts(es);
    if es.len() > 0 {
        lemma_status_totals(es.drop_last());
    }
}

/// A pool is empty exactly when every sub-pool is.
pub proof fn lemma_empty_iff_no_subpool(es: Seq<PoolEntry>)
    ensures
        es.len() == 0 <==> (count_in(es, SubPool::Pending) == 0 && count_in(es, SubPool::BaseFee) == 0
            && count_in(es, SubPool::Queued) == 0),
{
    lemma_counts(es);
}

/// Handing the pool the same validated transaction again, after it was admitted, answers
/// `AlreadyKnown` and changes nothing.
pub proof fn lemma_add_twice_already_known(
    st: PoolState,
    cfg: PoolConfig,
    origin: TransactionOrigin,
    outcome: TransactionValidationOutcome,
)
    ensures
        ({
            let (s1, r1) = spec_add(st, cfg, origin, outcome);
            r1.is_ok() ==> spec_add(s1, cfg, origin, outcome) == (s1, Err::<TxHash, PoolError>(PoolError::AlreadyKnown))
        }),
{
}

/// Enforcing the bounds keeps the structure well-formed.
pub proof fn lemma_enforced_wf(st: PoolState, cfg: PoolConfig)
    requires
        wf_core(st, cfg),
    ensures
        wf_core(enforced(st, cfg), cfg),
    decreases st.entries.len(),
{
    if !within_limits(st, cfg) {
        lemma_victim(st, cfg);
        lemma_evict_wf(st, cfg, victim(st, cfg));
        lemma_enforced_wf(evict_at(st, cfg, victim(st, cfg)), cfg);
    }
}

/// Admitting a transaction leaves exactly one record with its hash.
pub proof fn lemma_add_keeps_one_record(
    st: PoolState,
    cfg: PoolConfig,
    origin: TransactionOrigin,
    outcome: TransactionValidationOutcome,
)
    requires
        wf(st, cfg),
        st.addresses.len() < usize::MAX,
    ensures
        ({
            let (s1, r1) = spec_add(st, cfg, origin, outcome);
            r1.is_ok() ==> (forall|i: int, j: int|
                0 <= i < s1.entries.len() && 0 <= j < s1.entries.len()
                    && (#[trigger] s1.entries[i]).transaction.transaction.hash == r1.get_Ok_0()
                    && (#[trigger] s1.entries[j]).transaction.transaction.hash == r1.get_Ok_0() ==> i == j)
                && has_hash(s1.entries, r1.get_Ok_0())
        }),
{
    if let TransactionValidationOutcome::Valid { balance, state_nonce, transaction } = outcome {
        if admission_error(st, cfg, origin, transaction, state_nonce, balance).is_none() {
            crate::lemmas::lemma_admitted_wf(st, cfg, origin, transaction, state_nonce, balance);
            lemma_enforced_wf(admitted(st, cfg, origin, transaction, state_nonce, balance), cfg);
        }
    }
}

/// Raising the base fee and lowering it back restores every record's sub-pool, provided
/// the raise evicted nothing.
pub proof fn lemma_base_fee_round_trip(st: PoolState, cfg: PoolConfig, raised: u64)
    requires
        wf(st, cfg),
        raised >= st.base_fee,
        within_limits(reclassified(PoolState { base_fee: raised, ..st }, cfg), cfg),
    ensures
        ({
            let s1 = canonical_updated(st, cfg, Seq::empty(), Seq::empty(), raised);
            let s2 = canonical_updated(s1, cfg, Seq::empty(), Seq::empty(), st.base_fee);
            s2.entries == st.entries && s2.base_fee == st.base_fee
        }),
{
    let none = Removal::Hashes(Seq::empty());
    lemma_retained_none(st.entries, none);
    let a = remove_selected(st, none, RemovalReason::Mined);
    let b = reclassified(PoolState { base_fee: raised, ..a }, cfg);
    lemma_reclassified(PoolState { base_fee: raised, ..a }, cfg);
    assert(b.entries == reclassified(PoolState { base_fee: raised, ..st }, cfg).entries);
    let s1 = canonical_updated(st, cfg, Seq::empty(), Seq::empty(), raised);
    assert(s1 == b);
    lemma_retained_none(s1.entries, none);
    let c = remove_selected(s1, none, RemovalReason::Mined);
    let d = reclassified(PoolState { base_fee: st.base_fee, ..c }, cfg);
    lemma_reclassified(PoolState { base_fee: st.base_fee, ..c }, cfg);
    assert(records(c.entries) == records(st.entries));
    assert(d.entries =~= st.entries) by {
        assert forall|i: int| 0 <= i < st.entries.len() implies d.entries[i] == st.entries[i] by {
            assert(d.entries[i].transaction == st.entries[i].transaction);
        }
    }
}


/// Admitting a transaction and then a canonical update that reports it mined, at the same
/// base fee and with no account changes, gives back the records and sub-pools the pool had.
///
/// This holds where admission moves nothing else: the sender's known state is the one the
/// validator reports, no record has the transaction's id, and the pool has room for it.
pub proof fn lemma_insert_then_mined(
    st: PoolState,
    cfg: PoolConfig,
    origin: TransactionOrigin,
    tx: PoolTransaction,
    state_nonce: u64,
    balance: u128,
)
    requires
        wf(st, cfg),
        !has_hash(st.entries, tx.hash),
        id_of(st.addresses, tx.sender) >= 0 ==> st.senders[id_of(st.addresses, tx.sender)]
            == (SenderState { state_nonce, balance }),
        id_of(st.addresses, tx.sender) >= 0 ==> !has_id(st.entries, new_id(st, tx)),
        st.entries.len() + 1 <= cfg.max_count,
        st.entries.len() + 1 <= cfg.pending_max_count,
        st.entries.len() + 1 <= cfg.basefee_max_count,
        st.entries.len() + 1 <= cfg.queued_max_count,
        total_size(st.entries) + tx.size <= cfg.max_bytes,
        st.addresses.len() < usize::MAX,
    ensures
        ({
            let outcome = TransactionValidationOutcome::Valid { balance, state_nonce, transaction: tx };
            let (s1, r) = spec_add(st, cfg, origin, outcome);
            let s2 = canonical_updated(s1, cfg, seq![tx.hash], Seq::<ChangedAccount>::empty(), st.base_fee);
            s2.entries == st.entries && s2.base_fee == st.base_fee
        }),
{
    let outcome = TransactionValidationOutcome::Valid { balance, state_nonce, transaction: tx };
    let mined = Removal::Hashes(seq![tx.hash]);
    let sid = id_of(st.addresses, tx.sender);
    crate::lookup::lemma_first_index_facts(st.addresses, tx.sender);
    assert forall|i: int| 0 <= i < st.entries.len() implies !selects_hash(mined, #[trigger] st.entries[i]) by {
        assert(st.entries[i].transaction.transaction.hash != tx.hash);
    }
    if admission_error(st, cfg, origin, tx, state_nonce, balance).is_some() {
        lemma_retained_none(st.entries, mined);
        let b = remove_selected(st, mined, RemovalReason::Mined);
        let c = PoolState { base_fee: st.base_fee, ..b };
        lemma_reclassified(c, cfg);
        let d = reclassified(c, cfg);
        assert(records(b.entries) == records(st.entries));
        assert(d.entries =~= st.entries) by {
            assert forall|i: int| 0 <= i < st.entries.len() implies d.entries[i] == st.entries[i] by {
                assert(d.entries[i].transaction == st.entries[i].transaction);
            }
        }
    } else {
        let id = new_id(st, tx);
        let st1 = with_sender(st, tx, state_nonce, balance);
        let sel1 = Removal::Stale(id.sender, state_nonce);
        let sel2 = Removal::Id(id);
        assert forall|i: int| 0 <= i < st1.entries.len() implies !crate::state::selects(sel1, #[trigger] st1.entries[i])
            && !crate::state::selects(sel2, st1.entries[i]) by {
            let e = st.entries[i];
            assert(crate::state::entry_ok(st, e));
            if sid < 0 {
                assert(e.transaction.transaction_id.sender != id.sender);
            } else {
                assert(e.transaction.transaction_id != id);
            }
        }
        lemma_retained_none(st1.entries, sel1);
        let st2 = remove_selected(st1, sel1, RemovalReason::Discarded);
        lemma_retained_none(st2.entries, sel2);
        let st3 = remove_selected(st2, sel2, RemovalReason::Replaced(tx.hash));
        assert(st3.entries == st.entries);
        let rec = new_record(st, origin, tx);
        let tag = classify(records(st3.entries).push(rec), st3.senders, st3.base_fee, cfg.minimum_priority_fee, rec);
        let st4 = PoolState {
            entries: st3.entries.push(PoolEntry { transaction: rec, subpool: tag }),
            next_timestamp: if st.next_timestamp < u64::MAX { (st.next_timestamp + 1) as u64 } else { st.next_timestamp },
            events: st3.events.push(PoolEvent::Added(rec, tag)),
            ..st3
        };
        let a = admitted(st, cfg, origin, tx, state_nonce, balance);
        assert(a == reclassified(st4, cfg));
        lemma_reclassified(st4, cfg);
        crate::lemmas::lemma_total_size_records(a.entries, st4.entries);
        assert(st4.entries.drop_last() =~= st.entries);
        crate::lemmas::lemma_count_le_len(a.entries, SubPool::Pending);
        crate::lemmas::lemma_count_le_len(a.entries, SubPool::BaseFee);
        crate::lemmas::lemma_count_le_len(a.entries, SubPool::Queued);
        assert(within_limits(a, cfg));
        assert(enforced(a, cfg) == a);
        let last = a.entries.len() - 1;
        assert(a.entries[last].transaction == rec);
        assert(has_hash(a.entries, tx.hash));
        // The mined removal takes the new record and nothing else.
        let ad = a.entries.drop_last();
        assert forall|i: int| 0 <= i < ad.len() implies !crate::state::selects(mined, #[trigger] ad[i]) by {
            assert(ad[i].transaction == st.entries[i].transaction);
            assert(!selects_hash(mined, st.entries[i]));
        }
        lemma_retained_none(ad, mined);
        assert(a.entries.last().transaction.transaction.hash == tx.hash);
        assert(seq![tx.hash][0] == tx.hash);
        assert(crate::state::selects(mined, a.entries.last()));
        assert(retained(a.entries, mined) == ad);
        let b = remove_selected(a, mined, RemovalReason::Mined);
        let c = PoolState { base_fee: st.base_fee, ..b };
        assert(c.senders == st1.senders);
        lemma_reclassified(c, cfg);
        let d = reclassified(c, cfg);
        assert(records(b.entries) =~= records(st.entries)) by {
            assert forall|i: int| 0 <= i < st.entries.len() implies b.entries[i].transaction == st.entries[i].transaction by {
                assert(b.entries[i] == a.entries[i]);
            }
        }
        if sid >= 0 {
            assert(st1.senders =~= st.senders);
        }
        assert(d.entries =~= st.entries) by {
            assert forall|i: int| 0 <= i < st.entries.len() implies d.entries[i] == st.entries[i] by {
                let e = st.entries[i];
                assert(d.entries[i].transaction == e.transaction);
                assert(crate::state::entry_ok(st, e));
                let q = e.transaction.transaction_id.sender as int;
                assert(st1.senders[q] == st.senders[q]);
                assert(tag_of(c, cfg, e.transaction) == tag_of(st, cfg, e.transaction));
            }
        }
    }
}

/// Whether a removal by hash takes the entry.
pub open spec fn selects_hash(sel: Removal, e: PoolEntry) -> bool {
    crate::state::selects(sel, e)
}

} // verus!
