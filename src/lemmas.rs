//! Facts about the model's recursive definitions.
use vstd::prelude::*;
use crate::identifier::SenderId;
use crate::state::{
    PoolEntry, PoolState, Removal, RemovalReason, SubPool, classified, cost_in, count_in,
    enforced, entry_ok, evict_at, reclassified, records, removal_events, retained, selects, sound,
    total_size, unique_hashes, unique_ids, victim, wf_core, within_limits, worst_in,
};
use crate::transaction::ValidPoolTransaction;

verus! {

/// Costs are non-negative, so a prefix of the records sums to no more than the whole.
pub proof fn lemma_cost_in_prefix(recs: Seq<ValidPoolTransaction>, s: SenderId, lo: int, hi: int, k: int)
    requires
        0 <= k <= recs.len(),
    ensures
        cost_in(recs.take(k), s, lo, hi) <= cost_in(recs, s, lo, hi),
        cost_in(recs.take(k), s, lo, hi) >= 0,
    decreases recs.len(),
{
    if k == recs.len() {
        assert(recs.take(k) =~= recs);
        lemma_cost_in_nonneg(recs, s, lo, hi);
    } else {
        lemma_cost_in_prefix(recs.drop_last(), s, lo, hi, k);
        assert(recs.drop_last().take(k) =~= recs.take(k));
    }
}

pub proof fn lemma_cost_in_nonneg(recs: Seq<ValidPoolTransaction>, s: SenderId, lo: int, hi: int)
    ensures
        cost_in(recs, s, lo, hi) >= 0,
    decreases recs.len(),
{
    if recs.len() > 0 {
        lemma_cost_in_nonneg(recs.drop_last(), s, lo, hi);
    }
}

/// A wider nonce range sums to no less.
pub proof fn lemma_cost_in_mono(recs: Seq<ValidPoolTransaction>, s: SenderId, lo: int, hi1: int, hi2: int)
    requires
        hi1 <= hi2,
    ensures
        cost_in(recs, s, lo, hi1) <= cost_in(recs, s, lo, hi2),
    decreases recs.len(),
{
    if recs.len() > 0 {
        lemma_cost_in_mono(recs.drop_last(), s, lo, hi1, hi2);
    }
}

pub proof fn lemma_retained(es: Seq<PoolEntry>, sel: Removal)
    ensures
        forall|x: PoolEntry| #[trigger] retained(es, sel).contains(x) ==> es.contains(x) && !selects(sel, x),
        forall|i: int| 0 <= i < es.len() && !selects(sel, es[i]) ==> retained(es, sel).contains(#[trigger] es[i]),
        retained(es, sel).len() <= es.len(),
    decreases es.len(),
{
    if es.len() > 0 {
        let d = es.drop_last();
        lemma_retained(d, sel);
        assert forall|x: PoolEntry| #[trigger] retained(es, sel).contains(x) implies es.contains(x) && !selects(sel, x) by {
            if retained(d, sel).contains(x) {
                let j = choose|j: int| 0 <= j < d.len() && d[j] == x;
                assert(es[j] == x);
            } else {
                assert(x == es.last());
            }
        }
        assert forall|i: int| 0 <= i < es.len() && !selects(sel, es[i]) implies retained(es, sel).contains(#[trigger] es[i]) by {
            if i < es.len() - 1 {
                assert(d[i] == es[i]);
                assert(retained(d, sel).contains(d[i]));
                let j = choose|j: int| 0 <= j < retained(d, sel).len() && retained(d, sel)[j] == d[i];
                assert(retained(es, sel)[j] == es[i]);
            } else {
                assert(retained(es, sel).last() == es[i]);
            }
        }
    }
}

pub proof fn lemma_retained_unique(es: Seq<PoolEntry>, sel: Removal)
    requires
        unique_ids(es),
        unique_hashes(es),
    ensures
        unique_ids(retained(es, sel)),
        unique_hashes(retained(es, sel)),
    decreases es.len(),
{
    if es.len() > 0 {
        let d = es.drop_last();
        assert(unique_ids(d));
        assert(unique_hashes(d));
        lemma_retained_unique(d, sel);
        lemma_retained(d, sel);
        let r = retained(es, sel);
        let rd = retained(d, sel);
        if !selects(sel, es.last()) {
            assert forall|i: int| 0 <= i < rd.len() implies (#[trigger] rd[i]).transaction.transaction_id != es.last().transaction.transaction_id
                && rd[i].transaction.transaction.hash != es.last().transaction.transaction.hash by {
                assert(rd.contains(rd[i]));
                let j = choose|j: int| 0 <= j < d.len() && d[j] == rd[i];
                assert(es[j] == rd[i]);
            }
            assert forall|i: int, j: int| 0 <= i < r.len() && 0 <= j < r.len() && i != j implies
                (#[trigger] r[i]).transaction.transaction_id != (#[trigger] r[j]).transaction.transaction_id by {
                if i < rd.len() && j < rd.len() {
                    assert(r[i] == rd[i] && r[j] == rd[j]);
                } else if i < rd.len() {
                    assert(r[i] == rd[i]);
                } else {
                    assert(r[j] == rd[j]);
                }
            }
            assert forall|i: int, j: int| 0 <= i < r.len() && 0 <= j < r.len() && i != j implies
                (#[trigger] r[i]).transaction.transaction.hash != (#[trigger] r[j]).transaction.transaction.hash by {
                if i < rd.len() && j < rd.len() {
                    assert(r[i] == rd[i] && r[j] == rd[j]);
                } else if i < rd.len() {
                    assert(r[i] == rd[i]);
                } else {
                    assert(r[j] == rd[j]);
                }
            }
        }
    }
}

/// A selector that takes nothing keeps everything.
pub proof fn lemma_retained_none(es: Seq<PoolEntry>, sel: Removal)
    requires
        forall|i: int| 0 <= i < es.len() ==> !selects(sel, #[trigger] es[i]),
    ensures
        retained(es, sel) == es,
        removal_events(es, sel, RemovalReason::Discarded).len() == 0,
    decreases es.len(),
{
    if es.len() > 0 {
        let d = es.drop_last();
        assert forall|i: int| 0 <= i < d.len() implies !selects(sel, #[trigger] d[i]) by {
            assert(d[i] == es[i]);
        }
        lemma_retained_none(d, sel);
        assert(retained(es, sel) =~= es);
    }
}

/// Reclassification changes sub-pools only, and leaves every entry where it belongs.
pub proof fn lemma_reclassified(st: PoolState, cfg: crate::config::PoolConfig)
    ensures
        records(reclassified(st, cfg).entries) == records(st.entries),
        classified(reclassified(st, cfg), cfg),
        reclassified(st, cfg).entries.len() == st.entries.len(),
        forall|i: int| 0 <= i < st.entries.len() ==> (#[trigger] reclassified(st, cfg).entries[i]).transaction == st.entries[i].transaction,
{
    let r = reclassified(st, cfg);
    assert(records(r.entries) =~= records(st.entries));
}

pub proof fn lemma_counts(es: Seq<PoolEntry>)
    ensures
        count_in(es, SubPool::Pending) + count_in(es, SubPool::BaseFee) + count_in(es, SubPool::Queued) == es.len(),
    decreases es.len(),
{
    if es.len() > 0 {
        lemma_counts(es.drop_last());
    }
}

/// A sub-pool that holds something has a worst entry.
pub proof fn lemma_worst_in(es: Seq<PoolEntry>, tag: SubPool, k: int)
    requires
        0 <= k <= es.len(),
    ensures
        worst_in(es, tag, k) == -1 || (0 <= worst_in(es, tag, k) < k && es[worst_in(es, tag, k)].subpool == tag),
        count_in(es.take(k), tag) > 0 ==> worst_in(es, tag, k) >= 0,
    decreases k,
{
    if k > 0 {
        lemma_worst_in(es, tag, k - 1);
        assert(es.take(k).drop_last() =~= es.take(k - 1));
    }
}

pub proof fn lemma_size_empty(es: Seq<PoolEntry>)
    ensures
        es.len() == 0 ==> total_size(es) == 0,
{
}

/// When some bound is exceeded, there is an entry to evict.
pub proof fn lemma_victim(st: PoolState, cfg: crate::config::PoolConfig)
    requires
        !within_limits(st, cfg),
    ensures
        0 <= victim(st, cfg) < st.entries.len(),
{
    let es = st.entries;
    lemma_counts(es);
    lemma_size_empty(es);
    assert(es.take(es.len() as int) =~= es);
    lemma_worst_in(es, SubPool::Queued, es.len() as int);
    lemma_worst_in(es, SubPool::BaseFee, es.len() as int);
    lemma_worst_in(es, SubPool::Pending, es.len() as int);
}

/// Eviction ends with every bound respected.
pub proof fn lemma_enforced_within(st: PoolState, cfg: crate::config::PoolConfig)
    ensures
        within_limits(enforced(st, cfg), cfg),
    decreases st.entries.len(),
{
    if !within_limits(st, cfg) {
        lemma_victim(st, cfg);
        lemma_enforced_within(evict_at(st, cfg, victim(st, cfg)), cfg);
    }
}


pub proof fn lemma_total_size_prefix(es: Seq<PoolEntry>, k: int)
    requires
        0 <= k <= es.len(),
    ensures
        total_size(es.take(k)) <= total_size(es),
    decreases es.len(),
{
    if k == es.len() {
        assert(es.take(k) =~= es);
    } else {
        lemma_total_size_prefix(es.drop_last(), k);
        assert(es.drop_last().take(k) =~= es.take(k));
    }
}

/// Reclassifying a state whose records are sound gives a well-formed state.
pub proof fn lemma_reclassified_wf(st: PoolState, cfg: crate::config::PoolConfig)
    requires
        sound(st),
    ensures
        wf_core(reclassified(st, cfg), cfg),
{
    lemma_reclassified(st, cfg);
    let r = reclassified(st, cfg);
    assert forall|i: int| 0 <= i < r.entries.len() implies entry_ok(r, #[trigger] r.entries[i]) by {
        assert(r.entries[i].transaction == st.entries[i].transaction);
        assert(entry_ok(st, st.entries[i]));
    }
    assert forall|i: int, j: int| 0 <= i < r.entries.len() && 0 <= j < r.entries.len() && i != j implies
        (#[trigger] r.entries[i]).transaction.transaction_id != (#[trigger] r.entries[j]).transaction.transaction_id by {
        assert(r.entries[i].transaction == st.entries[i].transaction);
        assert(r.entries[j].transaction == st.entries[j].transaction);
    }
    assert forall|i: int, j: int| 0 <= i < r.entries.len() && 0 <= j < r.entries.len() && i != j implies
        (#[trigger] r.entries[i]).transaction.transaction.hash != (#[trigger] r.entries[j]).transaction.transaction.hash by {
        assert(r.entries[i].transaction == st.entries[i].transaction);
        assert(r.entries[j].transaction == st.entries[j].transaction);
    }
}

/// Evicting one entry keeps the state well-formed.
pub proof fn lemma_evict_wf(st: PoolState, cfg: crate::config::PoolConfig, v: int)
    requires
        wf_core(st, cfg),
        0 <= v < st.entries.len(),
    ensures
        wf_core(evict_at(st, cfg, v), cfg),
{
    let es = st.entries;
    let s1 = PoolState {
        entries: es.remove(v),
        events: st.events.push(crate::state::PoolEvent::Discarded(es[v].transaction.transaction.hash)),
        ..st
    };
    let rs = es.remove(v);
    assert forall|i: int| 0 <= i < rs.len() implies #[trigger] rs[i] == es[if i < v { i } else { i + 1 }] by {}
    assert forall|i: int| 0 <= i < rs.len() implies entry_ok(s1, #[trigger] s1.entries[i]) by {
        let k = if i < v { i } else { i + 1 };
        assert(rs[i] == es[k]);
        assert(entry_ok(st, es[k]));
    }
    assert forall|i: int, j: int| 0 <= i < rs.len() && 0 <= j < rs.len() && i != j implies
        (#[trigger] rs[i]).transaction.transaction_id != (#[trigger] rs[j]).transaction.transaction_id by {
        assert(rs[i] == es[if i < v { i } else { i + 1 }]);
        assert(rs[j] == es[if j < v { j } else { j + 1 }]);
    }
    assert forall|i: int, j: int| 0 <= i < rs.len() && 0 <= j < rs.len() && i != j implies
        (#[trigger] rs[i]).transaction.transaction.hash != (#[trigger] rs[j]).transaction.transaction.hash by {
        assert(rs[i] == es[if i < v { i } else { i + 1 }]);
        assert(rs[j] == es[if j < v { j } else { j + 1 }]);
    }
    lemma_reclassified_wf(s1, cfg);
}


/// Admission keeps the state well-formed.
pub proof fn lemma_admitted_wf(
    st: PoolState,
    cfg: crate::config::PoolConfig,
    origin: crate::transaction::TransactionOrigin,
    tx: crate::transaction::PoolTransaction,
    state_nonce: u64,
    balance: u128,
)
    requires
        wf_core(st, cfg),
        crate::admission::admission_error(st, cfg, origin, tx, state_nonce, balance).is_none(),
        crate::identifier::id_of(st.addresses, tx.sender) >= 0 || st.addresses.len() < usize::MAX,
    ensures
        wf_core(crate::admission::admitted(st, cfg, origin, tx, state_nonce, balance), cfg),
{
    let id = crate::admission::new_id(st, tx);
    let st1 = crate::admission::with_sender(st, tx, state_nonce, balance);
    let sel1 = Removal::Stale(id.sender, state_nonce);
    let sel2 = Removal::Id(id);
    let st2 = crate::state::remove_selected(st1, sel1, RemovalReason::Discarded);
    let st3 = crate::state::remove_selected(st2, sel2, RemovalReason::Replaced(tx.hash));
    let rec = crate::admission::new_record(st, origin, tx);
    let tag = crate::state::classify(records(st3.entries).push(rec), st3.senders, st3.base_fee, cfg.minimum_priority_fee, rec);
    let st4 = PoolState {
        entries: st3.entries.push(PoolEntry { transaction: rec, subpool: tag }),
        next_timestamp: if st.next_timestamp < u64::MAX { (st.next_timestamp + 1) as u64 } else { st.next_timestamp },
        events: st3.events.push(crate::state::PoolEvent::Added(rec, tag)),
        ..st3
    };
    let sid = crate::identifier::id_of(st.addresses, tx.sender);
    crate::lookup::lemma_first_index_facts(st.addresses, tx.sender);
    lemma_retained(st1.entries, sel1);
    lemma_retained(st2.entries, sel2);
    lemma_retained_unique(st1.entries, sel1);
    lemma_retained_unique(st2.entries, sel2);
    assert(st1.entries == st.entries);
    assert(id.sender < st1.senders.len());
    assert(st1.senders[id.sender as int].state_nonce == state_nonce);
    let es3 = st3.entries;
    assert forall|i: int| 0 <= i < es3.len() implies
        st.entries.contains(#[trigger] es3[i]) && !selects(sel1, es3[i]) && !selects(sel2, es3[i]) by {
        assert(es3.contains(es3[i]));
        assert(st2.entries.contains(es3[i]));
    }
    assert forall|i: int| 0 <= i < st4.entries.len() implies entry_ok(st4, #[trigger] st4.entries[i]) by {
        if i < es3.len() {
            let e = es3[i];
            assert(st4.entries[i] == e);
            assert(st.entries.contains(e));
            let j = choose|j: int| 0 <= j < st.entries.len() && st.entries[j] == e;
            assert(entry_ok(st, st.entries[j]));
            if e.transaction.transaction_id.sender != id.sender {
                assert(st1.senders[e.transaction.transaction_id.sender as int] == st.senders[e.transaction.transaction_id.sender as int]);
            }
        } else {
            assert(st4.entries[i].transaction == rec);
        }
    }
    assert forall|i: int, j: int| 0 <= i < st4.entries.len() && 0 <= j < st4.entries.len() && i != j implies
        (#[trigger] st4.entries[i]).transaction.transaction_id != (#[trigger] st4.entries[j]).transaction.transaction_id by {
        if i < es3.len() && j < es3.len() {
            assert(st4.entries[i] == es3[i] && st4.entries[j] == es3[j]);
        } else if i < es3.len() {
            assert(st4.entries[i] == es3[i]);
            assert(!selects(sel2, es3[i]));
        } else {
            assert(st4.entries[j] == es3[j]);
            assert(!selects(sel2, es3[j]));
        }
    }
    assert forall|i: int, j: int| 0 <= i < st4.entries.len() && 0 <= j < st4.entries.len() && i != j implies
        (#[trigger] st4.entries[i]).transaction.transaction.hash != (#[trigger] st4.entries[j]).transaction.transaction.hash by {
        if i < es3.len() && j < es3.len() {
            assert(st4.entries[i] == es3[i] && st4.entries[j] == es3[j]);
        } else if i < es3.len() {
            assert(st4.entries[i] == es3[i]);
            assert(st.entries.contains(es3[i]));
            let k = choose|k: int| 0 <= k < st.entries.len() && st.entries[k] == es3[i];
            assert(st.entries[k].transaction.transaction.hash != tx.hash);
        } else {
            assert(st4.entries[j] == es3[j]);
            assert(st.entries.contains(es3[j]));
            let k = choose|k: int| 0 <= k < st.entries.len() && st.entries[k] == es3[j];
            assert(st.entries[k].transaction.transaction.hash != tx.hash);
        }
    }
    lemma_reclassified_wf(st4, cfg);
}


/// Removal keeps the records sound.
pub proof fn lemma_removed_sound(st: PoolState, sel: Removal, reason: RemovalReason)
    requires
        sound(st),
    ensures
        sound(crate::state::remove_selected(st, sel, reason)),
{
    let r = crate::state::remove_selected(st, sel, reason);
    lemma_retained(st.entries, sel);
    lemma_retained_unique(st.entries, sel);
    assert forall|i: int| 0 <= i < r.entries.len() implies entry_ok(r, #[trigger] r.entries[i]) by {
        assert(r.entries.contains(r.entries[i]));
        let j = choose|j: int| 0 <= j < st.entries.len() && st.entries[j] == r.entries[i];
        assert(entry_ok(st, st.entries[j]));
    }
}

/// Applying a sender's new state keeps the records sound.
pub proof fn lemma_change_sound(st: PoolState, c: crate::canonical::ChangedAccount)
    requires
        sound(st),
    ensures
        sound(crate::canonical::apply_change(st, c)),
{
    let sid = crate::identifier::id_of(st.addresses, c.address);
    crate::lookup::lemma_first_index_facts(st.addresses, c.address);
    if sid >= 0 {
        let s1 = PoolState {
            senders: st.senders.update(sid, crate::state::SenderState { state_nonce: c.nonce, balance: c.balance }),
            ..st
        };
        let sel = Removal::Stale(sid as crate::identifier::SenderId, c.nonce);
        let r = crate::state::remove_selected(s1, sel, RemovalReason::Discarded);
        lemma_retained(s1.entries, sel);
        lemma_retained_unique(s1.entries, sel);
        assert forall|i: int| 0 <= i < r.entries.len() implies entry_ok(r, #[trigger] r.entries[i]) by {
            assert(r.entries.contains(r.entries[i]));
            let j = choose|j: int| 0 <= j < st.entries.len() && st.entries[j] == r.entries[i];
            assert(entry_ok(st, st.entries[j]));
            assert(!selects(sel, r.entries[i]));
        }
    }
}

pub proof fn lemma_changes_sound(st: PoolState, changes: Seq<crate::canonical::ChangedAccount>)
    requires
        sound(st),
    ensures
        sound(crate::canonical::apply_changes(st, changes)),
    decreases changes.len(),
{
    if changes.len() > 0 {
        lemma_changes_sound(st, changes.drop_last());
        lemma_change_sound(crate::canonical::apply_changes(st, changes.drop_last()), changes.last());
    }
}


/// The summed size depends on the records alone.
pub proof fn lemma_total_size_records(a: Seq<PoolEntry>, b: Seq<PoolEntry>)
    requires
        records(a) == records(b),
    ensures
        total_size(a) == total_size(b),
    decreases a.len(),
{
    assert(records(a).len() == a.len() && records(b).len() == b.len());
    if a.len() > 0 {
        assert(records(a.drop_last()) =~= records(a).drop_last());
        assert(records(b.drop_last()) =~= records(b).drop_last());
        assert(a.last().transaction == records(a).last());
        assert(b.last().transaction == records(b).last());
        lemma_total_size_records(a.drop_last(), b.drop_last());
    }
}

pub proof fn lemma_count_le_len(es: Seq<PoolEntry>, tag: SubPool)
    ensures
        count_in(es, tag) <= es.len(),
{
    lemma_counts(es);
}


/// The records of sender `q`, in order.
pub open spec fn sender_records(es: Seq<PoolEntry>, q: SenderId) -> Seq<ValidPoolTransaction>
    decreases es.len(),
{
    if es.len() == 0 {
        Seq::empty()
    } else if es.last().transaction.transaction_id.sender == q {
        sender_records(es.drop_last(), q).push(es.last().transaction)
    } else {
        sender_records(es.drop_last(), q)
    }
}

pub proof fn lemma_sender_records_contains(es: Seq<PoolEntry>, q: SenderId)
    ensures
        forall|x: ValidPoolTransaction| #[trigger] sender_records(es, q).contains(x) <==> (records(es).contains(x)
            && x.transaction_id.sender == q),
    decreases es.len(),
{
    if es.len() > 0 {
        let d = es.drop_last();
        lemma_sender_records_contains(d, q);
        assert(records(es).drop_last() =~= records(d));
        assert(records(es).last() == es.last().transaction);
        assert forall|x: ValidPoolTransaction| #[trigger] sender_records(es, q).contains(x) <==> (records(es).contains(x)
            && x.transaction_id.sender == q) by {
            if sender_records(es, q).contains(x) {
                if sender_records(d, q).contains(x) {
                    let j = choose|j: int| 0 <= j < records(d).len() && records(d)[j] == x;
                    assert(records(es)[j] == x);
                } else {
                    assert(x == es.last().transaction);
                    assert(records(es)[es.len() - 1] == x);
                }
            }
            if records(es).contains(x) && x.transaction_id.sender == q {
                let j = choose|j: int| 0 <= j < records(es).len() && records(es)[j] == x;
                if j < es.len() - 1 {
                    assert(records(d)[j] == x);
                    assert(records(d).contains(x));
                    assert(sender_records(d, q).contains(x));
                    let k = choose|k: int| 0 <= k < sender_records(d, q).len() && sender_records(d, q)[k] == x;
                    assert(sender_records(es, q)[k] == x);
                } else {
                    assert(sender_records(es, q).last() == x);
                }
            }
        }
    }
}

pub proof fn lemma_sender_records_cost(es: Seq<PoolEntry>, q: SenderId, lo: int, hi: int)
    ensures
        cost_in(records(es), q, lo, hi) == cost_in(sender_records(es, q), q, lo, hi),
    decreases es.len(),
{
    if es.len() > 0 {
        let d = es.drop_last();
        lemma_sender_records_cost(d, q, lo, hi);
        assert(records(es).drop_last() =~= records(d));
        if es.last().transaction.transaction_id.sender == q {
            assert(sender_records(es, q).drop_last() =~= sender_records(d, q));
        }
    }
}

/// A record's sub-pool depends only on its sender's records, its sender's state and the fees.
pub proof fn lemma_classify_frame(
    a: Seq<PoolEntry>,
    b: Seq<PoolEntry>,
    sa: Seq<crate::state::SenderState>,
    sb: Seq<crate::state::SenderState>,
    base_fee: u64,
    min_tip: u64,
    r: ValidPoolTransaction,
)
    requires
        sender_records(a, r.transaction_id.sender) == sender_records(b, r.transaction_id.sender),
        sa[r.transaction_id.sender as int] == sb[r.transaction_id.sender as int],
    ensures
        crate::state::classify(records(a), sa, base_fee, min_tip, r) == crate::state::classify(records(b), sb, base_fee, min_tip, r),
{
    let q = r.transaction_id.sender;
    let n = sa[q as int].state_nonce as int;
    let m = r.transaction_id.nonce as int;
    lemma_sender_records_contains(a, q);
    lemma_sender_records_contains(b, q);
    lemma_sender_records_cost(a, q, n, m + 1);
    lemma_sender_records_cost(b, q, n, m + 1);
    let ra = records(a);
    let rb = records(b);
    assert forall|k: int| crate::state::has_nonce(ra, q, k) implies #[trigger] crate::state::has_nonce(rb, q, k) by {
        let j = choose|j: int| 0 <= j < ra.len() && (#[trigger] ra[j]).transaction_id.sender == q && ra[j].transaction_id.nonce == k;
        assert(ra.contains(ra[j]));
        assert(sender_records(b, q).contains(ra[j]));
        let i = choose|i: int| 0 <= i < rb.len() && rb[i] == ra[j];
        assert(rb[i].transaction_id.nonce == k);
    }
    assert forall|k: int| crate::state::has_nonce(rb, q, k) implies #[trigger] crate::state::has_nonce(ra, q, k) by {
        let j = choose|j: int| 0 <= j < rb.len() && (#[trigger] rb[j]).transaction_id.sender == q && rb[j].transaction_id.nonce == k;
        assert(rb.contains(rb[j]));
        assert(sender_records(a, q).contains(rb[j]));
        let i = choose|i: int| 0 <= i < ra.len() && ra[i] == rb[j];
        assert(ra[i].transaction_id.nonce == k);
    }
    assert(crate::state::gapless(ra, q, n, m) == crate::state::gapless(rb, q, n, m));
    assert(crate::state::fees_ok_in(ra, q, n, m + 1, base_fee, min_tip) == crate::state::fees_ok_in(rb, q, n, m + 1, base_fee, min_tip)) by {
        if crate::state::fees_ok_in(ra, q, n, m + 1, base_fee, min_tip) {
            assert forall|j: int| 0 <= j < rb.len() && crate::state::in_range(#[trigger] rb[j], q, n, m + 1) implies crate::state::fee_ok(rb[j].transaction, base_fee, min_tip) by {
                assert(rb.contains(rb[j]));
                assert(sender_records(a, q).contains(rb[j]));
                let i = choose|i: int| 0 <= i < ra.len() && ra[i] == rb[j];
                assert(crate::state::in_range(ra[i], q, n, m + 1));
            }
        }
        if crate::state::fees_ok_in(rb, q, n, m + 1, base_fee, min_tip) {
            assert forall|j: int| 0 <= j < ra.len() && crate::state::in_range(#[trigger] ra[j], q, n, m + 1) implies crate::state::fee_ok(ra[j].transaction, base_fee, min_tip) by {
                assert(ra.contains(ra[j]));
                assert(sender_records(b, q).contains(ra[j]));
                let i = choose|i: int| 0 <= i < rb.len() && rb[i] == ra[j];
                assert(crate::state::in_range(rb[i], q, n, m + 1));
            }
        }
    }
}


pub proof fn lemma_sender_records_push(es: Seq<PoolEntry>, x: PoolEntry, q: SenderId)
    requires
        x.transaction.transaction_id.sender != q,
    ensures
        sender_records(es.push(x), q) == sender_records(es, q),
{
    assert(es.push(x).drop_last() =~= es);
}

/// A removal that takes only records of other senders keeps sender `q`'s records.
pub proof fn lemma_sender_records_retained(es: Seq<PoolEntry>, sel: Removal, q: SenderId)
    requires
        forall|i: int| 0 <= i < es.len() && selects(sel, #[trigger] es[i]) ==> es[i].transaction.transaction_id.sender != q,
    ensures
        sender_records(retained(es, sel), q) == sender_records(es, q),
    decreases es.len(),
{
    if es.len() > 0 {
        let d = es.drop_last();
        assert forall|i: int| 0 <= i < d.len() && selects(sel, #[trigger] d[i]) implies d[i].transaction.transaction_id.sender != q by {
            assert(d[i] == es[i]);
        }
        lemma_sender_records_retained(d, sel, q);
        if !selects(sel, es.last()) {
            assert(retained(es, sel).drop_last() =~= retained(d, sel));
        }
    }
}

/// Removing a record of another sender keeps sender `q`'s records.
pub proof fn lemma_sender_records_remove(es: Seq<PoolEntry>, v: int, q: SenderId)
    requires
        0 <= v < es.len(),
        es[v].transaction.transaction_id.sender != q,
    ensures
        sender_records(es.remove(v), q) == sender_records(es, q),
    decreases es.len(),
{
    if v == es.len() - 1 {
        assert(es.remove(v) =~= es.drop_last());
    } else {
        let d = es.drop_last();
        lemma_sender_records_remove(d, v, q);
        assert(es.remove(v).drop_last() =~= d.remove(v));
        assert(es.remove(v).last() == es.last());
    }
}

/// After a change confined to sender `a`, every entry of another sender whose sub-pool was
/// right before is still right.
pub proof fn lemma_other_senders_classified(
    before: PoolState,
    after: PoolState,
    cfg: crate::config::PoolConfig,
    a: SenderId,
)
    requires
        classified(before, cfg),
        before.base_fee == after.base_fee,
        forall|q: SenderId| q != a ==> #[trigger] sender_records(after.entries, q) == sender_records(before.entries, q),
        forall|q: int| 0 <= q < before.senders.len() && q != a ==> #[trigger] after.senders[q] == before.senders[q],
        forall|i: int| 0 <= i < after.entries.len() && (#[trigger] after.entries[i]).transaction.transaction_id.sender != a
            ==> before.entries.contains(after.entries[i]),
        forall|i: int| 0 <= i < before.entries.len() ==> (#[trigger] before.entries[i]).transaction.transaction_id.sender
            < before.senders.len(),
    ensures
        forall|i: int| 0 <= i < after.entries.len() && (#[trigger] after.entries[i]).transaction.transaction_id.sender != a
            ==> after.entries[i].subpool == crate::state::tag_of(after, cfg, after.entries[i].transaction),
{
    assert forall|i: int| 0 <= i < after.entries.len() && (#[trigger] after.entries[i]).transaction.transaction_id.sender != a
        implies after.entries[i].subpool == crate::state::tag_of(after, cfg, after.entries[i].transaction) by {
        let e = after.entries[i];
        let j = choose|j: int| 0 <= j < before.entries.len() && before.entries[j] == e;
        assert(before.entries[j] == e);
        let q = e.transaction.transaction_id.sender;
        assert(sender_records(after.entries, q) == sender_records(before.entries, q));
        lemma_classify_frame(after.entries, before.entries, after.senders, before.senders, before.base_fee,
            cfg.minimum_priority_fee, e.transaction);
    }
}

} // verus!
