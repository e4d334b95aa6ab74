//! Executable classification of a record against the held records.
use vstd::prelude::*;
use crate::identifier::SenderId;
use crate::lemmas::lemma_cost_in_prefix;
use crate::state::{
    PoolEntry, SenderState, SubPool, classify, cost_in, fee_ok, fees_ok_in, gapless, has_nonce,
    records,
};
use crate::transaction::ValidPoolTransaction;

verus! {

/// Whether a record of sender `s` with nonce `k` is held.
pub fn holds_nonce(entries: &Vec<PoolEntry>, s: SenderId, k: u64) -> (r: bool)
    ensures
        r == has_nonce(records(entries@), s, k as int),
{
    let ghost recs = records(entries@);
    let mut i: usize = 0;
    while i < entries.len()
        invariant
            0 <= i <= entries@.len(),
            recs == records(entries@),
            forall|j: int| 0 <= j < i ==> !((#[trigger] recs[j]).transaction_id.sender == s && recs[j].transaction_id.nonce == k),
        decreases entries@.len() - i,
    {
        let id = entries[i].transaction.transaction_id;
        if id.sender == s && id.nonce == k {
            assert(recs[i as int] == entries@[i as int].transaction);
            return true;
        }
        i = i + 1;
    }
    false
}

/// Whether every nonce of sender `s` in `[lo, hi)` is held.
pub fn is_gapless(entries: &Vec<PoolEntry>, s: SenderId, lo: u64, hi: u64) -> (r: bool)
    ensures
        r == gapless(records(entries@), s, lo as int, hi as int),
{
    let mut k: u64 = lo;
    while k < hi
        invariant
            lo <= k,
            forall|n: int| lo <= n < k ==> #[trigger] has_nonce(records(entries@), s, n),
        decreases hi - k,
    {
        if !holds_nonce(entries, s, k) {
            assert(!has_nonce(records(entries@), s, k as int));
            return false;
        }
        k = k + 1;
    }
    true
}

/// Whether `extra` plus the summed cost of the records of sender `s` with a nonce in
/// `[lo, m)` (or `[lo, m]` when `inclusive`) is at most `limit`.
pub fn cost_within(
    entries: &Vec<PoolEntry>,
    s: SenderId,
    lo: u64,
    m: u64,
    inclusive: bool,
    extra: u128,
    limit: u128,
) -> (r: bool)
    ensures
        r == (cost_in(records(entries@), s, lo as int, m + if inclusive { 1int } else { 0int }) + extra <= limit),
{
    let ghost hi: int = if inclusive { m + 1 } else { m as int };
    let ghost recs = records(entries@);
    if extra > limit {
        proof {
            lemma_cost_in_prefix(recs, s, lo as int, hi, 0);
        }
        return false;
    }
    let mut acc: u128 = extra;
    let mut i: usize = 0;
    assert(recs.take(0) =~= Seq::<ValidPoolTransaction>::empty());
    while i < entries.len()
        invariant
            0 <= i <= entries@.len(),
            recs == records(entries@),
            recs.len() == entries@.len(),
            hi == if inclusive { m + 1 } else { m as int },
            acc == cost_in(recs.take(i as int), s, lo as int, hi) + extra,
            acc <= limit,
        decreases entries@.len() - i,
    {
        let r = &entries[i].transaction;
        proof {
            assert(recs.take(i + 1).drop_last() =~= recs.take(i as int));
            assert(recs.take(i + 1).last() == *r);
            assert(cost_in(recs.take(i + 1), s, lo as int, hi) == cost_in(recs.take(i as int), s, lo as int, hi)
                + if crate::state::in_range(*r, s, lo as int, hi) { r.cost as int } else { 0int });
        }
        let in_range = r.transaction_id.sender == s && lo <= r.transaction_id.nonce && (
        r.transaction_id.nonce < m || (inclusive && r.transaction_id.nonce == m));
        assert(in_range == crate::state::in_range(*r, s, lo as int, hi));
        if in_range {
            if r.cost > limit - acc {
                proof {
                    lemma_cost_in_prefix(recs, s, lo as int, hi, i + 1);
                }
                return false;
            }
            acc = acc + r.cost;
        }
        i = i + 1;
    }
    assert(recs.take(entries@.len() as int) =~= recs);
    true
}

/// Whether every record of sender `s` with a nonce in `[lo, m]` can pay the fees.
pub fn fees_within(entries: &Vec<PoolEntry>, s: SenderId, lo: u64, m: u64, base_fee: u64, min_tip: u64) -> (r: bool)
    ensures
        r == fees_ok_in(records(entries@), s, lo as int, m + 1, base_fee, min_tip),
{
    let ghost recs = records(entries@);
    let mut i: usize = 0;
    while i < entries.len()
        invariant
            0 <= i <= entries@.len(),
            recs == records(entries@),
            forall|j: int|
                0 <= j < i && crate::state::in_range(#[trigger] recs[j], s, lo as int, m + 1) ==> fee_ok(
                    recs[j].transaction,
                    base_fee,
                    min_tip,
                ),
        decreases entries@.len() - i,
    {
        let r = &entries[i].transaction;
        assert(recs[i as int] == *r);
        if r.transaction_id.sender == s && lo <= r.transaction_id.nonce && r.transaction_id.nonce <= m {
            if !(r.transaction.max_fee_per_gas >= base_fee && r.transaction.max_priority_fee_per_gas >= min_tip) {
                return false;
            }
        }
        i = i + 1;
    }
    true
}

/// The sub-pool that `r` belongs in.
pub fn classify_record(
    entries: &Vec<PoolEntry>,
    senders: &Vec<SenderState>,
    base_fee: u64,
    min_tip: u64,
    r: &ValidPoolTransaction,
) -> (t: SubPool)
    requires
        r.transaction_id.sender < senders@.len(),
    ensures
        t == classify(records(entries@), senders@, base_fee, min_tip, *r),
{
    let s = r.transaction_id.sender;
    let sender = senders[s];
    let n = sender.state_nonce;
    let m = r.transaction_id.nonce;
    if !is_gapless(entries, s, n, m) || !cost_within(entries, s, n, m, true, 0, sender.balance) {
        SubPool::Queued
    } else if !fees_within(entries, s, n, m, base_fee, min_tip) {
        SubPool::BaseFee
    } else {
        SubPool::Pending
    }
}

} // verus!
