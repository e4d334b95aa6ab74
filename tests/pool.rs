use transaction_pool::best::BestTransactions;
use transaction_pool::canonical::{CanonicalStateUpdate, ChangedAccount};
use transaction_pool::config::PoolConfig;
use transaction_pool::error::{InvalidPoolTransactionError, PoolError, TransactionValidationOutcome};
use transaction_pool::primitives::{Address, TxHash};
use transaction_pool::state::{PoolEvent, SubPool};
use transaction_pool::transaction::{PoolTransaction, TransactionOrigin, ValidPoolTransaction};
use transaction_pool::txpool::TxPool;

fn addr(b: u8) -> Address {
    Address([b; 20])
}

fn hash(sender: u8, nonce: u64, tag: u8) -> TxHash {
    let mut h = [0u8; 32];
    h[0] = sender;
    h[1..9].copy_from_slice(&nonce.to_be_bytes());
    h[9] = tag;
    TxHash(h)
}

/// A transaction of cost `gas_limit * fee_cap`; its priority at base fee zero is `min(fee_cap, tip)`.
fn tx(sender: u8, nonce: u64, fee_cap: u64, tip: u64, gas_limit: u64, tag: u8) -> PoolTransaction {
    PoolTransaction {
        hash: hash(sender, nonce, tag),
        sender: addr(sender),
        nonce,
        gas_limit,
        max_fee_per_gas: fee_cap,
        max_priority_fee_per_gas: tip,
        value: 0,
        size: 100,
    }
}

fn valid(t: PoolTransaction, state_nonce: u64, balance: u128) -> TransactionValidationOutcome {
    TransactionValidationOutcome::Valid { balance, state_nonce, transaction: t }
}

fn no_change(base_fee: u64) -> CanonicalStateUpdate {
    CanonicalStateUpdate { pending_block_base_fee: base_fee, mined_transactions: vec![], changed_accounts: vec![] }
}

fn collect(mut it: BestTransactions) -> Vec<ValidPoolTransaction> {
    let mut out = vec![];
    while let Some(t) = it.next() {
        out.push(t);
    }
    out
}

#[test]
fn nonce_gap_promotion() {
    let mut pool = TxPool::new(PoolConfig::default());
    let t7 = tx(1, 7, 100, 1, 1, 0);
    let t8 = tx(1, 8, 100, 1, 1, 0);
    assert_eq!(pool.add_transaction(TransactionOrigin::External, valid(t7, 5, 1000)), Ok(t7.hash));
    assert_eq!(pool.add_transaction(TransactionOrigin::External, valid(t8, 5, 1000)), Ok(t8.hash));
    assert_eq!(pool.subpool_of(&t7.hash), Some(SubPool::Queued));
    assert_eq!(pool.subpool_of(&t8.hash), Some(SubPool::Queued));
    let t5 = tx(1, 5, 100, 1, 1, 0);
    let t6 = tx(1, 6, 100, 1, 1, 0);
    assert_eq!(pool.add_transaction(TransactionOrigin::External, valid(t5, 5, 1000)), Ok(t5.hash));
    assert_eq!(pool.add_transaction(TransactionOrigin::External, valid(t6, 5, 1000)), Ok(t6.hash));
    for t in [t5, t6, t7, t8] {
        assert_eq!(pool.subpool_of(&t.hash), Some(SubPool::Pending));
    }
    let nonces: Vec<u64> = pool.transactions_in(SubPool::Pending).iter().map(|r| r.nonce()).collect();
    let mut sorted = nonces.clone();
    sorted.sort();
    assert_eq!(sorted, vec![5, 6, 7, 8]);
}

#[test]
fn base_fee_parking() {
    let mut pool = TxPool::new(PoolConfig::default());
    pool.update_base_fee(100);
    let t = tx(1, 5, 50, 10, 1, 0);
    assert_eq!(pool.add_transaction(TransactionOrigin::External, valid(t, 5, 1000)), Ok(t.hash));
    assert_eq!(pool.subpool_of(&t.hash), Some(SubPool::BaseFee));
    let _ = pool.take_events();
    pool.on_canonical_state_change(no_change(40));
    assert_eq!(pool.subpool_of(&t.hash), Some(SubPool::Pending));
    let events = pool.take_events();
    assert!(events.iter().any(|e| matches!(e, PoolEvent::Moved(h, SubPool::Pending) if *h == t.hash)));
}

#[test]
fn replacement_needs_bump() {
    let mut pool = TxPool::new(PoolConfig::default());
    let first = tx(1, 5, 1000, 100, 1, 0);
    assert_eq!(pool.add_transaction(TransactionOrigin::External, valid(first, 5, 10_000)), Ok(first.hash));
    let low = tx(1, 5, 1000, 105, 1, 1);
    assert_eq!(
        pool.add_transaction(TransactionOrigin::External, valid(low, 5, 10_000)),
        Err(PoolError::ReplacementUnderpriced)
    );
    assert!(pool.contains(&first.hash));
    let exact = tx(1, 5, 1000, 110, 1, 2);
    assert_eq!(
        pool.add_transaction(TransactionOrigin::External, valid(exact, 5, 10_000)),
        Err(PoolError::ReplacementUnderpriced)
    );
    let high = tx(1, 5, 1000, 111, 1, 3);
    assert_eq!(pool.add_transaction(TransactionOrigin::External, valid(high, 5, 10_000)), Ok(high.hash));
    assert!(!pool.contains(&first.hash));
    assert_eq!(pool.len(), 1);
    let events = pool.take_events();
    assert!(events
        .iter()
        .any(|e| matches!(e, PoolEvent::Replaced(old, new) if *old == first.hash && *new == high.hash)));
}

#[test]
fn local_replacement_uses_local_bump() {
    let mut pool = TxPool::new(PoolConfig::default());
    let first = tx(1, 5, 1000, 100, 1, 0);
    assert_eq!(pool.add_transaction(TransactionOrigin::Local, valid(first, 5, 10_000)), Ok(first.hash));
    let next = tx(1, 5, 1000, 101, 1, 1);
    assert_eq!(pool.add_transaction(TransactionOrigin::Local, valid(next, 5, 10_000)), Ok(next.hash));
    let same = tx(1, 5, 1000, 101, 1, 2);
    assert_eq!(
        pool.add_transaction(TransactionOrigin::Local, valid(same, 5, 10_000)),
        Err(PoolError::ReplacementUnderpriced)
    );
}

#[test]
fn eviction_discards_lowest() {
    let config = PoolConfig { max_count: 3, ..PoolConfig::default() };
    let mut pool = TxPool::new(config);
    let txs: Vec<PoolTransaction> = [(1u8, 10u64), (2, 20), (3, 30), (4, 40)]
        .iter()
        .map(|&(s, p)| tx(s, 0, 1000, p, 1, 0))
        .collect();
    let outcomes = txs.iter().map(|t| valid(*t, 0, 10_000)).collect();
    let results = pool.add_transactions(TransactionOrigin::External, outcomes);
    assert_eq!(results[0], Err(PoolError::DiscardedOnInsert(txs[0].hash)));
    assert_eq!(results[1], Ok(txs[1].hash));
    assert_eq!(results[2], Ok(txs[2].hash));
    assert_eq!(results[3], Ok(txs[3].hash));
    assert_eq!(pool.len(), 3);
    assert!(!pool.contains(&txs[0].hash));
    let events = pool.take_events();
    assert!(events.iter().any(|e| matches!(e, PoolEvent::Discarded(h) if *h == txs[0].hash)));
}

fn iterator_setup() -> (TxPool, PoolTransaction, PoolTransaction, PoolTransaction) {
    let mut pool = TxPool::new(PoolConfig::default());
    let s5 = tx(1, 5, 1000, 10, 1, 0);
    let s6 = tx(1, 6, 1000, 100, 1, 0);
    let t2 = tx(2, 2, 1000, 50, 1, 0);
    assert_eq!(pool.add_transaction(TransactionOrigin::External, valid(s5, 5, 10_000)), Ok(s5.hash));
    assert_eq!(pool.add_transaction(TransactionOrigin::External, valid(s6, 5, 10_000)), Ok(s6.hash));
    assert_eq!(pool.add_transaction(TransactionOrigin::External, valid(t2, 2, 10_000)), Ok(t2.hash));
    assert_eq!(pool.status().pending, 3);
    (pool, s5, s6, t2)
}

#[test]
fn best_iterator_respects_nonce_order() {
    let (pool, s5, s6, t2) = iterator_setup();
    let yielded: Vec<TxHash> = collect(pool.best_transactions()).iter().map(|r| r.hash()).collect();
    // S/6 ranks highest but waits for S/5; of the two that may go first, T/2 ranks above S/5.
    assert_eq!(yielded, vec![t2.hash, s5.hash, s6.hash]);
    let pos = |h: TxHash| yielded.iter().position(|x| *x == h).unwrap();
    assert!(pos(s5.hash) < pos(s6.hash));
}

#[test]
fn mark_invalid_suppresses_sender() {
    let (pool, _s5, _s6, t2) = iterator_setup();
    let mut it = pool.best_transactions();
    let s5_record = pool.get(&_s5.hash).unwrap();
    it.mark_invalid(&s5_record);
    let yielded: Vec<TxHash> = collect(it).iter().map(|r| r.hash()).collect();
    assert_eq!(yielded, vec![t2.hash]);
}

#[test]
fn insert_then_mined_restores_pool() {
    let mut pool = TxPool::new(PoolConfig::default());
    let a = tx(1, 0, 1000, 10, 1, 0);
    let b = tx(2, 3, 1000, 10, 1, 0);
    assert!(pool.add_transaction(TransactionOrigin::External, valid(a, 0, 10_000)).is_ok());
    assert!(pool.add_transaction(TransactionOrigin::External, valid(b, 1, 10_000)).is_ok());
    let before: Vec<(TxHash, Option<SubPool>)> = [a, b].iter().map(|t| (t.hash, pool.subpool_of(&t.hash))).collect();
    let c = tx(1, 1, 1000, 10, 1, 0);
    assert_eq!(pool.add_transaction(TransactionOrigin::External, valid(c, 0, 10_000)), Ok(c.hash));
    pool.on_canonical_state_change(CanonicalStateUpdate {
        pending_block_base_fee: 0,
        mined_transactions: vec![c.hash],
        changed_accounts: vec![],
    });
    let after: Vec<(TxHash, Option<SubPool>)> = [a, b].iter().map(|t| (t.hash, pool.subpool_of(&t.hash))).collect();
    assert_eq!(before, after);
    assert_eq!(pool.len(), 2);
    assert!(!pool.contains(&c.hash));
}

#[test]
fn duplicate_is_already_known() {
    let mut pool = TxPool::new(PoolConfig::default());
    let t = tx(1, 0, 1000, 10, 1, 0);
    assert_eq!(pool.add_transaction(TransactionOrigin::External, valid(t, 0, 10_000)), Ok(t.hash));
    assert_eq!(pool.add_transaction(TransactionOrigin::External, valid(t, 0, 10_000)), Err(PoolError::AlreadyKnown));
    assert_eq!(pool.len(), 1);
}

#[test]
fn base_fee_round_trip_restores_partition() {
    let mut pool = TxPool::new(PoolConfig::default());
    let a = tx(1, 0, 80, 5, 1, 0);
    let b = tx(1, 1, 200, 5, 1, 0);
    let c = tx(2, 0, 150, 5, 1, 0);
    for t in [a, b, c] {
        assert!(pool.add_transaction(TransactionOrigin::External, valid(t, 0, 10_000)).is_ok());
    }
    let snapshot = |p: &TxPool| -> Vec<Option<SubPool>> { [a, b, c].iter().map(|t| p.subpool_of(&t.hash)).collect() };
    let before = snapshot(&pool);
    pool.on_canonical_state_change(no_change(100));
    assert_eq!(pool.subpool_of(&a.hash), Some(SubPool::BaseFee));
    assert_eq!(pool.subpool_of(&b.hash), Some(SubPool::BaseFee));
    assert_eq!(pool.subpool_of(&c.hash), Some(SubPool::Pending));
    pool.on_canonical_state_change(no_change(0));
    assert_eq!(snapshot(&pool), before);
}

#[test]
fn status_totals_match_subpools() {
    let mut pool = TxPool::new(PoolConfig::default());
    pool.update_base_fee(50);
    assert!(pool.add_transaction(TransactionOrigin::External, valid(tx(1, 0, 100, 5, 1, 0), 0, 10_000)).is_ok());
    assert!(pool.add_transaction(TransactionOrigin::External, valid(tx(2, 0, 10, 5, 1, 0), 0, 10_000)).is_ok());
    assert!(pool.add_transaction(TransactionOrigin::External, valid(tx(3, 4, 100, 5, 1, 0), 0, 10_000)).is_ok());
    let status = pool.status();
    assert_eq!((status.pending, status.basefee, status.queued), (1, 1, 1));
    assert_eq!(status.pending + status.basefee + status.queued, pool.len());
    assert_eq!(pool.transactions_in(SubPool::Pending).len(), status.pending);
    assert_eq!(pool.transactions_in(SubPool::BaseFee).len(), status.basefee);
    assert_eq!(pool.transactions_in(SubPool::Queued).len(), status.queued);
}

#[test]
fn len_zero_iff_empty() {
    let mut pool = TxPool::new(PoolConfig::default());
    assert_eq!(pool.len(), 0);
    assert!(pool.is_empty());
    let t = tx(1, 0, 1000, 10, 1, 0);
    assert!(pool.add_transaction(TransactionOrigin::External, valid(t, 0, 10_000)).is_ok());
    assert_eq!(pool.len(), 1);
    assert!(!pool.is_empty());
    let removed = pool.remove_transactions(vec![t.hash]);
    assert_eq!(removed.len(), 1);
    assert!(pool.is_empty());
}

#[test]
fn limits_hold_after_mutations() {
    let config = PoolConfig { max_count: 4, max_bytes: 350, queued_max_count: 1, ..PoolConfig::default() };
    let mut pool = TxPool::new(config);
    for s in 1..=6u8 {
        let _ = pool.add_transaction(TransactionOrigin::External, valid(tx(s, u64::from(s % 2) * 3, 1000, u64::from(s), 1, 0), 0, 10_000));
        assert!(pool.len() <= 4);
        assert!(pool.len() * 100 <= 350);
        assert!(pool.status().queued <= 1);
    }
}

#[test]
fn nonce_too_low() {
    let mut pool = TxPool::new(PoolConfig::default());
    let t = tx(1, 3, 1000, 10, 1, 0);
    assert_eq!(pool.add_transaction(TransactionOrigin::External, valid(t, 4, 10_000)), Err(PoolError::NonceTooLow));
    assert!(pool.is_empty());
}

#[test]
fn nonce_gap_too_large() {
    let mut pool = TxPool::new(PoolConfig::default());
    let ok = tx(1, 16, 1000, 10, 1, 0);
    assert!(pool.add_transaction(TransactionOrigin::External, valid(ok, 0, 10_000)).is_ok());
    let far = tx(1, 17, 1000, 10, 1, 0);
    assert_eq!(pool.add_transaction(TransactionOrigin::External, valid(far, 0, 10_000)), Err(PoolError::NonceGapTooLarge));
}

#[test]
fn fee_cap_below_minimum() {
    let config = PoolConfig { minimum_priority_fee: 5, ..PoolConfig::default() };
    let mut pool = TxPool::new(config);
    let t = tx(1, 0, 4, 4, 1, 0);
    assert_eq!(pool.add_transaction(TransactionOrigin::External, valid(t, 0, 10_000)), Err(PoolError::FeeCapBelowMinimum));
    let parked = tx(2, 0, 100, 4, 1, 0);
    assert!(pool.add_transaction(TransactionOrigin::External, valid(parked, 0, 10_000)).is_ok());
    assert_eq!(pool.subpool_of(&parked.hash), Some(SubPool::BaseFee));
}

#[test]
fn insufficient_funds() {
    let mut pool = TxPool::new(PoolConfig::default());
    let a = tx(1, 0, 100, 1, 6, 0);
    assert!(pool.add_transaction(TransactionOrigin::External, valid(a, 0, 1000)).is_ok());
    let b = tx(1, 1, 100, 1, 5, 0);
    assert_eq!(pool.add_transaction(TransactionOrigin::External, valid(b, 0, 1000)), Err(PoolError::InsufficientFunds));
    let c = tx(1, 1, 100, 1, 4, 0);
    assert!(pool.add_transaction(TransactionOrigin::External, valid(c, 0, 1000)).is_ok());
    let huge = PoolTransaction { value: u128::MAX, ..tx(2, 0, 1, 1, 1, 0) };
    assert_eq!(pool.add_transaction(TransactionOrigin::External, valid(huge, 0, u128::MAX)), Err(PoolError::InsufficientFunds));
}

#[test]
fn pool_full_refuses_lowest() {
    let config = PoolConfig { max_count: 2, ..PoolConfig::default() };
    let mut pool = TxPool::new(config);
    assert!(pool.add_transaction(TransactionOrigin::External, valid(tx(1, 0, 1000, 20, 1, 0), 0, 10_000)).is_ok());
    assert!(pool.add_transaction(TransactionOrigin::External, valid(tx(2, 0, 1000, 30, 1, 0), 0, 10_000)).is_ok());
    assert_eq!(
        pool.add_transaction(TransactionOrigin::External, valid(tx(3, 0, 1000, 10, 1, 0), 0, 10_000)),
        Err(PoolError::PoolFull)
    );
    assert_eq!(pool.len(), 2);
}

#[test]
fn discarded_on_single_insert() {
    let config = PoolConfig { max_count: 1, ..PoolConfig::default() };
    let mut pool = TxPool::new(config);
    let keep = tx(1, 0, 1000, 50, 1, 0);
    assert!(pool.add_transaction(TransactionOrigin::External, valid(keep, 0, 10_000)).is_ok());
    let gapped = tx(2, 3, 1000, 60, 1, 0);
    assert_eq!(
        pool.add_transaction(TransactionOrigin::External, valid(gapped, 0, 10_000)),
        Err(PoolError::DiscardedOnInsert(gapped.hash))
    );
    assert!(pool.contains(&keep.hash));
}

#[test]
fn invalid_outcome_is_forwarded() {
    let mut pool = TxPool::new(PoolConfig::default());
    let t = tx(1, 0, 1000, 10, 1, 0);
    let r = pool.add_transaction(
        TransactionOrigin::External,
        TransactionValidationOutcome::Invalid(t, InvalidPoolTransactionError::InvalidSignature),
    );
    assert_eq!(r, Err(PoolError::Invalid(InvalidPoolTransactionError::InvalidSignature)));
    assert!(pool.is_empty());
    assert!(pool.take_events().iter().any(|e| matches!(e, PoolEvent::Invalid(h) if *h == t.hash)));
}

#[test]
fn balance_drop_demotes_to_queued() {
    let mut pool = TxPool::new(PoolConfig::default());
    let a = tx(1, 0, 100, 1, 1, 0);
    let b = tx(1, 1, 100, 1, 1, 0);
    assert!(pool.add_transaction(TransactionOrigin::External, valid(a, 0, 1000)).is_ok());
    assert!(pool.add_transaction(TransactionOrigin::External, valid(b, 0, 1000)).is_ok());
    pool.on_canonical_state_change(CanonicalStateUpdate {
        pending_block_base_fee: 0,
        mined_transactions: vec![],
        changed_accounts: vec![ChangedAccount { address: addr(1), nonce: 0, balance: 150 }],
    });
    assert_eq!(pool.subpool_of(&a.hash), Some(SubPool::Pending));
    assert_eq!(pool.subpool_of(&b.hash), Some(SubPool::Queued));
}

#[test]
fn nonce_advance_drops_stale() {
    let mut pool = TxPool::new(PoolConfig::default());
    let a = tx(1, 0, 100, 1, 1, 0);
    let b = tx(1, 1, 100, 1, 1, 0);
    assert!(pool.add_transaction(TransactionOrigin::External, valid(a, 0, 1000)).is_ok());
    assert!(pool.add_transaction(TransactionOrigin::External, valid(b, 0, 1000)).is_ok());
    pool.on_canonical_state_change(CanonicalStateUpdate {
        pending_block_base_fee: 0,
        mined_transactions: vec![],
        changed_accounts: vec![ChangedAccount { address: addr(1), nonce: 1, balance: 1000 }],
    });
    assert!(!pool.contains(&a.hash));
    assert_eq!(pool.subpool_of(&b.hash), Some(SubPool::Pending));
}

#[test]
fn removal_demotes_successors() {
    let mut pool = TxPool::new(PoolConfig::default());
    let a = tx(1, 0, 100, 1, 1, 0);
    let b = tx(1, 1, 100, 1, 1, 0);
    assert!(pool.add_transaction(TransactionOrigin::External, valid(a, 0, 1000)).is_ok());
    assert!(pool.add_transaction(TransactionOrigin::External, valid(b, 0, 1000)).is_ok());
    let removed = pool.remove_transactions(vec![a.hash]);
    assert_eq!(removed.len(), 1);
    assert_eq!(removed[0].hash(), a.hash);
    assert_eq!(pool.subpool_of(&b.hash), Some(SubPool::Queued));
}

#[test]
fn record_fields_on_admission() {
    let mut pool = TxPool::new(PoolConfig::default());
    pool.update_base_fee(30);
    let t = PoolTransaction { value: 7, ..tx(9, 2, 100, 50, 21, 0) };
    assert!(pool.add_transaction(TransactionOrigin::Private, valid(t, 2, 100_000)).is_ok());
    let r = pool.get(&t.hash).unwrap();
    assert_eq!(r.cost, 21 * 100 + 7);
    assert_eq!(r.priority, 50);
    assert!(!r.propagate);
    assert_eq!(r.transaction_id.nonce, 2);
    assert_eq!(pool.sender_id(&addr(9)), Some(r.transaction_id.sender));
    let u = tx(8, 0, 100, 90, 1, 0);
    assert!(pool.add_transaction(TransactionOrigin::External, valid(u, 0, 100_000)).is_ok());
    let ru = pool.get(&u.hash).unwrap();
    assert_eq!(ru.priority, 70);
    assert!(ru.propagate);
    assert!(ru.timestamp > r.timestamp);
}

#[test]
fn get_all_skips_unknown() {
    let mut pool = TxPool::new(PoolConfig::default());
    let a = tx(1, 0, 1000, 10, 1, 0);
    let b = tx(2, 0, 1000, 10, 1, 0);
    assert!(pool.add_transaction(TransactionOrigin::External, valid(a, 0, 10_000)).is_ok());
    assert!(pool.add_transaction(TransactionOrigin::External, valid(b, 0, 10_000)).is_ok());
    let unknown = hash(9, 9, 9);
    let found: Vec<TxHash> = pool.get_all(&vec![b.hash, unknown, a.hash]).iter().map(|r| r.hash()).collect();
    assert_eq!(found, vec![b.hash, a.hash]);
}

#[test]
fn sender_transactions_lists_one_sender() {
    let mut pool = TxPool::new(PoolConfig::default());
    for (s, n) in [(1u8, 0u64), (2, 0), (1, 1), (1, 3)] {
        assert!(pool.add_transaction(TransactionOrigin::External, valid(tx(s, n, 1000, 10, 1, 0), 0, 10_000)).is_ok());
    }
    let id = pool.sender_id(&addr(1)).unwrap();
    let nonces: Vec<u64> = pool.sender_transactions(id).iter().map(|r| r.nonce()).collect();
    assert_eq!(nonces, vec![0, 1, 3]);
    assert_eq!(pool.sender_id(&addr(7)), None);
}

#[test]
fn events_for_admission_promotion_and_mining() {
    let mut pool = TxPool::new(PoolConfig::default());
    let t1 = tx(1, 1, 1000, 10, 1, 0);
    let t0 = tx(1, 0, 1000, 10, 1, 0);
    assert!(pool.add_transaction(TransactionOrigin::External, valid(t1, 0, 10_000)).is_ok());
    assert!(pool.add_transaction(TransactionOrigin::External, valid(t0, 0, 10_000)).is_ok());
    let events = pool.take_events();
    assert_eq!(events.len(), 3);
    assert!(matches!(events[0], PoolEvent::Added(r, SubPool::Queued) if r.hash() == t1.hash));
    assert!(matches!(events[1], PoolEvent::Added(r, SubPool::Pending) if r.hash() == t0.hash));
    assert!(matches!(events[2], PoolEvent::Moved(h, SubPool::Pending) if h == t1.hash));
    pool.on_canonical_state_change(CanonicalStateUpdate {
        pending_block_base_fee: 0,
        mined_transactions: vec![t0.hash],
        changed_accounts: vec![ChangedAccount { address: addr(1), nonce: 1, balance: 10_000 }],
    });
    let events = pool.take_events();
    assert!(matches!(events[0], PoolEvent::Mined(h) if h == t0.hash));
    assert_eq!(pool.subpool_of(&t1.hash), Some(SubPool::Pending));
    assert!(pool.take_events().is_empty());
}
