//! The best-transactions iterator: a snapshot of Pending that yields records by rank while
//! keeping each sender's nonce order.
use vstd::prelude::*;
use crate::transaction::{ValidPoolTransaction, is_ranked_above, ranks_above};

verus! {

/// The state of the iterator: the snapshot, which records were yielded and which were
/// marked invalid.
pub struct BestView {
    pub all: Seq<ValidPoolTransaction>,
    pub yielded: Seq<bool>,
    pub invalid: Seq<bool>,
}

/// Whether `a` is a record of the same sender as `b` with a lower nonce.
pub open spec fn precedes(a: ValidPoolTransaction, b: ValidPoolTransaction) -> bool {
    a.transaction_id.sender == b.transaction_id.sender && a.transaction_id.nonce < b.transaction_id.nonce
}

/// Whether record `i` may be yielded now: not yet yielded or marked invalid, and every
/// record of its sender with a lower nonce already yielded.
pub open spec fn eligible(v: BestView, i: int) -> bool {
    &&& 0 <= i < v.all.len()
    &&& !v.yielded[i]
    &&& !v.invalid[i]
    &&& forall|j: int| 0 <= j < v.all.len() && precedes(#[trigger] v.all[j], v.all[i]) ==> v.yielded[j]
}

/// Yields Pending records in rank order subject to each sender's nonce order.
pub struct BestTransactions {
    all: Vec<ValidPoolTransaction>,
    yielded: Vec<bool>,
    invalid: Vec<bool>,
}

impl View for BestTransactions {
    type V = BestView;

    closed spec fn view(&self) -> BestView {
        BestView { all: self.all@, yielded: self.yielded@, invalid: self.invalid@ }
    }
}

impl BestTransactions {
    pub closed spec fn well_formed(&self) -> bool {
        self.yielded@.len() == self.all@.len() && self.invalid@.len() == self.all@.len()
    }

    /// An iterator over a snapshot, with nothing yielded or marked.
    pub fn new(all: Vec<ValidPoolTransaction>) -> (r: BestTransactions)
        ensures
            r.well_formed(),
            r@.all == all@,
            r@.yielded == Seq::new(all@.len(), |i: int| false),
            r@.invalid == Seq::new(all@.len(), |i: int| false),
    {
        let mut yielded: Vec<bool> = Vec::new();
        let mut invalid: Vec<bool> = Vec::new();
        let mut i: usize = 0;
        while i < all.len()
            invariant
                0 <= i <= all@.len(),
                yielded@ == Seq::new(i as nat, |k: int| false),
                invalid@ == Seq::new(i as nat, |k: int| false),
            decreases all@.len() - i,
        {
            yielded.push(false);
            invalid.push(false);
            i = i + 1;
            assert(yielded@ =~= Seq::new(i as nat, |k: int| false));
            assert(invalid@ =~= Seq::new(i as nat, |k: int| false));
        }
        BestTransactions { all, yielded, invalid }
    }

    fn is_eligible(&self, i: usize) -> (r: bool)
        requires
            self.well_formed(),
            i < self@.all.len(),
        ensures
            r == eligible(self@, i as int),
    {
        if self.yielded[i] || self.invalid[i] {
            return false;
        }
        let t = &self.all[i];
        let mut j: usize = 0;
        while j < self.all.len()
            invariant
                self.well_formed(),
                0 <= j <= self@.all.len(),
                *t == self@.all[i as int],
                forall|k: int| 0 <= k < j && precedes(#[trigger] self@.all[k], *t) ==> self@.yielded[k],
            decreases self@.all.len() - j,
        {
            let o = &self.all[j];
            if o.transaction_id.sender == t.transaction_id.sender && o.transaction_id.nonce < t.transaction_id.nonce
                && !self.yielded[j] {
                assert(precedes(self@.all[j as int], *t));
                return false;
            }
            j = j + 1;
        }
        true
    }

    /// The highest-ranked record that may be yielded now, marked as yielded.
    pub fn next(&mut self) -> (r: Option<ValidPoolTransaction>)
        requires
            old(self).well_formed(),
        ensures
            final(self).well_formed(),
            match r {
                None => final(self)@ == old(self)@ && forall|i: int| !eligible(old(self)@, i),
                Some(t) => exists|i: int|
                    #[trigger] eligible(old(self)@, i) && old(self)@.all[i] == t
                        && (forall|j: int| eligible(old(self)@, j) ==> !ranks_above(old(self)@.all[j], t))
                        && final(self)@ == (BestView { yielded: old(self)@.yielded.update(i, true), ..old(self)@ }),
            },
    {
        let mut best: Option<usize> = None;
        let mut i: usize = 0;
        while i < self.all.len()
            invariant
                self.well_formed(),
                0 <= i <= self@.all.len(),
                match best {
                    Some(b) => b < i && eligible(self@, b as int)
                        && forall|j: int| 0 <= j < i && eligible(self@, j) ==> !ranks_above(self@.all[j], self@.all[b as int]),
                    None => forall|j: int| 0 <= j < i ==> !eligible(self@, j),
                },
            decreases self@.all.len() - i,
        {
            if self.is_eligible(i) {
                match best {
                    None => {
                        best = Some(i);
                    },
                    Some(b) => {
                        if is_ranked_above(&self.all[i], &self.all[b]) {
                            best = Some(i);
                        }
                    },
                }
            }
            i = i + 1;
        }
        match best {
            None => {
                assert forall|j: int| !eligible(self@, j) by {
                    if 0 <= j < self@.all.len() {
                        assert(!eligible(self@, j));
                    }
                }
                None
            },
            Some(b) => {
                let ghost before = self@;
                let t = self.all[b];
                self.yielded.set(b, true);
                assert(self@ == (BestView { yielded: before.yielded.update(b as int, true), ..before }));
                assert(eligible(before, b as int));
                Some(t)
            },
        }
    }

    /// Marks a record and every later record of its sender as not to be yielded by this
    /// iterator.
    pub fn mark_invalid(&mut self, tx: &ValidPoolTransaction)
        requires
            old(self).well_formed(),
        ensures
            final(self).well_formed(),
            final(self)@.all == old(self)@.all,
            final(self)@.yielded == old(self)@.yielded,
            final(self)@.invalid == Seq::new(
                old(self)@.all.len(),
                |k: int| old(self)@.invalid[k] || (old(self)@.all[k].transaction_id.sender == tx.transaction_id.sender
                    && old(self)@.all[k].transaction_id.nonce >= tx.transaction_id.nonce),
            ),
    {
        let ghost before = self@;
        let mut i: usize = 0;
        while i < self.all.len()
            invariant
                self.well_formed(),
                0 <= i <= self@.all.len(),
                self@.all == before.all,
                self@.yielded == before.yielded,
                before.invalid.len() == before.all.len(),
                forall|k: int| 0 <= k < i ==> self@.invalid[k] == (before.invalid[k] || (before.all[k].transaction_id.sender
                    == tx.transaction_id.sender && before.all[k].transaction_id.nonce >= tx.transaction_id.nonce)),
                forall|k: int| i <= k < self@.all.len() ==> self@.invalid[k] == before.invalid[k],
            decreases self@.all.len() - i,
        {
            let o = &self.all[i];
            let ghost prev = self@;
            if o.transaction_id.sender == tx.transaction_id.sender && o.transaction_id.nonce >= tx.transaction_id.nonce {
                self.invalid.set(i, true);
            }
            assert(forall|k: int| 0 <= k < self@.all.len() && k != i ==> self@.invalid[k] == prev.invalid[k]);
            assert(*o == before.all[i as int]);
            assert(self@.invalid[i as int] == (before.invalid[i as int] || (before.all[i as int].transaction_id.sender
                == tx.transaction_id.sender && before.all[i as int].transaction_id.nonce >= tx.transaction_id.nonce)));
            i = i + 1;
        }
        assert(self@.invalid =~= Seq::new(
            before.all.len(),
            |k: int| before.invalid[k] || (before.all[k].transaction_id.sender == tx.transaction_id.sender
                && before.all[k].transaction_id.nonce >= tx.transaction_id.nonce),
        ));
    }
}

} // verus!
