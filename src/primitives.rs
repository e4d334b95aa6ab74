//! Fixed-size byte identifiers: account addresses and transaction hashes.
use vstd::prelude::*;

verus! {

/// A 20-byte account identifier.
#[derive(Clone, Copy, Debug, Default, Hash)]
pub struct Address(pub [u8; 20]);

/// A 32-byte transaction hash, which identifies the transaction's encoded bytes.
#[derive(Clone, Copy, Debug, Default, Hash)]
pub struct TxHash(pub [u8; 32]);

impl PartialEq for Address {
    fn eq(&self, other: &Address) -> (r: bool)
        ensures
            r == (self.0 == other.0),
    {
        let mut i: usize = 0;
        while i < 20
            invariant
                0 <= i <= 20,
                forall|k: int| 0 <= k < i ==> self.0[k] == other.0[k],
            decreases 20 - i,
        {
            if self.0[i] != other.0[i] {
                return false;
            }
            i = i + 1;
        }
        assert(self.0 =~= other.0);
        true
    }
}

impl vstd::std_specs::cmp::PartialEqSpecImpl for Address {
    open spec fn obeys_eq_spec() -> bool {
        true
    }

    open spec fn eq_spec(&self, other: &Address) -> bool {
        self.0 == other.0
    }
}

impl PartialEq for TxHash {
    fn eq(&self, other: &TxHash) -> (r: bool)
        ensures
            r == (self.0 == other.0),
    {
        let mut i: usize = 0;
        while i < 32
            invariant
                0 <= i <= 32,
                forall|k: int| 0 <= k < i ==> self.0[k] == other.0[k],
            decreases 32 - i,
        {
            if self.0[i] != other.0[i] {
                return false;
            }
            i = i + 1;
        }
        assert(self.0 =~= other.0);
        true
    }
}

impl vstd::std_specs::cmp::PartialEqSpecImpl for TxHash {
    open spec fn obeys_eq_spec() -> bool {
        true
    }

    open spec fn eq_spec(&self, other: &TxHash) -> bool {
        self.0 == other.0
    }
}

impl Eq for Address {
}

impl Eq for TxHash {
}

} // verus!
