//! Interning of sender addresses to dense integers.
use vstd::prelude::*;
use crate::lookup::{
    first_index, lemma_first_index_facts, lemma_first_index_is, lemma_first_index_none,
};
use crate::primitives::Address;

verus! {

/// The dense integer that stands for a sender address inside the pool.
pub type SenderId = usize;

/// The pool-wide key of a transaction: its sender and its nonce.
#[derive(Clone, Copy, Debug, PartialEq, Eq, Structural)]
pub struct TransactionId {
    pub sender: SenderId,
    pub nonce: u64,
}

impl TransactionId {
    pub fn new(sender: SenderId, nonce: u64) -> (r: TransactionId)
        ensures
            r.sender == sender,
            r.nonce == nonce,
    {
        TransactionId { sender, nonce }
    }
}

/// The id that `addresses` gives to `address`: its first position, or -1 when it has none.
pub open spec fn id_of(addresses: Seq<Address>, address: Address) -> int {
    first_index(addresses, address)
}

/// Bidirectional table between sender addresses and their ids.
///
/// The id of an address is its position in the table; ids are handed out in
/// order and never reused.
pub struct SenderIdentifiers {
    addresses: Vec<Address>,
}

impl View for SenderIdentifiers {
    type V = Seq<Address>;

    closed spec fn view(&self) -> Seq<Address> {
        self.addresses@
    }
}

impl SenderIdentifiers {
    pub fn new() -> (r: SenderIdentifiers)
        ensures
            r@ == Seq::<Address>::empty(),
    {
        SenderIdentifiers { addresses: Vec::new() }
    }

    /// Number of addresses seen so far.
    pub fn len(&self) -> (r: usize)
        ensures
            r == self@.len(),
    {
        self.addresses.len()
    }

    /// The address behind an id, if the id was handed out.
    pub fn address(&self, id: SenderId) -> (r: Option<Address>)
        ensures
            r == (if id < self@.len() { Some(self@[id as int]) } else { None::<Address> }),
    {
        if id < self.addresses.len() {
            Some(self.addresses[id])
        } else {
            None
        }
    }

    /// The id of an address, if it has one.
    pub fn sender_id(&self, address: &Address) -> (r: Option<SenderId>)
        ensures
            match r {
                Some(id) => id == id_of(self@, *address) && id < self@.len(),
                None => id_of(self@, *address) == -1,
            },
    {
        let mut i: usize = 0;
        while i < self.addresses.len()
            invariant
                0 <= i <= self@.len(),
                forall|j: int| 0 <= j < i ==> #[trigger] self@[j] != *address,
            decreases self@.len() - i,
        {
            if self.addresses[i] == *address {
                proof {
                    lemma_first_index_is(self@, *address, i as int);
                }
                return Some(i);
            }
            i = i + 1;
        }
        proof {
            lemma_first_index_none(self@, *address);
        }
        None
    }

    /// The id of an address, handing out the next id when it has none yet.
    pub fn sender_id_or_create(&mut self, address: Address) -> (r: SenderId)
        ensures
            id_of(old(self)@, address) >= 0 ==> final(self)@ == old(self)@ && r == id_of(
                old(self)@,
                address,
            ),
            id_of(old(self)@, address) < 0 ==> final(self)@ == old(self)@.push(address) && r
                == old(self)@.len(),
            r < final(self)@.len(),
            id_of(final(self)@, address) == r,
    {
        proof {
            lemma_first_index_facts(self@, address);
        }
        match self.sender_id(&address) {
            Some(id) => id,
            None => {
                let id = self.addresses.len();
                self.addresses.push(address);
                proof {
                    lemma_first_index_facts(old(self)@, address);
                    assert forall|j: int| 0 <= j < id implies #[trigger] self@[j] != address by {
                        assert(self@[j] == old(self)@[j]);
                    }
                    lemma_first_index_is(self@, address, id as int);
                }
                id
            }
        }
    }
}

} // verus!
