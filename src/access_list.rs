//! Access lists: the addresses and storage keys a transaction plans to touch.
use vstd::prelude::*;
use crate::primitives::Address;

verus! {

/// An account address with the storage keys that would be loaded at the start of execution.
#[derive(Clone, Debug, Default)]
pub struct AccessListItem {
    pub address: Address,
    pub storage_keys: Vec<[u8; 32]>,
}

/// A list of addresses and storage keys that the transaction plans to access.
/// Accesses outside the list are possible, but become more expensive.
#[derive(Clone, Debug, Default)]
pub struct AccessList(pub Vec<AccessListItem>);

} // verus!
