//! What admission can answer, and what the validator hands the pool.
use vstd::prelude::*;
use crate::primitives::TxHash;
use crate::transaction::PoolTransaction;

verus! {

/// Why the validator found a transaction invalid.
#[derive(Clone, Copy, Debug, PartialEq, Eq, Structural)]
pub enum InvalidPoolTransactionError {
    /// The gas limit exceeds the block gas limit.
    ExceedsGasLimit,
    /// The encoded transaction is larger than allowed.
    OversizedData,
    /// The signature does not recover to a sender.
    InvalidSignature,
    /// The transaction is signed for another chain.
    ChainIdMismatch,
    /// The gas limit does not cover the intrinsic gas.
    IntrinsicGasTooLow,
    /// The transaction type is not supported.
    TxTypeNotSupported,
}

/// The outcome of validating a transaction.
#[derive(Clone, Copy, Debug)]
pub enum TransactionValidationOutcome {
    /// The transaction is valid on the current state, whose sender nonce and balance are given.
    Valid { balance: u128, state_nonce: u64, transaction: PoolTransaction },
    /// The transaction can never be valid.
    Invalid(PoolTransaction, InvalidPoolTransactionError),
}

/// Why the pool did not admit a transaction.
#[derive(Clone, Copy, Debug, PartialEq, Eq)]
pub enum PoolError {
    /// A transaction with the same hash is already held.
    AlreadyKnown,
    /// The nonce is below the sender's state nonce.
    NonceTooLow,
    /// The nonce runs further ahead of the state nonce than the gap limit allows.
    NonceGapTooLarge,
    /// A transaction with the same sender and nonce is held, and this one does not outbid it.
    ReplacementUnderpriced,
    /// The sender's balance does not cover this transaction and the ones before it.
    InsufficientFunds,
    /// The fee cap is below the minimum priority fee.
    FeeCapBelowMinimum,
    /// The transaction was admitted and evicted again by the size limits in the same call.
    DiscardedOnInsert(TxHash),
    /// The pool is full and the transaction ranks below everything it holds.
    PoolFull,
    /// The validator's verdict.
    Invalid(InvalidPoolTransactionError),
}

} // verus!
