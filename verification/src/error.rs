//! The conditions that the ledger reports as values.
use vstd::prelude::*;

verus! {

/// Why a byte string or a text could not be decoded.
#[derive(Debug, Clone, Copy, PartialEq, Eq, Structural)]
pub enum CodecError {
    /// A text is not an even number of hexadecimal digits.
    Hex,
    /// A length prefix is cut short, or announces more bytes than are left.
    Length,
    /// The value field of a ledger transaction is not eight bytes wide.
    ValueWidth,
}

/// Why a transaction was not admitted to the pool.
#[derive(Debug, Clone, Copy, PartialEq, Eq, Structural)]
pub enum AdmissionError {
    /// The sender is the miner of this chain.
    SelfPayment,
    /// The signature does not verify, or it or the public key could not be decoded.
    InvalidSignature,
    /// The sender's balance is below the amount.
    InsufficientBalance,
    /// The same ledger encoding is already pending.
    DuplicateTransaction,
}

} // verus!
