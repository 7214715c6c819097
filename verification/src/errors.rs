//! Failure values of the ledger operations. Every failure is returned to
//! the caller with the state byte-for-byte unchanged; none is fatal to the
//! engine.

use vstd::prelude::*;

verus! {

/// The role a wallet identifier played in the failing operation.
#[derive(Clone, Copy, Debug, PartialEq, Eq, Structural)]
pub enum WalletRole {
    /// The single wallet of a deposit or withdrawal.
    Target,
    /// The debited side of a transfer.
    Source,
    /// The credited side of a transfer.
    Destination,
}

/// Why a ledger operation was refused.
#[derive(Debug, PartialEq)]
pub enum LedgerError {
    /// A wallet with this identifier is already registered.
    AlreadyExists {
        /// The identifier that was asked for a second time.
        id: String,
    },
    /// The referenced wallet identifier is not registered.
    NotFound {
        /// The identifier that was looked up.
        id: String,
        /// Which operand of the operation it was.
        role: WalletRole,
    },
    /// A deposit, withdrawal, or transfer amount was zero or negative.
    InvalidAmount,
    /// A withdrawal or transfer would drive a balance below zero.
    InsufficientBalance {
        /// The balance the wallet held at the time of the call.
        available: i64,
        /// The amount the call asked for.
        requested: i64,
    },
}

} // verus!
