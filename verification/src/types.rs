//! Record types of the ledger: wallets and audit-trail transactions.

use vstd::prelude::*;

verus! {

/// Category tag of a wallet. Purely descriptive: the ledger applies no
/// behavioral difference between the two.
#[derive(Clone, Copy, Debug, PartialEq, Eq, Structural)]
pub enum WalletType {
    /// Operational wallet with frequent transactions.
    Hot,
    /// Long-term storage wallet.
    Cold,
}

/// Kind of a recorded balance mutation.
#[derive(Clone, Copy, Debug, PartialEq, Eq, Structural)]
pub enum TransactionType {
    /// The amount was added to the wallet's balance.
    Deposit,
    /// The amount was subtracted from the wallet's balance.
    Withdrawal,
}

/// A balance-holding account record. The identifier is unique across the
/// registry; the address is opaque data; the balance is a count of minor
/// units and never negative.
#[derive(Debug, PartialEq)]
pub struct Wallet {
    /// Caller-supplied unique identifier.
    pub id: String,
    /// Opaque address string; never validated or parsed.
    pub address: String,
    /// Current balance in minor units; never negative.
    pub balance: i64,
    /// Descriptive category tag.
    pub wallet_type: WalletType,
}

impl Clone for Wallet {
    fn clone(&self) -> (r: Self)
        ensures
            r == *self,
    {
        Wallet {
            id: self.id.clone(),
            address: self.address.clone(),
            balance: self.balance,
            wallet_type: self.wallet_type,
        }
    }
}

/// An immutable fact recording one completed balance mutation.
#[derive(Debug, PartialEq)]
pub struct Transaction {
    /// Identifier of the wallet the mutation applied to.
    pub wallet_id: String,
    /// Whether the amount was deposited or withdrawn.
    pub transaction_type: TransactionType,
    /// Strictly positive amount in minor units.
    pub amount: i64,
    /// Wall-clock seconds at the moment of recording; attribution only,
    /// never used for ordering.
    pub timestamp: u64,
}

impl Clone for Transaction {
    fn clone(&self) -> (r: Self)
        ensures
            r == *self,
    {
        Transaction {
            wallet_id: self.wallet_id.clone(),
            transaction_type: self.transaction_type,
            amount: self.amount,
            timestamp: self.timestamp,
        }
    }
}

/// Signed effect of one record on its wallet's balance: the amount for a
/// deposit, its negation for a withdrawal.
pub open spec fn record_delta(t: Transaction) -> int {
    match t.transaction_type {
        TransactionType::Deposit => t.amount as int,
        TransactionType::Withdrawal => -(t.amount as int),
    }
}

} // verus!
