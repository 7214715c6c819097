//! Accounting core of a custody application: a registry of named asset
//! wallets and an append-only audit trail of every balance-changing
//! operation. Every wallet's balance provably equals the net of its own
//! history at all times.
//!
//! Balances and amounts are integer counts of the smallest asset unit
//! (for instance 10^-8 of a coin), so no value is ever rounded.

mod errors;
mod laws;
mod ledger;
mod types;

pub use errors::LedgerError;
pub use laws::lemma_balance_matches_history;
pub use laws::lemma_balances_nonnegative;
pub use laws::lemma_identifiers_unique;
pub use laws::lemma_total_matches_history;
pub use laws::net_all;
pub use ledger::balance_of;
pub use ledger::contains_wallet;
pub use ledger::ids_unique;
pub use ledger::mutation_applied;
pub use ledger::net_of;
pub use ledger::records_for;
pub use ledger::total_of;
pub use ledger::transfer_applied;
pub use ledger::wallet_index;
pub use ledger::CustodySystem;
pub use ledger::LedgerView;
pub use errors::WalletRole;
pub use types::Transaction;
pub use types::TransactionType;
pub use types::Wallet;
pub use types::WalletType;
