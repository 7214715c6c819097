//! The ledger engine: the wallet registry, the append-only transaction log,
//! and the validated operations that mutate them.

use vstd::prelude::*;

use crate::errors::LedgerError;
use crate::errors::WalletRole;
use crate::types::record_delta;
use crate::types::Transaction;
use crate::types::TransactionType;
use crate::types::Wallet;
use crate::types::WalletType;

verus! {

/// Ghost snapshot of the whole engine state: the registry in insertion
/// order and the log in append order.
pub struct LedgerView {
    /// The registered wallets, oldest first.
    pub wallets: Seq<Wallet>,
    /// The audit trail, oldest first.
    pub log: Seq<Transaction>,
}

/// No two registered wallets share an identifier.
pub open spec fn ids_unique(wallets: Seq<Wallet>) -> bool {
    forall|i: int, j: int|
        0 <= i < j < wallets.len() ==> wallets[i].id@ != wallets[j].id@
}

/// Some registered wallet has this identifier.
pub open spec fn contains_wallet(wallets: Seq<Wallet>, id: Seq<char>) -> bool {
    exists|i: int| 0 <= i < wallets.len() && wallets[i].id@ == id
}

/// The index of the wallet with this identifier; meaningful only when
/// `contains_wallet` holds and the identifiers are unique.
pub open spec fn wallet_index(wallets: Seq<Wallet>, id: Seq<char>) -> int {
    choose|i: int| 0 <= i < wallets.len() && wallets[i].id@ == id
}

/// The balance of the wallet with this identifier.
pub open spec fn balance_of(wallets: Seq<Wallet>, id: Seq<char>) -> int {
    wallets[wallet_index(wallets, id)].balance as int
}

/// Sum of all registered wallets' balances.
pub open spec fn total_of(wallets: Seq<Wallet>) -> int
    decreases wallets.len(),
{
    if wallets.len() == 0 {
        0
    } else {
        total_of(wallets.drop_last()) + wallets.last().balance
    }
}

/// Net effect of a wallet's own records: the sum of its deposit amounts
/// minus the sum of its withdrawal amounts.
pub open spec fn net_of(log: Seq<Transaction>, id: Seq<char>) -> int
    decreases log.len(),
{
    if log.len() == 0 {
        0
    } else {
        net_of(log.drop_last(), id) + if log.last().wallet_id@ == id {
            record_delta(log.last())
        } else {
            0
        }
    }
}

/// The subsequence of records that belong to this wallet, in append order.
pub open spec fn records_for(log: Seq<Transaction>, id: Seq<char>) -> Seq<Transaction>
    decreases log.len(),
{
    if log.len() == 0 {
        Seq::empty()
    } else {
        let rest = records_for(log.drop_last(), id);
        if log.last().wallet_id@ == id {
            rest.push(log.last())
        } else {
            rest
        }
    }
}

/// The state transition of one successful deposit or withdrawal: exactly
/// one record with this identifier, kind and amount is appended to the log
/// (its timestamp is not constrained), the signed amount is applied to the
/// one wallet with this identifier, and nothing else changes.
pub open spec fn mutation_applied(
    pre: LedgerView,
    post: LedgerView,
    id: Seq<char>,
    kind: TransactionType,
    amount: int,
) -> bool {
    &&& post.wallets.len() == pre.wallets.len()
    &&& (forall|j: int|
        0 <= j < pre.wallets.len() ==> {
            &&& post.wallets[j].id == pre.wallets[j].id
            &&& post.wallets[j].address == pre.wallets[j].address
            &&& post.wallets[j].wallet_type == pre.wallets[j].wallet_type
            &&& post.wallets[j].balance as int == pre.wallets[j].balance as int + (
            if pre.wallets[j].id@ == id {
                if kind == TransactionType::Deposit {
                    amount
                } else {
                    -amount
                }
            } else {
                0
            })
        })
    &&& post.log.len() == pre.log.len() + 1
    &&& (forall|k: int| 0 <= k < pre.log.len() ==> post.log[k] == pre.log[k])
    &&& post.log.last().wallet_id@ == id
    &&& post.log.last().transaction_type == kind
    &&& post.log.last().amount as int == amount
}

/// The state transition of one successful transfer: a `Withdrawal` record
/// on the source then a `Deposit` record on the destination, both with the
/// same amount, are appended in that order; the amount moves from the
/// source wallet's balance to the destination wallet's; the system-wide
/// total and everything else are unchanged. When source and destination
/// are the same wallet its balance is unchanged and it gains both records.
pub open spec fn transfer_applied(
    pre: LedgerView,
    post: LedgerView,
    from: Seq<char>,
    to: Seq<char>,
    amount: int,
) -> bool {
    &&& post.wallets.len() == pre.wallets.len()
    &&& (forall|j: int|
        0 <= j < pre.wallets.len() ==> {
            &&& post.wallets[j].id == pre.wallets[j].id
            &&& post.wallets[j].address == pre.wallets[j].address
            &&& post.wallets[j].wallet_type == pre.wallets[j].wallet_type
            &&& post.wallets[j].balance as int == pre.wallets[j].balance as int + (
            if pre.wallets[j].id@ == from {
                -amount
            } else {
                0
            }) + (if pre.wallets[j].id@ == to {
                amount
            } else {
                0
            })
        })
    &&& post.log.len() == pre.log.len() + 2
    &&& (forall|k: int| 0 <= k < pre.log.len() ==> post.log[k] == pre.log[k])
    &&& post.log[pre.log.len() as int].wallet_id@ == from
    &&& post.log[pre.log.len() as int].transaction_type == TransactionType::Withdrawal
    &&& post.log[pre.log.len() as int].amount as int == amount
    &&& post.log[pre.log.len() as int + 1].wallet_id@ == to
    &&& post.log[pre.log.len() as int + 1].transaction_type == TransactionType::Deposit
    &&& post.log[pre.log.len() as int + 1].amount as int == amount
    &&& total_of(post.wallets) == total_of(pre.wallets)
}

/// Relies on std::time::SystemTime::now: wall-clock seconds since the Unix
/// epoch at the moment of the call, 0 if the clock reads earlier than the
/// epoch. The reading depends on the machine's clock, so nothing is
/// promised of it; timestamps attribute records, they never order them.
#[verifier::external_body]
fn current_timestamp() -> u64 {
    match std::time::SystemTime::now().duration_since(std::time::UNIX_EPOCH) {
        Ok(d) => d.as_secs(),
        Err(_) => 0,
    }
}

/// The ledger engine. It exclusively owns the wallet registry and the
/// transaction log; every mutation routes through its validated
/// operations, which keep [`CustodySystem::inv`] true.
#[derive(Debug)]
pub struct CustodySystem {
    wallets: Vec<Wallet>,
    transactions: Vec<Transaction>,
}

impl View for CustodySystem {
    type V = LedgerView;

    closed spec fn view(&self) -> LedgerView {
        LedgerView { wallets: self.wallets@, log: self.transactions@ }
    }
}

impl CustodySystem {
    /// Well-formedness of the engine state: identifiers are unique, no
    /// balance is negative, the system-wide total fits the balance type,
    /// every balance is the net of the wallet's own records, and every
    /// record carries a positive amount and names a registered wallet.
    pub open spec fn inv(&self) -> bool {
        &&& ids_unique(self@.wallets)
        &&& (forall|i: int| 0 <= i < self@.wallets.len() ==> self@.wallets[i].balance >= 0)
        &&& total_of(self@.wallets) <= i64::MAX
        &&& (forall|i: int|
            0 <= i < self@.wallets.len() ==> self@.wallets[i].balance as int == net_of(
                self@.log,
                self@.wallets[i].id@,
            ))
        &&& (forall|k: int|
            0 <= k < self@.log.len() ==> self@.log[k].amount > 0 && contains_wallet(
                self@.wallets,
                self@.log[k].wallet_id@,
            ))
    }

    /// Creates an empty engine: no wallets, no history.
    pub fn new() -> (r: Self)
        ensures
            r.inv(),
            r@.wallets.len() == 0,
            r@.log.len() == 0,
    {
        CustodySystem { wallets: Vec::new(), transactions: Vec::new() }
    }

    /// The number of registered wallets.
    pub fn wallet_count(&self) -> (r: usize)
        ensures
            r == self@.wallets.len(),
    {
        self.wallets.len()
    }

    /// Whether a wallet with this identifier is registered.
    pub fn wallet_exists(&self, id: &str) -> (r: bool)
        ensures
            r == contains_wallet(self@.wallets, id@),
    {
        self.find_wallet_index(id).is_some()
    }

    /// Registers a new wallet under a fresh identifier, with balance zero.
    ///
    /// Fails with `AlreadyExists`, changing nothing, when the identifier
    /// is already registered; no other validation is performed (empty
    /// strings are accepted). Returns a copy of the created wallet.
    pub fn create_wallet(&mut self, id: String, address: String, wallet_type: WalletType) -> (r:
        Result<Wallet, LedgerError>)
        requires
            old(self).inv(),
        ensures
            final(self).inv(),
            contains_wallet(old(self)@.wallets, id@) ==> {
                &&& (r matches Err(e) && (e matches LedgerError::AlreadyExists { id: eid }
                    && eid@ == id@))
                &&& *final(self) == *old(self)
            },
            !contains_wallet(old(self)@.wallets, id@) ==> {
                &&& (r matches Ok(w) && w.id@ == id@ && w.address@ == address@ && w.balance == 0
                    && w.wallet_type == wallet_type)
                &&& final(self)@.wallets == old(self)@.wallets.push(
                    (Wallet { id: id, address: address, balance: 0, wallet_type: wallet_type }),
                )
                &&& final(self)@.log == old(self)@.log
            },
    {
        if self.find_wallet_index(id.as_str()).is_some() {
            return Err(LedgerError::AlreadyExists { id });
        }
        let ghost pre = self@;
        let wallet = Wallet { id, address, balance: 0, wallet_type };
        let result = wallet.clone();
        self.wallets.push(wallet);
        proof {
            let post = self@.wallets;
            lemma_total_push(pre.wallets, post.last());
            assert forall|k: int| 0 <= k < pre.log.len() implies pre.log[k].wallet_id@
                != post.last().id@ by {
                if pre.log[k].wallet_id@ == post.last().id@ {
                    assert(contains_wallet(pre.wallets, pre.log[k].wallet_id@));
                }
            }
            lemma_net_absent(pre.log, post.last().id@);
            assert forall|k: int| 0 <= k < self@.log.len() implies contains_wallet(
                post,
                self@.log[k].wallet_id@,
            ) by {
                let rid = self@.log[k].wallet_id@;
                let wi = wallet_index(pre.wallets, rid);
                assert(0 <= wi < pre.wallets.len() && pre.wallets[wi].id@ == rid);
                assert(post[wi].id@ == rid);
            }
        }
        Ok(result)
    }

    /// Increases a wallet's balance by a strictly positive amount and
    /// appends the matching `Deposit` record; both effects are applied
    /// together or not at all.
    ///
    /// Fails with `InvalidAmount` when `amount <= 0` (zero is rejected,
    /// not a no-op) and with `NotFound` when the identifier is not
    /// registered; a failing call changes nothing.
    pub fn deposit(&mut self, id: &str, amount: i64) -> (r: Result<(), LedgerError>)
        requires
            old(self).inv(),
            amount > 0 && contains_wallet(old(self)@.wallets, id@) ==> total_of(old(self)@.wallets)
                + amount <= i64::MAX,
        ensures
            final(self).inv(),
            amount <= 0 ==> r == Err::<(), LedgerError>(LedgerError::InvalidAmount) && *final(self)
                == *old(self),
            amount > 0 && !contains_wallet(old(self)@.wallets, id@) ==> (r matches Err(e) && (
            e matches LedgerError::NotFound { id: eid, role } && eid@ == id@ && role
                == WalletRole::Target)) && *final(self) == *old(self),
            amount > 0 && contains_wallet(old(self)@.wallets, id@) ==> {
                &&& r is Ok
                &&& mutation_applied(
                    old(self)@,
                    final(self)@,
                    id@,
                    TransactionType::Deposit,
                    amount as int,
                )
                &&& balance_of(final(self)@.wallets, id@) == balance_of(old(self)@.wallets, id@)
                    + amount
                &&& total_of(final(self)@.wallets) == total_of(old(self)@.wallets) + amount
            },
    {
        if amount <= 0 {
            return Err(LedgerError::InvalidAmount);
        }
        match self.find_wallet_index(id) {
            None => Err(LedgerError::NotFound { id: id.to_owned(), role: WalletRole::Target }),
            Some(i) => {
                proof {
                    lemma_found_is_index(self@.wallets, id@, i as int);
                    lemma_balance_le_total(self@.wallets, i as int);
                }
                let ghost pre = self@;
                let w = &mut self.wallets[i];
                w.balance = w.balance + amount;
                let ts = current_timestamp();
                let record = Transaction {
                    wallet_id: id.to_owned(),
                    transaction_type: TransactionType::Deposit,
                    amount: amount,
                    timestamp: ts,
                };
                let ghost t = record;
                self.transactions.push(record);
                proof {
                    self.lemma_mutation_keeps_inv(pre, i as int, id@, t);
                    lemma_found_is_index(self@.wallets, id@, i as int);
                }
                Ok(())
            },
        }
    }

    /// Decreases a wallet's balance by a strictly positive amount and
    /// appends the matching `Withdrawal` record, atomically with the
    /// balance change.
    ///
    /// Fails with `InvalidAmount` when `amount <= 0`, with `NotFound` when
    /// the identifier is not registered, and with `InsufficientBalance`
    /// (carrying available and requested amounts) when the balance is
    /// smaller than the amount; a failing call changes nothing.
    pub fn withdraw(&mut self, id: &str, amount: i64) -> (r: Result<(), LedgerError>)
        requires
            old(self).inv(),
        ensures
            final(self).inv(),
            amount <= 0 ==> r == Err::<(), LedgerError>(LedgerError::InvalidAmount) && *final(self)
                == *old(self),
            amount > 0 && !contains_wallet(old(self)@.wallets, id@) ==> (r matches Err(e) && (
            e matches LedgerError::NotFound { id: eid, role } && eid@ == id@ && role
                == WalletRole::Target)) && *final(self) == *old(self),
            amount > 0 && contains_wallet(old(self)@.wallets, id@) && balance_of(
                old(self)@.wallets,
                id@,
            ) < amount ==> (r matches Err(e) && e == (LedgerError::InsufficientBalance {
                available: balance_of(old(self)@.wallets, id@) as i64,
                requested: amount,
            })) && *final(self) == *old(self),
            amount > 0 && contains_wallet(old(self)@.wallets, id@) && balance_of(
                old(self)@.wallets,
                id@,
            ) >= amount ==> {
                &&& r is Ok
                &&& mutation_applied(
                    old(self)@,
                    final(self)@,
                    id@,
                    TransactionType::Withdrawal,
                    amount as int,
                )
                &&& balance_of(final(self)@.wallets, id@) == balance_of(old(self)@.wallets, id@)
                    - amount
                &&& total_of(final(self)@.wallets) == total_of(old(self)@.wallets) - amount
            },
    {
        if amount <= 0 {
            return Err(LedgerError::InvalidAmount);
        }
        match self.find_wallet_index(id) {
            None => Err(LedgerError::NotFound { id: id.to_owned(), role: WalletRole::Target }),
            Some(i) => {
                proof {
                    lemma_found_is_index(self@.wallets, id@, i as int);
                }
                if self.wallets[i].balance < amount {
                    return Err(LedgerError::InsufficientBalance {
                        available: self.wallets[i].balance,
                        requested: amount,
                    });
                }
                let ghost pre = self@;
                let w = &mut self.wallets[i];
                w.balance = w.balance - amount;
                let ts = current_timestamp();
                let record = Transaction {
                    wallet_id: id.to_owned(),
                    transaction_type: TransactionType::Withdrawal,
                    amount: amount,
                    timestamp: ts,
                };
                let ghost t = record;
                self.transactions.push(record);
                proof {
                    lemma_total_nonneg(pre.wallets);
                    self.lemma_mutation_keeps_inv(pre, i as int, id@, t);
                    lemma_found_is_index(self@.wallets, id@, i as int);
                }
                Ok(())
            },
        }
    }

    /// A successful deposit or withdrawal at wallet `i` keeps the engine
    /// invariant and shifts the total by the record's signed amount.
    proof fn lemma_mutation_keeps_inv(&self, pre: LedgerView, i: int, id: Seq<char>, t: Transaction)
        requires
            ids_unique(pre.wallets),
            forall|j: int| 0 <= j < pre.wallets.len() ==> pre.wallets[j].balance >= 0,
            total_of(pre.wallets) <= i64::MAX,
            forall|j: int|
                0 <= j < pre.wallets.len() ==> pre.wallets[j].balance as int == net_of(
                    pre.log,
                    pre.wallets[j].id@,
                ),
            forall|k: int|
                0 <= k < pre.log.len() ==> pre.log[k].amount > 0 && contains_wallet(
                    pre.wallets,
                    pre.log[k].wallet_id@,
                ),
            0 <= i < pre.wallets.len(),
            pre.wallets[i].id@ == id,
            self@.log == pre.log.push(t),
            t.wallet_id@ == id,
            t.amount > 0,
            self@.wallets == pre.wallets.update(
                i,
                (Wallet {
                    id: pre.wallets[i].id,
                    address: pre.wallets[i].address,
                    balance: (pre.wallets[i].balance + record_delta(t)) as i64,
                    wallet_type: pre.wallets[i].wallet_type,
                }),
            ),
            pre.wallets[i].balance + record_delta(t) >= 0,
            total_of(pre.wallets) + record_delta(t) <= i64::MAX,
        ensures
            self.inv(),
            mutation_applied(pre, self@, id, t.transaction_type, t.amount as int),
            total_of(self@.wallets) == total_of(pre.wallets) + record_delta(t),
    {
        let post = self@;
        let delta = record_delta(t);
        lemma_balance_le_total(pre.wallets, i);
        lemma_total_nonneg(pre.wallets);
        assert(pre.wallets[i].balance + delta <= i64::MAX);
        lemma_total_update(pre.wallets, i, post.wallets[i]);
        assert forall|j: int|
            0 <= j < post.wallets.len() implies post.wallets[j].balance as int == net_of(
            post.log,
            post.wallets[j].id@,
        ) by {
            lemma_net_push(pre.log, t, post.wallets[j].id@);
            if j != i {
                if j < i {
                    assert(pre.wallets[j].id@ != pre.wallets[i].id@);
                } else {
                    assert(pre.wallets[i].id@ != pre.wallets[j].id@);
                }
            }
        }
        assert forall|k: int|
            0 <= k < post.log.len() implies post.log[k].amount > 0 && contains_wallet(
            post.wallets,
            post.log[k].wallet_id@,
        ) by {
            let rid = post.log[k].wallet_id@;
            if k < pre.log.len() {
                let wi = wallet_index(pre.wallets, rid);
                assert(0 <= wi < pre.wallets.len() && pre.wallets[wi].id@ == rid);
                assert(post.wallets[wi].id@ == rid);
            } else {
                assert(post.wallets[i].id@ == rid);
            }
        }
    }

    /// Looks the wallet with this identifier up; `None` when it is not
    /// registered. Read-only: the caller cannot reach the registry through
    /// the returned reference.
    pub fn get_wallet(&self, id: &str) -> (r: Option<&Wallet>)
        requires
            self.inv(),
        ensures
            match r {
                Some(w) => contains_wallet(self@.wallets, id@) && *w == self@.wallets[wallet_index(
                    self@.wallets,
                    id@,
                )],
                None => !contains_wallet(self@.wallets, id@),
            },
    {
        match self.find_wallet_index(id) {
            Some(i) => {
                proof {
                    lemma_found_is_index(self@.wallets, id@, i as int);
                }
                Some(&self.wallets[i])
            },
            None => None,
        }
    }

    /// Moves a strictly positive amount between two wallets: a withdrawal
    /// on the source followed by a deposit on the destination, as one
    /// atomic unit.
    ///
    /// The four checks run in this order, each with its own error:
    /// `InvalidAmount` when `amount <= 0`; `NotFound` naming the source,
    /// then the destination, when one is not registered;
    /// `InsufficientBalance` when the source balance is smaller than the
    /// amount. A transfer that fails any check leaves both wallets and the
    /// log untouched.
    pub fn transfer(&mut self, from_id: &str, to_id: &str, amount: i64) -> (r: Result<
        (),
        LedgerError,
    >)
        requires
            old(self).inv(),
        ensures
            final(self).inv(),
            amount <= 0 ==> r == Err::<(), LedgerError>(LedgerError::InvalidAmount) && *final(self)
                == *old(self),
            amount > 0 && !contains_wallet(old(self)@.wallets, from_id@) ==> (r matches Err(e) && (
            e matches LedgerError::NotFound { id: eid, role } && eid@ == from_id@ && role
                == WalletRole::Source)) && *final(self) == *old(self),
            amount > 0 && contains_wallet(old(self)@.wallets, from_id@) && !contains_wallet(
                old(self)@.wallets,
                to_id@,
            ) ==> (r matches Err(e) && (e matches LedgerError::NotFound { id: eid, role } && eid@
                == to_id@ && role == WalletRole::Destination)) && *final(self) == *old(self),
            amount > 0 && contains_wallet(old(self)@.wallets, from_id@) && contains_wallet(
                old(self)@.wallets,
                to_id@,
            ) && balance_of(old(self)@.wallets, from_id@) < amount ==> (r matches Err(e) && e == (
            LedgerError::InsufficientBalance {
                available: balance_of(old(self)@.wallets, from_id@) as i64,
                requested: amount,
            })) && *final(self) == *old(self),
            amount > 0 && contains_wallet(old(self)@.wallets, from_id@) && contains_wallet(
                old(self)@.wallets,
                to_id@,
            ) && balance_of(old(self)@.wallets, from_id@) >= amount ==> r is Ok
                && transfer_applied(old(self)@, final(self)@, from_id@, to_id@, amount as int),
    {
        if amount <= 0 {
            return Err(LedgerError::InvalidAmount);
        }
        if !self.wallet_exists(from_id) {
            return Err(
                LedgerError::NotFound { id: from_id.to_owned(), role: WalletRole::Source },
            );
        }
        if !self.wallet_exists(to_id) {
            return Err(
                LedgerError::NotFound { id: to_id.to_owned(), role: WalletRole::Destination },
            );
        }
        let source_balance = match self.get_wallet(from_id) {
            Some(w) => w.balance,
            None => vstd::pervasive::unreached(),
        };
        if source_balance < amount {
            return Err(
                LedgerError::InsufficientBalance { available: source_balance, requested: amount },
            );
        }
        let ghost pre = self@;
        match self.withdraw(from_id, amount) {
            Ok(()) => {},
            Err(e) => {
                return Err(e);
            },
        }
        proof {
            let wi = wallet_index(pre.wallets, to_id@);
            assert(0 <= wi < pre.wallets.len() && pre.wallets[wi].id@ == to_id@);
            assert(self@.wallets[wi].id@ == to_id@);
            assert(contains_wallet(self@.wallets, to_id@));
        }
        match self.deposit(to_id, amount) {
            Ok(()) => {},
            Err(e) => {
                return Err(e);
            },
        }
        Ok(())
    }

    /// Sum of every wallet's current balance, recomputed from the
    /// registry on each call. Transfers leave it unchanged; only deposits
    /// and withdrawals move it.
    pub fn get_total_balance(&self) -> (r: i64)
        requires
            self.inv(),
        ensures
            r as int == total_of(self@.wallets),
    {
        let n = self.wallets.len();
        let mut sum: i64 = 0;
        let mut i: usize = 0;
        while i < n
            invariant
                self.inv(),
                n == self@.wallets.len(),
                i <= n,
                sum as int == total_of(self@.wallets.take(i as int)),
            decreases n - i,
        {
            proof {
                lemma_total_take_succ(self@.wallets, i as int);
                lemma_total_take_bounds(self@.wallets, i as int);
                lemma_total_take_bounds(self@.wallets, i as int + 1);
            }
            sum = sum + self.wallets[i].balance;
            i += 1;
        }
        proof {
            assert(self@.wallets.take(n as int) =~= self@.wallets);
        }
        sum
    }

    /// The full current registry, in insertion order. Read-only: the
    /// caller cannot mutate engine state through the returned reference.
    pub fn get_all_wallets(&self) -> (r: &Vec<Wallet>)
        ensures
            r@ == self@.wallets,
    {
        &self.wallets
    }

    /// The full audit trail in append order, which is also chronological
    /// order; records are never edited, reordered or removed.
    pub fn get_all_transactions(&self) -> (r: &Vec<Transaction>)
        ensures
            r@ == self@.log,
    {
        &self.transactions
    }

    /// The subsequence of records that belong to this wallet, in append
    /// order; empty (not an error) when the wallet has no history or does
    /// not exist.
    pub fn get_wallet_transactions(&self, wallet_id: &str) -> (r: Vec<Transaction>)
        ensures
            r@ == records_for(self@.log, wallet_id@),
    {
        let key: String = wallet_id.to_owned();
        let mut out: Vec<Transaction> = Vec::new();
        let n = self.transactions.len();
        let mut i: usize = 0;
        while i < n
            invariant
                n == self@.log.len(),
                i <= n,
                key@ == wallet_id@,
                out@ == records_for(self@.log.take(i as int), wallet_id@),
            decreases n - i,
        {
            proof {
                assert(self@.log.take(i as int + 1).drop_last() =~= self@.log.take(i as int));
            }
            if self.transactions[i].wallet_id == key {
                out.push(self.transactions[i].clone());
            }
            i += 1;
        }
        proof {
            assert(self@.log.take(n as int) =~= self@.log);
        }
        out
    }

    /// Index of the first wallet whose identifier equals `id`.
    fn find_wallet_index(&self, id: &str) -> (r: Option<usize>)
        ensures
            match r {
                Some(i) => 0 <= i < self@.wallets.len() && self@.wallets[i as int].id@ == id@,
                None => !contains_wallet(self@.wallets, id@),
            },
    {
        let key: String = id.to_owned();
        let n = self.wallets.len();
        let mut i: usize = 0;
        while i < n
            invariant
                n == self@.wallets.len(),
                i <= n,
                key@ == id@,
                forall|j: int| 0 <= j < i ==> self@.wallets[j].id@ != id@,
            decreases n - i,
        {
            if self.wallets[i].id == key {
                return Some(i);
            }
            i += 1;
        }
        None
    }
}

impl Default for CustodySystem {
    /// Same as [`CustodySystem::new`]: an empty engine.
    fn default() -> (r: Self)
        ensures
            r.inv(),
            r@.wallets.len() == 0,
            r@.log.len() == 0,
    {
        CustodySystem::new()
    }
}

/// Appending a wallet adds its balance to the system-wide total.
proof fn lemma_total_push(s: Seq<Wallet>, w: Wallet)
    ensures
        total_of(s.push(w)) == total_of(s) + w.balance,
{
    assert(s.push(w).drop_last() =~= s);
}

/// Replacing one wallet shifts the system-wide total by the difference of
/// the two balances.
proof fn lemma_total_update(s: Seq<Wallet>, i: int, w: Wallet)
    requires
        0 <= i < s.len(),
    ensures
        total_of(s.update(i, w)) == total_of(s) - s[i].balance + w.balance,
    decreases s.len(),
{
    let t = s.update(i, w);
    if i == s.len() - 1 {
        assert(t.drop_last() =~= s.drop_last());
    } else {
        assert(t.drop_last() =~= s.drop_last().update(i, w));
        lemma_total_update(s.drop_last(), i, w);
    }
}

/// With no negative balance the system-wide total is not negative either.
proof fn lemma_total_nonneg(s: Seq<Wallet>)
    requires
        forall|j: int| 0 <= j < s.len() ==> s[j].balance >= 0,
    ensures
        total_of(s) >= 0,
    decreases s.len(),
{
    if s.len() > 0 {
        lemma_total_nonneg(s.drop_last());
    }
}

/// With no negative balance, each wallet's balance is at most the
/// system-wide total.
proof fn lemma_balance_le_total(s: Seq<Wallet>, i: int)
    requires
        forall|j: int| 0 <= j < s.len() ==> s[j].balance >= 0,
        0 <= i < s.len(),
    ensures
        s[i].balance <= total_of(s),
    decreases s.len(),
{
    if i == s.len() - 1 {
        lemma_total_nonneg(s.drop_last());
    } else {
        lemma_balance_le_total(s.drop_last(), i);
    }
}

/// Extending a prefix by one wallet adds that wallet's balance to the
/// prefix total.
proof fn lemma_total_take_succ(s: Seq<Wallet>, j: int)
    requires
        0 <= j < s.len(),
    ensures
        total_of(s.take(j + 1)) == total_of(s.take(j)) + s[j].balance,
{
    assert(s.take(j + 1).drop_last() =~= s.take(j));
}

/// With no negative balance every prefix total lies between zero and the
/// system-wide total.
proof fn lemma_total_take_bounds(s: Seq<Wallet>, j: int)
    requires
        forall|k: int| 0 <= k < s.len() ==> s[k].balance >= 0,
        0 <= j <= s.len(),
    ensures
        0 <= total_of(s.take(j)),
        total_of(s.take(j)) <= total_of(s),
    decreases s.len() - j,
{
    lemma_total_nonneg(s.take(j));
    if j == s.len() {
        assert(s.take(j) =~= s);
    } else {
        lemma_total_take_succ(s, j);
        lemma_total_take_bounds(s, j + 1);
    }
}

/// Appending a record changes only the matching wallet's net, by the
/// record's signed amount.
pub proof fn lemma_net_push(log: Seq<Transaction>, t: Transaction, id: Seq<char>)
    ensures
        net_of(log.push(t), id) == net_of(log, id) + if t.wallet_id@ == id {
            record_delta(t)
        } else {
            0
        },
{
    assert(log.push(t).drop_last() =~= log);
}

/// A wallet that no record names has a net of zero.
proof fn lemma_net_absent(log: Seq<Transaction>, id: Seq<char>)
    requires
        forall|k: int| 0 <= k < log.len() ==> log[k].wallet_id@ != id,
    ensures
        net_of(log, id) == 0,
    decreases log.len(),
{
    if log.len() > 0 {
        lemma_net_absent(log.drop_last(), id);
    }
}

/// The identifiers are unique and the wallet at `i` carries `id`, so `i`
/// is the one index that `wallet_index` denotes.
proof fn lemma_found_is_index(wallets: Seq<Wallet>, id: Seq<char>, i: int)
    requires
        ids_unique(wallets),
        0 <= i < wallets.len(),
        wallets[i].id@ == id,
    ensures
        contains_wallet(wallets, id),
        wallet_index(wallets, id) == i,
        balance_of(wallets, id) == wallets[i].balance as int,
{
    assert(contains_wallet(wallets, id));
    let j = wallet_index(wallets, id);
    assert(0 <= j < wallets.len() && wallets[j].id@ == id);
}

} // verus!
