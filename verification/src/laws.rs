//! The ledger's global laws, stated over the ghost view and proved once
//! for every reachable engine state.

use vstd::prelude::*;

use crate::ledger::contains_wallet;
use crate::ledger::ids_unique;
use crate::ledger::net_of;
use crate::ledger::records_for;
use crate::ledger::total_of;
use crate::ledger::CustodySystem;
use crate::types::record_delta;
use crate::types::Transaction;
use crate::types::Wallet;

verus! {

/// Signed net effect of a whole record sequence: the sum of its deposit
/// amounts minus the sum of its withdrawal amounts.
pub open spec fn net_all(log: Seq<Transaction>) -> int
    decreases log.len(),
{
    if log.len() == 0 {
        0
    } else {
        net_all(log.drop_last()) + record_delta(log.last())
    }
}

/// Sum over the wallets of the net each one draws from the log.
spec fn sum_net(wallets: Seq<Wallet>, log: Seq<Transaction>) -> int
    decreases wallets.len(),
{
    if wallets.len() == 0 {
        0
    } else {
        sum_net(wallets.drop_last(), log) + net_of(log, wallets.last().id@)
    }
}

/// Law: at every observable point, every wallet's balance equals the net
/// of its own audit subsequence - the sum of the `Deposit` amounts minus
/// the sum of the `Withdrawal` amounts among the records that carry its
/// identifier.
pub proof fn lemma_balance_matches_history(s: &CustodySystem, i: int)
    requires
        s.inv(),
        0 <= i < s@.wallets.len(),
    ensures
        s@.wallets[i].balance as int == net_of(s@.log, s@.wallets[i].id@),
        s@.wallets[i].balance as int == net_all(records_for(s@.log, s@.wallets[i].id@)),
{
    lemma_net_is_net_of_records(s@.log, s@.wallets[i].id@);
}

/// Law: no reachable engine state holds a wallet with a negative balance.
pub proof fn lemma_balances_nonnegative(s: &CustodySystem, i: int)
    requires
        s.inv(),
        0 <= i < s@.wallets.len(),
    ensures
        s@.wallets[i].balance >= 0,
{
}

/// Law: no two registered wallets ever share an identifier.
pub proof fn lemma_identifiers_unique(s: &CustodySystem)
    requires
        s.inv(),
    ensures
        ids_unique(s@.wallets),
{
}

/// Law: system-wide, the sum of all wallet balances equals total deposits
/// minus total withdrawals over the whole audit trail.
pub proof fn lemma_total_matches_history(s: &CustodySystem)
    requires
        s.inv(),
    ensures
        total_of(s@.wallets) == net_all(s@.log),
{
    lemma_total_is_sum_net(s@.wallets, s@.log);
    lemma_sum_net_is_net_all(s@.wallets, s@.log);
}

/// A wallet's net over the log equals the plain net of its own
/// subsequence.
proof fn lemma_net_is_net_of_records(log: Seq<Transaction>, id: Seq<char>)
    ensures
        net_of(log, id) == net_all(records_for(log, id)),
    decreases log.len(),
{
    if log.len() > 0 {
        lemma_net_is_net_of_records(log.drop_last(), id);
        if log.last().wallet_id@ == id {
            let rest = records_for(log.drop_last(), id);
            assert(rest.push(log.last()).drop_last() =~= rest);
        }
    }
}

/// When every balance is the net its wallet draws from the log, the total
/// is the sum of those nets.
proof fn lemma_total_is_sum_net(wallets: Seq<Wallet>, log: Seq<Transaction>)
    requires
        forall|i: int|
            0 <= i < wallets.len() ==> wallets[i].balance as int == net_of(log, wallets[i].id@),
    ensures
        total_of(wallets) == sum_net(wallets, log),
    decreases wallets.len(),
{
    if wallets.len() > 0 {
        lemma_total_is_sum_net(wallets.drop_last(), log);
    }
}

/// Over an empty log every wallet's net is zero, so the sum of nets is
/// zero.
proof fn lemma_sum_net_empty(wallets: Seq<Wallet>, log: Seq<Transaction>)
    requires
        log.len() == 0,
    ensures
        sum_net(wallets, log) == 0,
    decreases wallets.len(),
{
    if wallets.len() > 0 {
        lemma_sum_net_empty(wallets.drop_last(), log);
    }
}

/// Appending one record moves the sum of nets by the record's signed
/// amount when some wallet carries its identifier (exactly one does, by
/// uniqueness), and not at all when none does.
proof fn lemma_sum_net_push(wallets: Seq<Wallet>, log: Seq<Transaction>, t: Transaction)
    requires
        ids_unique(wallets),
    ensures
        sum_net(wallets, log.push(t)) == sum_net(wallets, log) + if contains_wallet(
            wallets,
            t.wallet_id@,
        ) {
            record_delta(t)
        } else {
            0
        },
    decreases wallets.len(),
{
    if wallets.len() == 0 {
        assert(!contains_wallet(wallets, t.wallet_id@));
    } else {
        let rest = wallets.drop_last();
        let w = wallets.last();
        lemma_sum_net_push(rest, log, t);
        crate::ledger::lemma_net_push(log, t, w.id@);
        if w.id@ == t.wallet_id@ {
            assert(!contains_wallet(rest, t.wallet_id@)) by {
                if contains_wallet(rest, t.wallet_id@) {
                    let k = choose|k: int|
                        0 <= k < rest.len() && rest[k].id@ == t.wallet_id@;
                    assert(wallets[k].id@ != wallets[wallets.len() - 1].id@);
                }
            }
            assert(contains_wallet(wallets, t.wallet_id@)) by {
                assert(wallets[wallets.len() - 1].id@ == t.wallet_id@);
            }
        } else {
            if contains_wallet(rest, t.wallet_id@) {
                let k = choose|k: int| 0 <= k < rest.len() && rest[k].id@ == t.wallet_id@;
                assert(wallets[k].id@ == t.wallet_id@);
            }
            if contains_wallet(wallets, t.wallet_id@) {
                let k = choose|k: int|
                    0 <= k < wallets.len() && wallets[k].id@ == t.wallet_id@;
                assert(k < rest.len() && rest[k].id@ == t.wallet_id@);
            }
        }
    }
}

/// With unique identifiers and every record naming a registered wallet,
/// the sum of per-wallet nets is the net of the whole log.
proof fn lemma_sum_net_is_net_all(wallets: Seq<Wallet>, log: Seq<Transaction>)
    requires
        ids_unique(wallets),
        forall|k: int| 0 <= k < log.len() ==> contains_wallet(wallets, log[k].wallet_id@),
    ensures
        sum_net(wallets, log) == net_all(log),
    decreases log.len(),
{
    if log.len() == 0 {
        lemma_sum_net_empty(wallets, log);
    } else {
        let l = log.drop_last();
        let t = log.last();
        lemma_sum_net_is_net_all(wallets, l);
        lemma_sum_net_push(wallets, l, t);
        assert(l.push(t) =~= log);
        assert(contains_wallet(wallets, t.wallet_id@));
    }
}

} // verus!
