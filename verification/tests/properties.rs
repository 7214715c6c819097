//! Concrete checks of the ledger's stated properties: the per-wallet
//! balance/history invariant, non-negativity, identifier uniqueness,
//! transfer atomicity, audit completeness, and the worked scenarios.

use securevault::CustodySystem;
use securevault::LedgerError;
use securevault::Transaction;
use securevault::TransactionType;
use securevault::WalletRole;
use securevault::WalletType;

/// Net of a wallet's own records: deposits minus withdrawals.
fn net_of_records(records: &[Transaction]) -> i64 {
    records
        .iter()
        .map(|t| match t.transaction_type {
            TransactionType::Deposit => t.amount,
            TransactionType::Withdrawal => -t.amount,
        })
        .sum()
}

#[test]
fn balance_equals_net_of_own_history() {
    let mut system = CustodySystem::new();
    system
        .create_wallet("a".to_string(), "addr_a".to_string(), WalletType::Hot)
        .unwrap();
    system
        .create_wallet("b".to_string(), "addr_b".to_string(), WalletType::Cold)
        .unwrap();

    system.deposit("a", 400).unwrap();
    system.deposit("b", 90).unwrap();
    system.withdraw("a", 150).unwrap();
    system.transfer("a", "b", 100).unwrap();
    system.withdraw("b", 30).unwrap();

    for wallet in system.get_all_wallets() {
        let records = system.get_wallet_transactions(&wallet.id);
        assert_eq!(wallet.balance, net_of_records(&records));
    }
}

#[test]
fn total_balance_equals_net_of_full_log() {
    let mut system = CustodySystem::new();
    system
        .create_wallet("a".to_string(), "addr_a".to_string(), WalletType::Hot)
        .unwrap();
    system
        .create_wallet("b".to_string(), "addr_b".to_string(), WalletType::Cold)
        .unwrap();

    system.deposit("a", 1_000).unwrap();
    system.transfer("a", "b", 250).unwrap();
    system.withdraw("b", 50).unwrap();
    system.deposit("b", 7).unwrap();

    assert_eq!(
        system.get_total_balance(),
        net_of_records(system.get_all_transactions())
    );
}

#[test]
fn failed_withdrawal_changes_nothing() {
    let mut system = CustodySystem::new();
    system
        .create_wallet("a".to_string(), "addr_a".to_string(), WalletType::Hot)
        .unwrap();
    system.deposit("a", 50).unwrap();
    let log_before: Vec<Transaction> = system.get_all_transactions().clone();

    let result = system.withdraw("a", 70);
    assert!(matches!(
        result.unwrap_err(),
        LedgerError::InsufficientBalance { available: 50, requested: 70 }
    ));

    assert_eq!(system.get_wallet("a").unwrap().balance, 50);
    assert_eq!(system.get_all_transactions(), &log_before);
}

#[test]
fn duplicate_create_leaves_existing_wallet_untouched() {
    let mut system = CustodySystem::new();
    system
        .create_wallet("a".to_string(), "original_addr".to_string(), WalletType::Hot)
        .unwrap();
    system.deposit("a", 5).unwrap();

    let result = system.create_wallet("a".to_string(), "other_addr".to_string(), WalletType::Cold);
    assert!(matches!(
        result.unwrap_err(),
        LedgerError::AlreadyExists { id } if id == "a"
    ));

    let wallet = system.get_wallet("a").unwrap();
    assert_eq!(wallet.address, "original_addr");
    assert_eq!(wallet.balance, 5);
    assert_eq!(wallet.wallet_type, WalletType::Hot);
    assert_eq!(system.wallet_count(), 1);
}

#[test]
fn failing_transfers_leave_state_identical() {
    let mut system = CustodySystem::new();
    system
        .create_wallet("a".to_string(), "addr_a".to_string(), WalletType::Hot)
        .unwrap();
    system
        .create_wallet("b".to_string(), "addr_b".to_string(), WalletType::Cold)
        .unwrap();
    system.deposit("a", 40).unwrap();
    system.deposit("b", 10).unwrap();

    let log_before: Vec<Transaction> = system.get_all_transactions().clone();

    // each of the four checks, in validation order
    assert!(matches!(
        system.transfer("a", "b", 0).unwrap_err(),
        LedgerError::InvalidAmount
    ));
    assert!(matches!(
        system.transfer("ghost", "b", 5).unwrap_err(),
        LedgerError::NotFound { id, role: WalletRole::Source } if id == "ghost"
    ));
    assert!(matches!(
        system.transfer("a", "ghost", 5).unwrap_err(),
        LedgerError::NotFound { id, role: WalletRole::Destination } if id == "ghost"
    ));
    assert!(matches!(
        system.transfer("a", "b", 41).unwrap_err(),
        LedgerError::InsufficientBalance { available: 40, requested: 41 }
    ));

    assert_eq!(system.get_wallet("a").unwrap().balance, 40);
    assert_eq!(system.get_wallet("b").unwrap().balance, 10);
    assert_eq!(system.get_all_transactions(), &log_before);
}

#[test]
fn not_found_on_single_wallet_operations_names_the_target() {
    let mut system = CustodySystem::new();
    assert!(matches!(
        system.deposit("missing", 5).unwrap_err(),
        LedgerError::NotFound { id, role: WalletRole::Target } if id == "missing"
    ));
    assert!(matches!(
        system.withdraw("missing", 5).unwrap_err(),
        LedgerError::NotFound { id, role: WalletRole::Target } if id == "missing"
    ));
}

#[test]
fn audit_trail_is_complete_and_ordered() {
    let mut system = CustodySystem::new();
    system
        .create_wallet("a".to_string(), "addr_a".to_string(), WalletType::Hot)
        .unwrap();
    system
        .create_wallet("b".to_string(), "addr_b".to_string(), WalletType::Cold)
        .unwrap();

    system.deposit("a", 100).unwrap();
    system.deposit("b", 20).unwrap();
    system.withdraw("a", 10).unwrap();
    system.transfer("a", "b", 25).unwrap();

    // three single mutations plus two records for the transfer
    let log = system.get_all_transactions();
    assert_eq!(log.len(), 5);

    let expect = [
        ("a", TransactionType::Deposit, 100),
        ("b", TransactionType::Deposit, 20),
        ("a", TransactionType::Withdrawal, 10),
        ("a", TransactionType::Withdrawal, 25),
        ("b", TransactionType::Deposit, 25),
    ];
    for (record, (id, kind, amount)) in log.iter().zip(expect.iter()) {
        assert_eq!(record.wallet_id, *id);
        assert_eq!(record.transaction_type, *kind);
        assert_eq!(record.amount, *amount);
    }
}

#[test]
fn transfer_to_same_wallet_keeps_balance_and_logs_both_records() {
    let mut system = CustodySystem::new();
    system
        .create_wallet("a".to_string(), "addr_a".to_string(), WalletType::Hot)
        .unwrap();
    system.deposit("a", 100).unwrap();

    system.transfer("a", "a", 60).unwrap();

    assert_eq!(system.get_wallet("a").unwrap().balance, 100);
    let records = system.get_wallet_transactions("a");
    assert_eq!(records.len(), 3);
    assert_eq!(records[1].transaction_type, TransactionType::Withdrawal);
    assert_eq!(records[1].amount, 60);
    assert_eq!(records[2].transaction_type, TransactionType::Deposit);
    assert_eq!(records[2].amount, 60);
}

#[test]
fn empty_strings_are_accepted() {
    let mut system = CustodySystem::new();
    let wallet = system
        .create_wallet(String::new(), String::new(), WalletType::Cold)
        .unwrap();
    assert_eq!(wallet.id, "");
    assert_eq!(wallet.address, "");

    system.deposit("", 3).unwrap();
    assert_eq!(system.get_wallet("").unwrap().balance, 3);
}

#[test]
fn worked_scenario() {
    let mut system = CustodySystem::new();

    // create w1 (Hot): balance 0; deposit 50: balance 50, one record
    system
        .create_wallet("w1".to_string(), "addr1".to_string(), WalletType::Hot)
        .unwrap();
    assert_eq!(system.get_wallet("w1").unwrap().balance, 0);
    system.deposit("w1", 50).unwrap();
    assert_eq!(system.get_wallet("w1").unwrap().balance, 50);
    let log = system.get_all_transactions();
    assert_eq!(log.len(), 1);
    assert_eq!(log[0].wallet_id, "w1");
    assert_eq!(log[0].transaction_type, TransactionType::Deposit);
    assert_eq!(log[0].amount, 50);

    // withdraw 70: fails with available 50, requested 70; nothing changes
    assert!(matches!(
        system.withdraw("w1", 70).unwrap_err(),
        LedgerError::InsufficientBalance { available: 50, requested: 70 }
    ));
    assert_eq!(system.get_wallet("w1").unwrap().balance, 50);
    assert_eq!(system.get_all_transactions().len(), 1);

    // create w2 (Cold); transfer 20: w1 at 30, w2 at 20, two more records
    system
        .create_wallet("w2".to_string(), "addr2".to_string(), WalletType::Cold)
        .unwrap();
    system.transfer("w1", "w2", 20).unwrap();
    assert_eq!(system.get_wallet("w1").unwrap().balance, 30);
    assert_eq!(system.get_wallet("w2").unwrap().balance, 20);
    let log = system.get_all_transactions();
    assert_eq!(log.len(), 3);
    assert_eq!(log[1].wallet_id, "w1");
    assert_eq!(log[1].transaction_type, TransactionType::Withdrawal);
    assert_eq!(log[1].amount, 20);
    assert_eq!(log[2].wallet_id, "w2");
    assert_eq!(log[2].transaction_type, TransactionType::Deposit);
    assert_eq!(log[2].amount, 20);

    // invalid amounts are rejected without any state change
    assert!(matches!(
        system.transfer("w1", "w2", -5).unwrap_err(),
        LedgerError::InvalidAmount
    ));
    assert!(matches!(
        system.deposit("w1", 0).unwrap_err(),
        LedgerError::InvalidAmount
    ));
    assert_eq!(system.get_all_transactions().len(), 3);

    // the transfer only moved value inside the system
    assert_eq!(system.get_total_balance(), 50);
}
