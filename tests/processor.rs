use payments_engine::ledger::Ledger;
use payments_engine::processor::handle_transaction;
use payments_engine::transactions::{Transaction, TransactionStatus};

#[test]
fn test_deposit() {
    let mut ledger = Ledger::new();

    let tx = Transaction::new_deposit(1, 1, 30000);

    handle_transaction(tx, &mut ledger);

    let client = ledger.client(1).unwrap();

    assert_eq!(client.available, 30000);
    assert_eq!(client.held, 0);
    assert_eq!(client.total, 30000);
    assert!(!client.locked);
}

#[test]
fn test_multiple_deposits_with_different_tx_ids_succeed() {
    let mut ledger = Ledger::new();

    let deposit1 = Transaction::new_deposit(1, 1, 30000);
    let deposit2 = Transaction::new_deposit(1, 2, 20000);

    handle_transaction(deposit1, &mut ledger);
    handle_transaction(deposit2, &mut ledger);

    let client = ledger.client(1).unwrap();

    assert_eq!(client.available, 50000);
    assert_eq!(client.held, 0);
    assert_eq!(client.total, 50000);
    assert!(!client.locked);
}

#[test]
fn test_multiple_deposits_with_different_client_ids_succeed() {
    let mut ledger = Ledger::new();

    let deposit1 = Transaction::new_deposit(1, 3, 30000);
    let deposit2 = Transaction::new_deposit(2, 4, 20000);

    handle_transaction(deposit1, &mut ledger);
    handle_transaction(deposit2, &mut ledger);

    let client = ledger.client(1).unwrap();

    assert_eq!(client.available, 30000);
    assert_eq!(client.held, 0);
    assert_eq!(client.total, 30000);
    assert!(!client.locked);

    let client = ledger.client(2).unwrap();

    assert_eq!(client.available, 20000);
    assert_eq!(client.held, 0);
    assert_eq!(client.total, 20000);
    assert!(!client.locked);
}

#[test]
fn test_multiple_deposits_with_same_tx_ids_allows_only_first() {
    let mut ledger = Ledger::new();

    let deposit1 = Transaction::new_deposit(1, 1, 30000);
    let deposit2 = Transaction::new_deposit(1, 1, 20000);

    handle_transaction(deposit1, &mut ledger);
    handle_transaction(deposit2, &mut ledger);

    let client = ledger.client(1).unwrap();

    assert_eq!(client.available, 30000);
    assert_eq!(client.held, 0);
    assert_eq!(client.total, 30000);
    assert!(!client.locked);
}

#[test]
fn test_deposit_and_withdrawal() {
    let mut ledger = Ledger::new();

    let deposit = Transaction::new_deposit(1, 1, 30000);
    let withdrawal = Transaction::new_withdrawal(1, 2, 15000);

    handle_transaction(deposit, &mut ledger);
    handle_transaction(withdrawal, &mut ledger);

    let client = ledger.client(1).unwrap();

    assert_eq!(client.available, 15000);
    assert_eq!(client.held, 0);
    assert_eq!(client.total, 15000);
    assert!(!client.locked);
}

#[test]
fn test_withdrawing_more_than_available_fails() {
    let mut ledger = Ledger::new();

    let deposit = Transaction::new_deposit(1, 1, 30000);
    let withdrawal = Transaction::new_withdrawal(1, 2, 40000);

    handle_transaction(deposit, &mut ledger);
    handle_transaction(withdrawal, &mut ledger);

    let client = ledger.client(1).unwrap();

    assert_eq!(client.available, 30000);
    assert_eq!(client.held, 0);
    assert_eq!(client.total, 30000);
    assert!(!client.locked);
}

#[test]
fn test_disputing_an_existing_transaction_succeeds() {
    let mut ledger = Ledger::new();

    let deposit = Transaction::new_deposit(1, 1, 30000);
    let dispute = Transaction::new_dispute(1, 1);

    handle_transaction(deposit, &mut ledger);
    handle_transaction(dispute, &mut ledger);

    let client = ledger.client(1).unwrap();

    assert_eq!(client.available, 0);
    assert_eq!(client.held, 30000);
    assert_eq!(client.total, 30000);
    assert!(!client.locked);
    assert_eq!(
        ledger.transaction(1).unwrap().status,
        TransactionStatus::Disputed
    );
}

#[test]
fn test_dangling_dispute_is_ignored() {
    let mut ledger = Ledger::new();

    let dispute = Transaction::new_dispute(1, 1);

    handle_transaction(dispute, &mut ledger);

    assert!(ledger.client(1).is_none());
    assert!(ledger.transaction(1).is_none());
}

#[test]
fn test_resolving_a_disputed_transaction_succeeds() {
    let mut ledger = Ledger::new();

    let deposit1 = Transaction::new_deposit(1, 1, 30000);
    let deposit2 = Transaction::new_deposit(1, 2, 10000);
    let dispute = Transaction::new_dispute(1, 1);
    let resolve = Transaction::new_resolve(1, 1);

    handle_transaction(deposit1, &mut ledger);
    handle_transaction(deposit2, &mut ledger);

    assert_eq!(ledger.client(1).unwrap().available, 40000);

    handle_transaction(dispute, &mut ledger);
    assert_eq!(ledger.client(1).unwrap().available, 10000);
    assert_eq!(ledger.client(1).unwrap().held, 30000);
    assert_eq!(
        ledger.transaction(1).unwrap().status,
        TransactionStatus::Disputed
    );

    handle_transaction(resolve, &mut ledger);
    assert_eq!(ledger.client(1).unwrap().available, 40000);
    assert_eq!(ledger.client(1).unwrap().held, 0);
    assert_eq!(
        ledger.transaction(1).unwrap().status,
        TransactionStatus::Good
    );
}

#[test]
fn test_dangling_resolve_is_ignored() {
    let mut ledger = Ledger::new();

    let dispute = Transaction::new_resolve(1, 1);

    handle_transaction(dispute, &mut ledger);

    assert!(ledger.client(1).is_none());
    assert!(ledger.transaction(1).is_none());
}

#[test]
fn test_chargeback_succeeds() {
    let mut ledger = Ledger::new();

    let deposit1 = Transaction::new_deposit(1, 1, 30000);
    let deposit2 = Transaction::new_deposit(1, 2, 10000);
    let dispute = Transaction::new_dispute(1, 1);
    let chargeback = Transaction::new_chargeback(1, 1);

    handle_transaction(deposit1, &mut ledger);
    handle_transaction(deposit2, &mut ledger);
    assert_eq!(ledger.client(1).unwrap().available, 40000);

    handle_transaction(dispute, &mut ledger);
    assert_eq!(ledger.client(1).unwrap().available, 10000);
    assert_eq!(ledger.client(1).unwrap().held, 30000);
    assert_eq!(
        ledger.transaction(1).unwrap().status,
        TransactionStatus::Disputed
    );

    handle_transaction(chargeback, &mut ledger);
    assert_eq!(ledger.client(1).unwrap().available, 10000);
    assert_eq!(ledger.client(1).unwrap().held, 0);
    assert!(ledger.client(1).unwrap().locked);
    assert_eq!(
        ledger.transaction(1).unwrap().status,
        TransactionStatus::Chargeback
    );
}

#[test]
fn test_chargeback_for_a_non_disputed_transaction_is_ignored() {
    let mut ledger = Ledger::new();

    let deposit = Transaction::new_deposit(1, 1, 30000);
    let chargeback = Transaction::new_chargeback(1, 1);

    handle_transaction(deposit, &mut ledger);
    assert_eq!(ledger.client(1).unwrap().available, 30000);
    assert_eq!(ledger.client(1).unwrap().held, 0);

    handle_transaction(chargeback, &mut ledger);
    assert_eq!(ledger.client(1).unwrap().available, 30000);
    assert_eq!(ledger.client(1).unwrap().held, 0);
    assert!(!ledger.client(1).unwrap().locked);
    assert_eq!(
        ledger.transaction(1).unwrap().status,
        TransactionStatus::Good
    );
}

#[test]
fn test_dangling_chargeback_is_ignored() {
    let mut ledger = Ledger::new();

    let dispute = Transaction::new_chargeback(1, 1);

    handle_transaction(dispute, &mut ledger);

    assert!(ledger.client(1).is_none());
    assert!(ledger.transaction(1).is_none());
}
