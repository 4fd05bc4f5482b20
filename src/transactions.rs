//! Events that drive the ledger, and the records kept of accepted ones.
use vstd::prelude::*;

verus! {

/// The kind of a ledger event.
#[derive(Copy, Clone, Debug, PartialEq, Eq, Structural)]
pub enum TransactionType {
    Deposit,
    Withdrawal,
    Dispute,
    Resolve,
    Chargeback,
}

/// One ledger event. `amount` counts ten-thousandths of a unit and is
/// present for deposits and withdrawals only.
#[derive(Copy, Clone, Debug)]
pub struct Transaction {
    pub tx_type: TransactionType,
    pub client_id: u16,
    pub tx_id: u32,
    pub amount: Option<i64>,
}

impl Transaction {
    pub fn new_deposit(client_id: u16, tx_id: u32, amount: i64) -> (r: Self)
        ensures
            r == (Transaction { tx_type: TransactionType::Deposit, client_id, tx_id, amount: Some(amount) }),
    {
        Transaction { tx_type: TransactionType::Deposit, client_id, tx_id, amount: Some(amount) }
    }

    pub fn new_withdrawal(client_id: u16, tx_id: u32, amount: i64) -> (r: Self)
        ensures
            r == (Transaction { tx_type: TransactionType::Withdrawal, client_id, tx_id, amount: Some(amount) }),
    {
        Transaction { tx_type: TransactionType::Withdrawal, client_id, tx_id, amount: Some(amount) }
    }

    pub fn new_dispute(client_id: u16, tx_id: u32) -> (r: Self)
        ensures
            r == (Transaction { tx_type: TransactionType::Dispute, client_id, tx_id, amount: None }),
    {
        Transaction { tx_type: TransactionType::Dispute, client_id, tx_id, amount: None }
    }

    pub fn new_resolve(client_id: u16, tx_id: u32) -> (r: Self)
        ensures
            r == (Transaction { tx_type: TransactionType::Resolve, client_id, tx_id, amount: None }),
    {
        Transaction { tx_type: TransactionType::Resolve, client_id, tx_id, amount: None }
    }

    pub fn new_chargeback(client_id: u16, tx_id: u32) -> (r: Self)
        ensures
            r == (Transaction { tx_type: TransactionType::Chargeback, client_id, tx_id, amount: None }),
    {
        Transaction { tx_type: TransactionType::Chargeback, client_id, tx_id, amount: None }
    }
}

/// Where an accepted deposit or withdrawal stands in the dispute lifecycle.
#[derive(Copy, Clone, Debug, PartialEq, Eq, Structural)]
pub enum TransactionStatus {
    Good,
    Disputed,
    Chargeback,
}

/// An accepted deposit or withdrawal together with its dispute status.
#[derive(Copy, Clone, Debug)]
pub struct TransactionWithStatus {
    pub tx: Transaction,
    pub status: TransactionStatus,
}

} // verus!
