//! A ledger of client balances driven by deposit, withdrawal, dispute,
//! resolve and chargeback events.
//!
//! Monetary amounts are exact fixed-point values: an `i64` counts
//! ten-thousandths of a currency unit, so `3.0` is `30000`.
pub mod amount;
pub mod ledger;
pub mod processor;
pub mod transactions;
