//! A verified account-aggregation engine for a transaction ledger.
//!
//! The library replays deposit, withdrawal, dispute, resolve and chargeback
//! events against per-client running balances and produces one account
//! snapshot per client, or fails the whole batch when a client's summed
//! deposits minus withdrawals is negative.
//!
//! All monetary values are fixed-point decimals represented as integer
//! counts of minor units (for instance ten-thousandths of a currency unit),
//! so that arithmetic is exact.

pub mod account;
pub mod error;
pub mod laws;
pub mod model;
pub mod transaction;

pub use account::Account;
pub use error::Error;
pub use transaction::{Transaction, TransactionKind};
