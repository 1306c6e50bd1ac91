//! A ledger of client accounts driven by a stream of deposits, withdrawals,
//! disputes, resolves and chargebacks.
//!
//! Amounts are fixed-point: integer counts of ten-thousandths of a currency
//! unit (`money`). Each client has one `Account`; `process::process_one`
//! applies one transaction to the accounts and the ledger of past deposits
//! and withdrawals, or rejects it and leaves both as they were.
pub mod account;
pub mod money;
pub mod process;
pub mod transaction;

pub use account::Account;
pub use process::State;
pub use transaction::{Transaction, TransactionType};
