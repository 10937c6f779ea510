//! A single-pass payments engine: it consumes an ordered stream of
//! transaction records (deposits, withdrawals and the dispute lifecycle,
//! keyed by client and transaction identifiers), maintains per-client
//! account balances, and produces a final snapshot of every account.
//!
//! Monetary amounts are exact fixed-point decimals with four fractional
//! digits, stored as integer counts of 1/10000 units; no binary floating
//! point ever touches an amount, so repeated summation stays exact.

pub mod account;
pub mod amount;
pub mod bank;
pub mod laws;
pub mod parse;
pub mod report;
pub mod sums;
pub mod transaction;

pub use account::Account;
pub use account::AccountView;
pub use account::Rejection;
pub use amount::Amount;
pub use amount::MAX_AMOUNT_UNITS;
pub use amount::UNITS_PER_WHOLE;
pub use bank::Bank;
pub use parse::parse_transactions;
pub use parse::ParseError;
pub use report::render_units;
pub use transaction::Transaction;
pub use transaction::TransactionType;
