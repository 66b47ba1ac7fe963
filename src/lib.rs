//! A per-client payments ledger: accounts with held funds, disputes and
//! chargebacks, driven by a single-writer dispatcher.
//!
//! Monetary amounts are fixed point: one unit is `10^-8` of the currency
//! (see `amount::SCALE`). Reported values are rounded to four decimals.

pub mod amount;
pub mod error;
pub mod transaction;
pub mod account;
pub mod payment_engine;
pub mod report;
