//! A custodial vault for one asset. Users deposit the asset; the vault lends
//! it on to a collateral pool in its own name and keeps each depositor's
//! claim as shares.
//!
//! The vault decides and keeps the books; it makes no call itself. Its host
//! authenticates the caller, carries out the calls to the asset ledger and
//! to the pool that the vault asks for, and stores the vault's state between
//! invocations.
//!
//! - `address`, `wire`: principals, and the bytes by which a host names them
//! - `rate`: the exchange rate between asset and shares
//! - `grant`: the narrow, single-use approvals that the vault gives as itself
//! - `action`: the calls that the vault asks its host to make
//! - `model`, `sum`: the vault as a state machine over mathematical values
//! - `book`: balances and their total
//! - `vault`: the vault itself
//! - `laws`: what holds of the vault in every state it can reach

pub mod action;
pub mod address;
pub mod book;
pub mod error;
pub mod grant;
pub mod laws;
pub mod model;
pub mod rate;
pub mod sum;
pub mod vault;
pub mod wire;
