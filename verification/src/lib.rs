//! Deterministic transaction core of a small cryptocurrency ledger.
//!
//! Transactions are applied one at a time, in the order in which they are
//! handed over, to a table of wallets keyed by public key. Every function
//! carries a contract over a mathematical model of its data: a wallet is
//! viewed as a [`schema::WalletView`], the table as a finite map from key
//! bytes to wallet views.

pub mod contracts;
pub mod crypto;
pub mod errors;
pub mod invariants;
pub mod ledger;
pub mod schema;
pub mod service;
pub mod storage;
pub mod transactions;
