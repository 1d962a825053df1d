//! Verified core of a small BFT ledger node: the wire format
//! of transactions and blocks, the genesis and block digests, the balance
//! simulation that decides whether a proposed block is valid, and the state
//! machine of the application actor that answers the consensus engine.

pub mod application;
pub mod block;
pub mod genesis;
pub mod hashing;
pub mod history;
pub mod ledger;
pub mod store;
pub mod transaction;
pub mod validation;

pub use block::Block;
pub use transaction::Transaction;

use vstd::prelude::*;

verus! {

/// Number of pre-funded genesis accounts.
pub const NUM_ACCOUNTS: u8 = 4;

/// Initial token balance for each genesis account.
pub const GENESIS_BALANCE: u64 = 1_000_000;

} // verus!
