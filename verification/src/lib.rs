//! A minimal proof-of-work ledger: blocks of signed value transfers, checked
//! against a set of unspent outputs, with a pool of pending transactions and
//! a difficulty target that adjusts itself.

pub mod blockchain;
pub mod crypto;
pub mod error;
pub mod mempool;
pub mod sha256;
pub mod theorems;
pub mod types;
pub mod u256;
pub mod utils;
pub mod utxo;
pub mod validation;

use vstd::prelude::*;

verus! {

/// Whole coins minted by the first blocks.
pub const INITIAL_REWARD: u64 = 50;

/// Sub-units in one whole coin.
pub const UNITS_PER_COIN: u64 = 100_000_000;

/// Number of blocks after which the reward halves.
pub const HALVING_INTERVAL: u64 = 210;

/// Seconds that one block should take to mine.
pub const IDEAL_BLOCK_TIME: u64 = 10;

/// Number of blocks between two adjustments of the target.
pub const DIFFICULTY_UPDATE_INTERVAL: u64 = 50;

/// Seconds after which a pending transaction expires.
pub const MAX_MEMPOOL_TRANSACTION_AGE: u64 = 600;

} // verus!
