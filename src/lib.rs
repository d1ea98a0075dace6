//! A minimal proof-of-work ledger: hashes, keys, Merkle commitments,
//! transaction and block validation, and the chain state with its UTXO set.
use vstd::prelude::*;

pub mod crypto;
pub mod encode;
pub mod error;
pub mod hash;
pub mod merkle;
pub mod types;
pub mod utxo;
pub mod validation;
pub mod u256;
pub mod chain;
pub mod difficulty;

verus! {

/// Block reward of the first halving era, in whole coins.
pub const INITIAL_REWARD: u64 = 50;

/// Number of blocks between two halvings of the reward.
pub const HALVING_INTERVAL: u64 = 210;

/// Intended number of seconds between two blocks.
pub const IDEAL_BLOCK_TIME: u64 = 10;

/// Number of blocks between two difficulty adjustments.
pub const DIFFICULTY_UPDATE_INTERVALS: u64 = 50;

} // verus!
