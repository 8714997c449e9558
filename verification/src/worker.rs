//! The retry policy of a worker's calls to the ledger.

use vstd::prelude::*;

verus! {

/// The attempts that a vote is given before it counts as failed.
pub const VOTE_ATTEMPTS: usize = 10;

/// The multiplier of the exponential backoff between two attempts to vote.
pub const VOTE_BACKOFF_MULTIPLIER: u64 = 5;

} // verus!
