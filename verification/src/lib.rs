//! Verified core of the WYND liquid staking contracts: the fixed-point
//! arithmetic they share, the LSD hub's supply and epoch bookkeeping, its
//! validator-set rebalancing and state transitions, the bond router's
//! planning and the gauge adapter's option handling.
use vstd::prelude::*;

pub mod decimal;
pub mod seqsum;
pub mod error;
pub mod state;
pub mod keys;
pub mod msg;
pub mod valset;
pub mod payment;
pub mod rewards;
pub mod slashing;
pub mod hub;
pub mod migration;
pub mod laws;
pub mod router;
pub mod gauge;

verus! {

} // verus!
