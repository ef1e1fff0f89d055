//! Errors of the LSD hub.
use vstd::prelude::*;

verus! {

/// Why a payment attached to a message was refused.
#[derive(Debug, Clone, PartialEq, Eq)]
pub enum PaymentError {
    MissingDenom(String),
    ExtraDenom(String),
    MultipleDenoms,
    NoFunds,
    NonPayable,
}

/// An amount would have dropped below zero.
#[derive(Debug, Clone, Copy, PartialEq, Eq, Structural)]
pub struct OverflowError;

/// Errors of the LSD hub contract.
#[derive(Debug, Clone, PartialEq, Eq)]
pub enum ContractError {
    /// An arithmetic overflow reported as a standard error.
    Overflow,
    /// A reply with an id the contract does not know.
    InvalidReplyId { id: u64 },
    Unauthorized,
    InvalidToken,
    Payment(PaymentError),
    InvalidLiquidityDiscount,
    EpochNotReached { next_epoch: u64 },
    InvalidValidator,
    InvalidValidatorWeights,
    UnbondingTooClose,
    InvalidCommission,
    NothingToClaim,
    InvalidEpochPeriod,
    InvalidUnbondPeriod,
    InvalidMaxConcurrentUnbondings,
    MigrationFailed,
    /// The balance that the last reinvest recorded is missing.
    NotFound,
    /// The reply to the creation of the token does not hold its address.
    ParseReply,
}

} // verus!
