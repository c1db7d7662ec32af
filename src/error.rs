//! The failures of every operation. Each one aborts the whole call: no state
//! is changed when an operation returns an error.
use vstd::prelude::*;

verus! {

#[derive(Debug, Clone, Copy, PartialEq, Eq, Structural)]
pub enum ContractError {
    /// A non-owner attempted an owner-only action.
    Unauthorized,
    /// The attached funds do not match the declared amount or denomination (staking).
    InvalidFunds,
    /// The attached funds do not match the declared amount or denomination (swapping).
    FundsMismatch,
    /// The pool cannot serve the swap.
    InsufficientLiquidity,
    /// The amount exceeds what is available.
    InsufficientFunds,
    /// Unstaking before the lock expires.
    StakeLocked,
    /// A claim with nothing to pay out.
    NoRewards,
    /// A manual distribution with nothing accumulated.
    NothingToDistribute,
    /// A degenerate reserve state: the pricing denominator is zero.
    InvalidPool,
    /// No pool trades the requested pair.
    PoolNotFound,
    /// The token is not the one this operation accepts.
    InvalidToken,
    /// A zero amount where a positive one is required.
    InvalidAmount,
    /// The three fee-split weights sum to zero.
    InvalidFeeSplit,
    /// Arithmetic overflow or underflow on a quantity whose invariants forbid it.
    StateCorruption,
}

} // verus!
