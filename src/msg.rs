//! The message surface of the market maker and the staking ledger.
use vstd::prelude::*;

verus! {

/// The state-changing calls.
#[derive(Debug, Clone)]
pub enum ExecuteMsg {
    /// Swap `amount` of `token_in` for `token_out`.
    KaleSwap { amount: u128, token_in: String, token_out: String },
    /// Owner only: distribute what has accumulated in `denom`.
    DistributeAccumulatedFees { denom: String },
    /// Owner only: replace the given fee parameters of the market maker.
    UpdateFeeConfig {
        fee_percent: Option<u64>,
        yield_percent: Option<u64>,
        lp_percent: Option<u64>,
        treasury_percent: Option<u64>,
        fee_threshold: Option<u128>,
    },
    /// Stake `amount` of the stake denomination.
    KaleStake { amount: u128 },
    /// Withdraw `amount` of principal.
    KaleUnstake { amount: u128 },
    /// Claim the pending yield.
    KaleClaim,
    /// Add `amount` of `token` to the fee pool.
    AddFeeToPool { amount: u128, token: String },
    /// Owner only: replace the given staking parameters.
    UpdateConfig {
        min_apy: Option<u64>,
        max_apy: Option<u64>,
        lock_period: Option<u64>,
        kale_reserve: Option<u128>,
        fee_yield_percent: Option<u64>,
    },
}

/// The read-only queries.
#[derive(Debug, Clone)]
pub enum QueryMsg {
    /// The pool of the unordered pair.
    GetPool { token_a: String, token_b: String },
    /// The fee accumulated in `denom`.
    GetAccumulatedFees { denom: String },
    /// A staker's record and pending yield.
    GetStaker { address: String },
    /// The staking fee pool and the amount staked.
    GetFeePool,
    GetTotalStaked,
    GetCurrentAPY,
    GetConfig,
}

} // verus!
