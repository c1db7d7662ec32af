//! The three-way split of accumulated fees.
use crate::coin::Payee;
use crate::error::ContractError;
use crate::math::{checked_multiply_ratio, lemma_ratio_bounded, ratio_of};
use vstd::prelude::*;

verus! {

/// The shares of a distribution, each `total * weight / weight_sum` floored on its own.
#[derive(Debug, Clone, Copy, PartialEq, Eq, Structural)]
pub struct FeeSplit {
    /// The amount that was split.
    pub total: u128,
    pub yield_amount: u128,
    pub lp_amount: u128,
    pub treasury_amount: u128,
}

/// The split of `total` by the three weights, each share floored independently.
pub open spec fn split_spec(total: u128, yield_weight: u64, lp_weight: u64, treasury_weight: u64) -> FeeSplit {
    let sum = yield_weight + lp_weight + treasury_weight;
    FeeSplit {
        total,
        yield_amount: ratio_of(total as int, yield_weight as int, sum) as u128,
        lp_amount: ratio_of(total as int, lp_weight as int, sum) as u128,
        treasury_amount: ratio_of(total as int, treasury_weight as int, sum) as u128,
    }
}

/// Splits `total` by the three weights, normalized by their sum. Any rounding
/// remainder is left out of the shares. Fails when the weights sum to zero.
pub fn split_fee(total: u128, yield_weight: u64, lp_weight: u64, treasury_weight: u64) -> (r: Result<FeeSplit, ContractError>)
    ensures
        yield_weight + lp_weight + treasury_weight == 0 ==> r == Err::<FeeSplit, ContractError>(ContractError::InvalidFeeSplit),
        yield_weight + lp_weight + treasury_weight > 0 ==> r == Ok::<FeeSplit, ContractError>(split_spec(total, yield_weight, lp_weight, treasury_weight)),
{
    let sum: u128 = yield_weight as u128 + lp_weight as u128 + treasury_weight as u128;
    if sum == 0 {
        return Err(ContractError::InvalidFeeSplit);
    }
    proof {
        lemma_ratio_bounded(total as int, yield_weight as int, sum as int);
        lemma_ratio_bounded(total as int, lp_weight as int, sum as int);
        lemma_ratio_bounded(total as int, treasury_weight as int, sum as int);
    }
    let yield_amount = checked_multiply_ratio(total, yield_weight as u128, sum).unwrap();
    let lp_amount = checked_multiply_ratio(total, lp_weight as u128, sum).unwrap();
    let treasury_amount = checked_multiply_ratio(total, treasury_weight as u128, sum).unwrap();
    Ok(FeeSplit { total, yield_amount, lp_amount, treasury_amount })
}

/// The payouts of a split, one for each non-zero share, in the order yield, LP, treasury.
pub open spec fn payouts_spec(split: FeeSplit) -> Seq<(Payee, u128)> {
    let y = if split.yield_amount > 0 { seq![(Payee::YieldPool, split.yield_amount)] } else { Seq::empty() };
    let l = if split.lp_amount > 0 { seq![(Payee::LiquidityProviders, split.lp_amount)] } else { Seq::empty() };
    let t = if split.treasury_amount > 0 { seq![(Payee::Treasury, split.treasury_amount)] } else { Seq::empty() };
    y + l + t
}

impl FeeSplit {
    /// The transfers that carry out this split: one for each non-zero share.
    pub fn payouts(&self) -> (r: Vec<(Payee, u128)>)
        ensures
            r@ == payouts_spec(*self),
    {
        let mut r: Vec<(Payee, u128)> = Vec::new();
        if self.yield_amount > 0 {
            r.push((Payee::YieldPool, self.yield_amount));
        }
        if self.lp_amount > 0 {
            r.push((Payee::LiquidityProviders, self.lp_amount));
        }
        if self.treasury_amount > 0 {
            r.push((Payee::Treasury, self.treasury_amount));
        }
        assert(r@ =~= payouts_spec(*self));
        r
    }
}

/// Split conservation: the three shares never exceed the amount split, and
/// flooring each share independently loses at most two units to rounding.
pub proof fn lemma_split_conservation(total: u128, yield_weight: u64, lp_weight: u64, treasury_weight: u64)
    requires
        yield_weight + lp_weight + treasury_weight > 0,
    ensures
        ({
            let s = split_spec(total, yield_weight, lp_weight, treasury_weight);
            &&& s.yield_amount + s.lp_amount + s.treasury_amount <= total
            &&& total - (s.yield_amount + s.lp_amount + s.treasury_amount) <= 2
        }),
{
    let d = yield_weight + lp_weight + treasury_weight;
    let t = total as int;
    let wy = yield_weight as int;
    let wl = lp_weight as int;
    let wt = treasury_weight as int;
    let y = t * wy / d;
    let l = t * wl / d;
    let z = t * wt / d;
    lemma_ratio_bounded(t, wy, d);
    lemma_ratio_bounded(t, wl, d);
    lemma_ratio_bounded(t, wt, d);
    assert(y * d <= t * wy && t * wy < y * d + d) by (nonlinear_arith)
        requires y == t * wy / d, d > 0;
    assert(l * d <= t * wl && t * wl < l * d + d) by (nonlinear_arith)
        requires l == t * wl / d, d > 0;
    assert(z * d <= t * wt && t * wt < z * d + d) by (nonlinear_arith)
        requires z == t * wt / d, d > 0;
    assert(t * wy + t * wl + t * wt == t * d) by (nonlinear_arith)
        requires d == wy + wl + wt;
    assert((y + l + z) * d <= t * d) by (nonlinear_arith)
        requires y * d <= t * wy, l * d <= t * wl, z * d <= t * wt, t * wy + t * wl + t * wt == t * d;
    assert(t * d < (y + l + z + 3) * d) by (nonlinear_arith)
        requires t * wy < y * d + d, t * wl < l * d + d, t * wt < z * d + d, t * wy + t * wl + t * wt == t * d;
    assert(y + l + z <= t) by (nonlinear_arith)
        requires (y + l + z) * d <= t * d, d > 0;
    assert(t < y + l + z + 3) by (nonlinear_arith)
        requires t * d < (y + l + z + 3) * d, d > 0;
}

} // verus!
