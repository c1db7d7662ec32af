//! The staking ledger and the yield engine: stakers lock principal, and claim
//! a time-prorated, pool-bounded share of the fee pool at a utilization-based APY.
use crate::coin::{must_pay, sent_amount, Coin};
use crate::error::ContractError;
use crate::math::{
    ceil_ratio_of, checked_mul_ceil, decimal_from_ratio, decimal_mul, lemma_ceil_ratio_bounds, lemma_ratio_at_least, lemma_ratio_bounded, lemma_u64_decimal_fits,
    mul_decimal, ratio_of, DECIMAL_FRACTIONAL,
};
use vstd::prelude::*;

verus! {

/// Seconds in a (365-day) year.
pub const SECONDS_PER_YEAR: u128 = 31_536_000;

/// The denomination that is staked.
pub open spec fn stake_denom_spec() -> Seq<char> {
    seq!['k', 'a', 'l', 'e']
}

/// The denomination that rewards are paid in.
pub open spec fn reward_denom_spec() -> Seq<char> {
    seq!['u', 's', 'd', 'c']
}

/// The denomination that is staked.
pub fn stake_denom() -> (r: String)
    ensures
        r@ == stake_denom_spec(),
{
    proof {
        reveal_strlit("kale");
    }
    "kale".to_owned()
}

/// The denomination that rewards are paid in.
pub fn reward_denom() -> (r: String)
    ensures
        r@ == reward_denom_spec(),
{
    proof {
        reveal_strlit("usdc");
    }
    "usdc".to_owned()
}

/// The staking parameters.
#[derive(Debug, Clone)]
pub struct Config {
    pub owner: String,
    /// The APY at zero utilization, in percent.
    pub min_apy: u64,
    /// The APY at full utilization, in percent.
    pub max_apy: u64,
    /// Seconds that a stake stays locked after each deposit.
    pub lock_period: u64,
    /// The staked amount at which utilization is full; zero means the APY stays at its minimum.
    pub kale_reserve: u128,
    /// The share of swap fees meant for stakers, in percent.
    pub fee_yield_percent: u64,
}

/// The process-wide staking state.
#[derive(Debug, Clone)]
pub struct RewardsState {
    pub config: Config,
    /// The fee pool that rewards are paid from, in the reward denomination.
    pub fee_pool: u128,
    /// The sum of all stakers' principal.
    pub total_staked: u128,
}

/// One staker's record.
#[derive(Debug, Clone)]
pub struct Staker {
    pub address: String,
    /// The principal currently staked.
    pub staked_amount: u128,
    /// When the current stake began.
    pub staked_since: u64,
    /// When rewards were last claimed; yield accrues from here.
    pub last_claim_time: u64,
    pub accumulated_rewards: u128,
    /// The stake cannot be withdrawn before this time.
    pub locked_until: u64,
}

/// The parameters of a new staking ledger.
#[derive(Debug, Clone)]
pub struct InstantiateMsg {
    pub min_apy: u64,
    pub max_apy: u64,
    pub lock_period: u64,
    pub kale_reserve: u128,
    pub fee_yield_percent: u64,
}

/// The record of an address that has never staked, as of `now`.
pub fn new_staker(address: String, now: u64) -> (r: Staker)
    ensures
        r == (Staker {
            address,
            staked_amount: 0,
            staked_since: now,
            last_claim_time: now,
            accumulated_rewards: 0,
            locked_until: now,
        }),
{
    Staker { address, staked_amount: 0, staked_since: now, last_claim_time: now, accumulated_rewards: 0, locked_until: now }
}

/// A new staking ledger owned by `sender`, with nothing staked and an empty fee pool.
pub fn instantiate(sender: String, msg: InstantiateMsg) -> (r: RewardsState)
    ensures
        r == (RewardsState {
            config: Config {
                owner: sender,
                min_apy: msg.min_apy,
                max_apy: msg.max_apy,
                lock_period: msg.lock_period,
                kale_reserve: msg.kale_reserve,
                fee_yield_percent: msg.fee_yield_percent,
            },
            fee_pool: 0,
            total_staked: 0,
        }),
{
    RewardsState {
        config: Config {
            owner: sender,
            min_apy: msg.min_apy,
            max_apy: msg.max_apy,
            lock_period: msg.lock_period,
            kale_reserve: msg.kale_reserve,
            fee_yield_percent: msg.fee_yield_percent,
        },
        fee_pool: 0,
        total_staked: 0,
    }
}

/// `x` percent as decimal atomics.
pub open spec fn percent_spec(x: int) -> int {
    ratio_of(x, DECIMAL_FRACTIONAL as int, 100)
}

/// The APY, as decimal atomics: `min_apy + utilization * (max_apy - min_apy)` percent,
/// where utilization is `total_staked / kale_reserve` capped at one. It is never
/// rounded up: on a rising curve the utilization and the adjustment are floored;
/// when `max_apy` is below `min_apy` the curve falls, and the utilization and the
/// subtracted adjustment are rounded up instead. With a zero reserve the APY is
/// the minimum.
pub open spec fn apy_spec(config: Config, total_staked: u128) -> int {
    let f = DECIMAL_FRACTIONAL as int;
    let base = percent_spec(config.min_apy as int);
    if config.kale_reserve == 0 {
        base
    } else if config.min_apy <= config.max_apy {
        let u = ratio_of(total_staked as int, f, config.kale_reserve as int);
        let utilization = if u < f { u } else { f };
        base + ratio_of(percent_spec(config.max_apy - config.min_apy), utilization, f)
    } else {
        let u = ceil_ratio_of(total_staked as int, f, config.kale_reserve as int);
        let utilization = if u < f { u } else { f };
        base - ceil_ratio_of(percent_spec(config.min_apy - config.max_apy), utilization, f)
    }
}

proof fn lemma_percent_exact(x: u64)
    ensures
        percent_spec(x as int) == x * 10_000_000_000_000_000,
        percent_spec(x as int) <= 184_467_440_737_095_516_150_000_000_000_000_000,
{
    assert((x * 1_000_000_000_000_000_000int) / 100 == x * 10_000_000_000_000_000) by (nonlinear_arith);
}

/// The APY is never negative and stays well within 128 bits.
pub proof fn lemma_apy_range(config: Config, total_staked: u128)
    ensures
        0 <= apy_spec(config, total_staked) <= 2 * 184_467_440_737_095_516_150_000_000_000_000_000,
{
    let f = DECIMAL_FRACTIONAL as int;
    lemma_percent_exact(config.min_apy);
    if config.kale_reserve != 0 {
        if config.min_apy <= config.max_apy {
            let u = ratio_of(total_staked as int, f, config.kale_reserve as int);
            assert(total_staked * f >= 0) by (nonlinear_arith) requires total_staked >= 0, f > 0;
            assert(u >= 0) by (nonlinear_arith)
                requires u == (total_staked as int) * f / (config.kale_reserve as int), total_staked * f >= 0, config.kale_reserve > 0;
            let utilization = if u < f { u } else { f };
            lemma_percent_exact((config.max_apy - config.min_apy) as u64);
            lemma_ratio_bounded(percent_spec(config.max_apy - config.min_apy), utilization, f);
        } else {
            let u = ceil_ratio_of(total_staked as int, f, config.kale_reserve as int);
            lemma_ceil_ratio_bounds(total_staked as int, f, config.kale_reserve as int);
            let utilization = if u < f { u } else { f };
            lemma_percent_exact((config.min_apy - config.max_apy) as u64);
            lemma_ceil_ratio_bounds(percent_spec(config.min_apy - config.max_apy), utilization, f);
        }
    }
}

/// The utilization as an exact fraction `(numerator, denominator)`:
/// `total_staked / kale_reserve` capped at one, and zero with no reserve.
pub open spec fn utilization_fraction(config: Config, total_staked: u128) -> (int, int) {
    if config.kale_reserve == 0 {
        (0, 1)
    } else if total_staked >= config.kale_reserve {
        (1, 1)
    } else {
        (total_staked as int, config.kale_reserve as int)
    }
}

/// The numerator of the exact APY, `min_apy + utilization * (max_apy - min_apy)`
/// percent, over `exact_apy_denominator`.
pub open spec fn exact_apy_numerator(config: Config, total_staked: u128) -> int {
    let uf = utilization_fraction(config, total_staked);
    config.min_apy * uf.1 + (config.max_apy - config.min_apy) * uf.0
}

/// The denominator of the exact APY.
pub open spec fn exact_apy_denominator(config: Config, total_staked: u128) -> int {
    100 * utilization_fraction(config, total_staked).1
}

/// The fixed-point APY never exceeds the exact one, on a rising or a falling curve.
pub proof fn lemma_apy_at_most_exact(config: Config, total_staked: u128)
    ensures
        exact_apy_numerator(config, total_staked) >= 0,
        exact_apy_denominator(config, total_staked) > 0,
        apy_spec(config, total_staked) * exact_apy_denominator(config, total_staked)
            <= (DECIMAL_FRACTIONAL as int) * exact_apy_numerator(config, total_staked),
{
    let f = DECIMAL_FRACTIONAL as int;
    let t = total_staked as int;
    let r = config.kale_reserve as int;
    let lo = config.min_apy as int;
    let hi = config.max_apy as int;
    let apy = apy_spec(config, total_staked);
    let n = exact_apy_numerator(config, total_staked);
    lemma_percent_exact(config.min_apy);
    assert(lo * 10_000_000_000_000_000 * 100 == f * lo);
    if r == 0 {
        assert(utilization_fraction(config, total_staked) == (0int, 1int));
        assert(n == lo * 1 + (hi - lo) * 0);
        return;
    }
    if lo <= hi {
        lemma_percent_exact((config.max_apy - config.min_apy) as u64);
        let rg = percent_spec(hi - lo);
        assert(rg * 100 == (hi - lo) * f);
        let u = ratio_of(t, f, r);
        let util = if u < f { u } else { f };
        let adj = ratio_of(rg, util, f);
        assert(t * f >= 0) by (nonlinear_arith) requires t >= 0, f > 0;
        assert(u * r <= t * f) by (nonlinear_arith) requires u == t * f / r, r > 0;
        assert(u >= 0) by (nonlinear_arith) requires u == t * f / r, r > 0, t * f >= 0;
        assert(adj * f <= rg * util) by (nonlinear_arith) requires adj == rg * util / f, f > 0;
        if t >= r {
            lemma_ratio_at_least(f, t, r);
            assert(f * t == t * f);
            assert(util == f);
            assert(adj == rg) by (nonlinear_arith) requires adj == rg * util / f, util == f, f > 0;
            assert(utilization_fraction(config, total_staked) == (1int, 1int));
            assert(n == lo * 1 + (hi - lo) * 1);
            assert(apy == lo * 10_000_000_000_000_000 + (hi - lo) * 10_000_000_000_000_000);
            assert(exact_apy_denominator(config, total_staked) == 100);
            assert(apy * 100 == f * hi);
        } else {
            assert(utilization_fraction(config, total_staked) == (t, r));
            assert(util * r <= t * f) by (nonlinear_arith) requires util <= u, u * r <= t * f, r > 0;
            assert(adj * f * 100 * r <= rg * util * 100 * r) by (nonlinear_arith)
                requires adj * f <= rg * util, r > 0;
            assert(rg * util * 100 * r <= rg * 100 * t * f) by (nonlinear_arith)
                requires util * r <= t * f, rg >= 0;
            assert(adj * 100 * r * f <= (hi - lo) * t * f * f) by (nonlinear_arith)
                requires adj * f * 100 * r <= rg * 100 * t * f, rg * 100 == (hi - lo) * f;
            assert(adj * 100 * r <= (hi - lo) * t * f) by (nonlinear_arith)
                requires adj * 100 * r * f <= (hi - lo) * t * f * f, f > 0;
            assert(apy * (100 * r) == lo * 10_000_000_000_000_000 * 100 * r + adj * 100 * r) by (nonlinear_arith)
                requires apy == lo * 10_000_000_000_000_000 + adj;
            assert(f * n == f * lo * r + (hi - lo) * t * f) by (nonlinear_arith)
                requires n == lo * r + (hi - lo) * t;
            assert(lo * 10_000_000_000_000_000 * 100 * r == f * lo * r) by (nonlinear_arith)
                requires lo * 10_000_000_000_000_000 * 100 == f * lo;
            assert(n >= 0) by (nonlinear_arith) requires lo >= 0, hi >= lo, r > 0, t >= 0, n == lo * r + (hi - lo) * t;
            assert(exact_apy_denominator(config, total_staked) == 100 * r);
            assert(apy * (100 * r) <= f * n);
        }
    } else {
        lemma_percent_exact((config.min_apy - config.max_apy) as u64);
        let dr = percent_spec(lo - hi);
        assert(dr * 100 == (lo - hi) * f);
        let u = ceil_ratio_of(t, f, r);
        lemma_ceil_ratio_bounds(t, f, r);
        let util = if u < f { u } else { f };
        let adj = ceil_ratio_of(dr, util, f);
        lemma_ceil_ratio_bounds(dr, util, f);
        if t >= r {
            assert(u >= f) by (nonlinear_arith) requires u * r >= t * f, t >= r, r > 0, f > 0;
            assert(util == f);
            assert(adj == dr) by (nonlinear_arith) requires adj == (dr * util + f - 1) / f, util == f, f > 0, dr >= 0;
            assert(utilization_fraction(config, total_staked) == (1int, 1int));
            assert(n == lo * 1 + (hi - lo) * 1);
            assert(apy == lo * 10_000_000_000_000_000 - (lo - hi) * 10_000_000_000_000_000);
            assert(exact_apy_denominator(config, total_staked) == 100);
            assert(apy * 100 == f * hi);
        } else {
            assert(utilization_fraction(config, total_staked) == (t, r));
            assert(util * r >= t * f) by (nonlinear_arith)
                requires util == (if u < f { u } else { f }), u * r >= t * f, t < r, f > 0;
            assert(adj * f * 100 * r >= dr * util * 100 * r) by (nonlinear_arith)
                requires adj * f >= dr * util, r > 0;
            assert(dr * util * 100 * r >= dr * 100 * t * f) by (nonlinear_arith)
                requires util * r >= t * f, dr >= 0;
            assert(adj * 100 * r * f >= (lo - hi) * t * f * f) by (nonlinear_arith)
                requires adj * f * 100 * r >= dr * 100 * t * f, dr * 100 == (lo - hi) * f;
            assert(adj * 100 * r >= (lo - hi) * t * f) by (nonlinear_arith)
                requires adj * 100 * r * f >= (lo - hi) * t * f * f, f > 0;
            assert(apy * (100 * r) == lo * 10_000_000_000_000_000 * 100 * r - adj * 100 * r) by (nonlinear_arith)
                requires apy == lo * 10_000_000_000_000_000 - adj;
            assert(f * n == f * lo * r - (lo - hi) * t * f) by (nonlinear_arith)
                requires n == lo * r + (hi - lo) * t;
            assert(lo * 10_000_000_000_000_000 * 100 * r == f * lo * r) by (nonlinear_arith)
                requires lo * 10_000_000_000_000_000 * 100 == f * lo;
            assert(n >= 0) by (nonlinear_arith)
                requires hi >= 0, lo > hi, r > t, t >= 0, n == lo * r + (hi - lo) * t;
            assert(exact_apy_denominator(config, total_staked) == 100 * r);
            assert(apy * (100 * r) <= f * n);
        }
    }
}

/// The current APY as decimal atomics.
pub fn current_apy(config: &Config, total_staked: u128) -> (r: u128)
    ensures
        r == apy_spec(*config, total_staked),
{
    proof {
        lemma_percent_exact(config.min_apy);
        lemma_apy_range(*config, total_staked);
    }
    let base = decimal_from_ratio(config.min_apy as u128, 100).unwrap();
    if config.kale_reserve == 0 {
        return base;
    }
    if config.min_apy <= config.max_apy {
        let utilization = match decimal_from_ratio(total_staked, config.kale_reserve) {
            Some(u) => if u < DECIMAL_FRACTIONAL { u } else { DECIMAL_FRACTIONAL },
            None => DECIMAL_FRACTIONAL,
        };
        proof {
            lemma_percent_exact((config.max_apy - config.min_apy) as u64);
        }
        let range = decimal_from_ratio((config.max_apy - config.min_apy) as u128, 100).unwrap();
        proof {
            lemma_ratio_bounded(range as int, utilization as int, DECIMAL_FRACTIONAL as int);
        }
        base + decimal_mul(range, utilization).unwrap()
    } else {
        let utilization = match checked_mul_ceil(total_staked, DECIMAL_FRACTIONAL, config.kale_reserve) {
            Some(u) => if u < DECIMAL_FRACTIONAL { u } else { DECIMAL_FRACTIONAL },
            None => DECIMAL_FRACTIONAL,
        };
        proof {
            lemma_percent_exact((config.min_apy - config.max_apy) as u64);
        }
        let drop = decimal_from_ratio((config.min_apy - config.max_apy) as u128, 100).unwrap();
        proof {
            lemma_ceil_ratio_bounds(drop as int, utilization as int, DECIMAL_FRACTIONAL as int);
        }
        base - checked_mul_ceil(drop, utilization, DECIMAL_FRACTIONAL).unwrap()
    }
}

/// The payable yield for `elapsed` seconds: the staker's entitlement
/// `fee_pool * principal / total` (through the decimal share), times
/// `apy * elapsed / SECONDS_PER_YEAR`, and never more than the entitlement itself.
/// Every step is floored.
pub open spec fn yield_spec(fee_pool: int, total: int, principal: int, elapsed: int, apy: int) -> int {
    let f = DECIMAL_FRACTIONAL as int;
    let share = ratio_of(principal, f, total);
    let entitlement = ratio_of(fee_pool, share, f);
    let time_ratio = ratio_of(elapsed, f, SECONDS_PER_YEAR as int);
    let rate = ratio_of(apy, time_ratio, f);
    let accrued = ratio_of(entitlement, rate, f);
    if accrued < entitlement { accrued } else { entitlement }
}

/// The yield that `staker` could claim at `now`: zero when nothing is staked,
/// the fee pool is empty, or no time has passed since the last claim.
pub open spec fn pending_yield_spec(s: RewardsState, staker: Staker, now: u64) -> int {
    if s.fee_pool == 0 || s.total_staked == 0 || staker.staked_amount == 0 || now <= staker.last_claim_time {
        0
    } else {
        yield_spec(
            s.fee_pool as int,
            s.total_staked as int,
            staker.staked_amount as int,
            now - staker.last_claim_time,
            apy_spec(s.config, s.total_staked),
        )
    }
}

/// The staker is owed no yield: nothing is staked, the fee pool is empty, or no
/// time has passed since the last claim.
pub open spec fn yield_is_zero(s: RewardsState, staker: Staker, now: u64) -> bool {
    s.fee_pool == 0 || s.total_staked == 0 || staker.staked_amount == 0 || now <= staker.last_claim_time
}

/// The outcome of the yield computation: zero in the zero cases; otherwise
/// `StateCorruption` when the staker holds more than the total (a broken
/// invariant), else the pending yield.
pub open spec fn yield_result(s: RewardsState, staker: Staker, now: u64) -> Result<u128, ContractError> {
    if yield_is_zero(s, staker, now) {
        Ok(0)
    } else if staker.staked_amount > s.total_staked {
        Err(ContractError::StateCorruption)
    } else {
        Ok(pending_yield_spec(s, staker, now) as u128)
    }
}

/// The yield that `staker` could claim at `now`. It has no side effects.
pub fn calculate_yield(state: &RewardsState, staker: &Staker, now: u64) -> (r: Result<u128, ContractError>)
    ensures
        r == yield_result(*state, *staker, now),
        yield_is_zero(*state, *staker, now) ==> r == Ok::<u128, ContractError>(0),
        r is Ok ==> r->Ok_0 == pending_yield_spec(*state, *staker, now),
{
    if state.fee_pool == 0 || state.total_staked == 0 || staker.staked_amount == 0 || now <= staker.last_claim_time {
        return Ok(0);
    }
    if staker.staked_amount > state.total_staked {
        return Err(ContractError::StateCorruption);
    }
    let apy = current_apy(&state.config, state.total_staked);
    let f = DECIMAL_FRACTIONAL;
    proof {
        lemma_ratio_bounded(f as int, staker.staked_amount as int, state.total_staked as int);
        assert(staker.staked_amount * f == f * staker.staked_amount);
    }
    let share = decimal_from_ratio(staker.staked_amount, state.total_staked).unwrap();
    proof {
        lemma_ratio_bounded(state.fee_pool as int, share as int, f as int);
    }
    let entitlement = mul_decimal(state.fee_pool, share);
    let elapsed = now - staker.last_claim_time;
    proof {
        lemma_u64_decimal_fits(elapsed, SECONDS_PER_YEAR as int);
    }
    let time_ratio = decimal_from_ratio(elapsed as u128, SECONDS_PER_YEAR).unwrap();
    let payable = match decimal_mul(apy, time_ratio) {
        Some(rate) => {
            if rate < f {
                proof {
                    lemma_ratio_bounded(entitlement as int, rate as int, f as int);
                }
                let accrued = mul_decimal(entitlement, rate);
                if accrued < entitlement { accrued } else { entitlement }
            } else {
                proof {
                    lemma_ratio_at_least(entitlement as int, rate as int, f as int);
                }
                entitlement
            }
        },
        None => {
            proof {
                lemma_ratio_at_least(
                    entitlement as int,
                    ratio_of(apy as int, time_ratio as int, f as int),
                    f as int,
                );
            }
            entitlement
        },
    };
    Ok(payable)
}

/// Yield cap: whenever a staker holds no more than the total, what they can
/// claim never exceeds their proportional share of the fee pool,
/// `fee_pool * principal / total_staked` (exactly, and floored), whatever the APY
/// and the time elapsed.
pub proof fn lemma_yield_cap(s: RewardsState, staker: Staker, now: u64)
    requires
        staker.staked_amount <= s.total_staked,
    ensures
        0 <= pending_yield_spec(s, staker, now) <= s.fee_pool,
        pending_yield_spec(s, staker, now) * s.total_staked <= s.fee_pool * staker.staked_amount,
        s.total_staked > 0 ==> pending_yield_spec(s, staker, now)
            <= (s.fee_pool * staker.staked_amount) / (s.total_staked as int),
{
    lemma_yield_cap_product(s, staker, now);
    let pending = pending_yield_spec(s, staker, now);
    let x = s.fee_pool * staker.staked_amount;
    let t = s.total_staked as int;
    if t > 0 {
        assert(pending <= x / t) by (nonlinear_arith)
            requires pending * t <= x, t > 0;
    }
}

/// Rounding never pays more than the exact formula: for any time `elapsed > 0`
/// since the last claim, the yield is at most
/// `fee_pool * principal * apy * elapsed / (total_staked * SECONDS_PER_YEAR)`,
/// with `apy` the exact rational APY `exact_apy_numerator / exact_apy_denominator`
/// (stated without division).
pub proof fn lemma_yield_at_most_exact(s: RewardsState, staker: Staker, now: u64)
    requires
        now > staker.last_claim_time,
    ensures
        pending_yield_spec(s, staker, now) * s.total_staked * (SECONDS_PER_YEAR as int)
            * exact_apy_denominator(s.config, s.total_staked)
            <= s.fee_pool * staker.staked_amount * (now - staker.last_claim_time)
            * exact_apy_numerator(s.config, s.total_staked),
{
    let f = DECIMAL_FRACTIONAL as int;
    let y = SECONDS_PER_YEAR as int;
    let t = s.total_staked as int;
    let p = staker.staked_amount as int;
    let pool = s.fee_pool as int;
    let e = (now - staker.last_claim_time) as int;
    let n = exact_apy_numerator(s.config, s.total_staked);
    let d = exact_apy_denominator(s.config, s.total_staked);
    let pending = pending_yield_spec(s, staker, now);
    lemma_apy_at_most_exact(s.config, s.total_staked);
    assert(pool * p * e * n >= 0) by (nonlinear_arith) requires pool >= 0, p >= 0, e > 0, n >= 0;
    if yield_is_zero(s, staker, now) {
        assert(pending * t * y * d == 0) by (nonlinear_arith) requires pending == 0;
        return;
    }
    let apy = apy_spec(s.config, s.total_staked);
    lemma_apy_range(s.config, s.total_staked);
    let share = ratio_of(p, f, t);
    let ent = ratio_of(pool, share, f);
    let tr = ratio_of(e, f, y);
    let rate = ratio_of(apy, tr, f);
    let acc = ratio_of(ent, rate, f);
    assert(p * f >= 0) by (nonlinear_arith) requires p >= 0, f > 0;
    assert(share >= 0 && share * t <= p * f) by (nonlinear_arith) requires share == p * f / t, t > 0, p * f >= 0;
    assert(pool * share >= 0) by (nonlinear_arith) requires pool >= 0, share >= 0;
    assert(ent >= 0 && ent * f <= pool * share) by (nonlinear_arith) requires ent == pool * share / f, f > 0, pool * share >= 0;
    assert(e * f >= 0) by (nonlinear_arith) requires e > 0, f > 0;
    assert(tr >= 0 && tr * y <= e * f) by (nonlinear_arith) requires tr == e * f / y, y > 0, e * f >= 0;
    assert(apy * tr >= 0) by (nonlinear_arith) requires apy >= 0, tr >= 0;
    assert(rate >= 0 && rate * f <= apy * tr) by (nonlinear_arith) requires rate == apy * tr / f, f > 0, apy * tr >= 0;
    assert(ent * rate >= 0) by (nonlinear_arith) requires ent >= 0, rate >= 0;
    assert(acc >= 0 && acc * f <= ent * rate) by (nonlinear_arith) requires acc == ent * rate / f, f > 0, ent * rate >= 0;
    assert(pending <= acc && pending >= 0);
    // Undo the floors one at a time, each against its divisor.
    assert(acc * f * f <= ent * apy * tr) by (nonlinear_arith)
        requires acc * f <= ent * rate, rate * f <= apy * tr, ent >= 0, f > 0;
    assert(acc * f * f * y <= ent * apy * e * f) by (nonlinear_arith)
        requires acc * f * f <= ent * apy * tr, tr * y <= e * f, ent >= 0, apy >= 0, y > 0;
    assert(acc * f * y <= ent * apy * e) by (nonlinear_arith)
        requires acc * f * f * y <= ent * apy * e * f, f > 0;
    assert(acc * f * y * d <= ent * e * f * n) by (nonlinear_arith)
        requires acc * f * y <= ent * apy * e, apy * d <= f * n, ent >= 0, e > 0, d > 0;
    assert(acc * y * d <= ent * e * n) by (nonlinear_arith)
        requires acc * f * y * d <= ent * e * f * n, f > 0;
    let left = acc * t * y * d;
    let right = pool * p * e * n;
    let ten = t * e * n;
    let pen = pool * e * n;
    assert(ten >= 0) by (nonlinear_arith) requires t > 0, e > 0, n >= 0, ten == t * e * n;
    assert(pen >= 0) by (nonlinear_arith) requires pool >= 0, e > 0, n >= 0, pen == pool * e * n;
    lemma_scale(acc * y * d, ent * e * n, f * t);
    assert((ent * e * n) * (f * t) == (ent * f) * ten) by (nonlinear_arith) requires ten == t * e * n;
    lemma_scale(ent * f, pool * share, ten);
    assert((pool * share) * ten == (share * t) * pen) by (nonlinear_arith)
        requires ten == t * e * n, pen == pool * e * n;
    lemma_scale(share * t, p * f, pen);
    assert((p * f) * pen == right * f) by (nonlinear_arith) requires pen == pool * e * n, right == pool * p * e * n;
    assert((acc * y * d) * (f * t) == left * f) by (nonlinear_arith) requires left == acc * t * y * d;
    assert(left * f <= right * f);
    assert(left <= right) by (nonlinear_arith) requires left * f <= right * f, f > 0;
    assert(pending * t * y * d <= acc * t * y * d) by (nonlinear_arith)
        requires pending <= acc, t > 0, y > 0, d > 0;
}

proof fn lemma_scale(a: int, b: int, c: int)
    requires
        a <= b,
        c >= 0,
    ensures
        a * c <= b * c,
{
    assert(a * c <= b * c) by (nonlinear_arith) requires a <= b, c >= 0;
}

proof fn lemma_yield_cap_product(s: RewardsState, staker: Staker, now: u64)
    requires
        staker.staked_amount <= s.total_staked,
    ensures
        0 <= pending_yield_spec(s, staker, now) <= s.fee_pool,
        pending_yield_spec(s, staker, now) * s.total_staked <= s.fee_pool * staker.staked_amount,
{
    let pending = pending_yield_spec(s, staker, now);
    if s.fee_pool == 0 || s.total_staked == 0 || staker.staked_amount == 0 || now <= staker.last_claim_time {
        assert(s.fee_pool * staker.staked_amount >= 0) by (nonlinear_arith);
        return;
    }
    let f = DECIMAL_FRACTIONAL as int;
    let t = s.total_staked as int;
    let p = staker.staked_amount as int;
    let pool = s.fee_pool as int;
    let apy = apy_spec(s.config, s.total_staked);
    lemma_apy_range(s.config, s.total_staked);
    let share = ratio_of(p, f, t);
    lemma_ratio_bounded(f, p, t);
    assert(p * f == f * p);
    assert(share * t <= p * f) by (nonlinear_arith) requires share == p * f / t, t > 0;
    let entitlement = ratio_of(pool, share, f);
    lemma_ratio_bounded(pool, share, f);
    assert(entitlement * f <= pool * share) by (nonlinear_arith) requires entitlement == pool * share / f, f > 0;
    let time_ratio = ratio_of((now - staker.last_claim_time) as int, f, SECONDS_PER_YEAR as int);
    assert(time_ratio >= 0) by (nonlinear_arith)
        requires time_ratio == ((now - staker.last_claim_time) as int) * f / (SECONDS_PER_YEAR as int), now > staker.last_claim_time, f > 0;
    let rate = ratio_of(apy, time_ratio, f);
    assert(apy * time_ratio >= 0) by (nonlinear_arith) requires apy >= 0, time_ratio >= 0;
    assert(rate >= 0) by (nonlinear_arith) requires rate == apy * time_ratio / f, apy * time_ratio >= 0, f > 0;
    let accrued = ratio_of(entitlement, rate, f);
    assert(entitlement * rate >= 0) by (nonlinear_arith) requires entitlement >= 0, rate >= 0;
    assert(accrued >= 0) by (nonlinear_arith) requires accrued == entitlement * rate / f, entitlement * rate >= 0, f > 0;
    assert(pending == if accrued < entitlement { accrued } else { entitlement });
    assert(0 <= pending <= entitlement);
    assert(pending * t <= entitlement * t) by (nonlinear_arith) requires pending <= entitlement, t > 0;
    assert(entitlement * t * f <= pool * share * t) by (nonlinear_arith)
        requires entitlement * f <= pool * share, t > 0;
    assert(pool * share * t <= pool * p * f) by (nonlinear_arith)
        requires share * t <= p * f, pool >= 0;
    assert(entitlement * t <= pool * p) by (nonlinear_arith)
        requires entitlement * t * f <= pool * p * f, f > 0;
}

/// The outcome of staking `amount` at `now`, given the coins attached to the call.
pub open spec fn stake_result(s: RewardsState, staker: Staker, funds: Seq<Coin>, amount: u128, now: u64) -> Result<(), ContractError> {
    if sent_amount(funds, stake_denom_spec()) != Some(amount) {
        Err(ContractError::InvalidFunds)
    } else if s.total_staked + amount > u128::MAX || staker.staked_amount + amount > u128::MAX
        || now + s.config.lock_period > u64::MAX {
        Err(ContractError::StateCorruption)
    } else {
        Ok(())
    }
}

/// The ledger after a successful stake of `amount`.
pub open spec fn stake_post_state(s: RewardsState, amount: u128) -> RewardsState {
    RewardsState { total_staked: (s.total_staked + amount) as u128, ..s }
}

/// The staker after a successful stake of `amount` at `now`: principal grows, the
/// lock is renewed, and a staker who held nothing starts afresh at `now`.
pub open spec fn stake_post_staker(s: RewardsState, staker: Staker, amount: u128, now: u64) -> Staker {
    let fresh = staker.staked_amount == 0;
    Staker {
        staked_amount: (staker.staked_amount + amount) as u128,
        staked_since: if fresh { now } else { staker.staked_since },
        last_claim_time: if fresh { now } else { staker.last_claim_time },
        locked_until: (now + s.config.lock_period) as u64,
        ..staker
    }
}

/// Stakes `amount` of the stake denomination, which `funds` must carry exactly.
/// Every stake renews the lock to `now + lock_period`. Pending yield is not paid out.
pub fn execute_stake(
    state: &mut RewardsState,
    staker: &mut Staker,
    funds: &Vec<Coin>,
    amount: u128,
    now: u64,
) -> (r: Result<(), ContractError>)
    ensures
        r == stake_result(*old(state), *old(staker), funds@, amount, now),
        r is Err ==> *final(state) == *old(state) && *final(staker) == *old(staker),
        r is Ok ==> *final(state) == stake_post_state(*old(state), amount)
            && *final(staker) == stake_post_staker(*old(state), *old(staker), amount, now),
{
    let denom = stake_denom();
    match must_pay(funds, &denom) {
        Some(sent) => {
            if sent != amount {
                return Err(ContractError::InvalidFunds);
            }
        },
        None => return Err(ContractError::InvalidFunds),
    }
    let total = match state.total_staked.checked_add(amount) {
        Some(t) => t,
        None => return Err(ContractError::StateCorruption),
    };
    let principal = match staker.staked_amount.checked_add(amount) {
        Some(p) => p,
        None => return Err(ContractError::StateCorruption),
    };
    let locked_until = match now.checked_add(state.config.lock_period) {
        Some(t) => t,
        None => return Err(ContractError::StateCorruption),
    };
    if staker.staked_amount == 0 {
        staker.staked_since = now;
        staker.last_claim_time = now;
    }
    staker.staked_amount = principal;
    staker.locked_until = locked_until;
    state.total_staked = total;
    Ok(())
}

/// The outcome of withdrawing `amount` at `now`.
pub open spec fn unstake_result(s: RewardsState, staker: Staker, amount: u128, now: u64) -> Result<(), ContractError> {
    if staker.staked_amount < amount {
        Err(ContractError::InsufficientFunds)
    } else if now < staker.locked_until {
        Err(ContractError::StakeLocked)
    } else if s.total_staked < amount {
        Err(ContractError::StateCorruption)
    } else {
        Ok(())
    }
}

/// Withdraws `amount` of principal once the lock has expired. On success the
/// caller is owed `amount` of the stake denomination.
pub fn execute_unstake(
    state: &mut RewardsState,
    staker: &mut Staker,
    amount: u128,
    now: u64,
) -> (r: Result<(), ContractError>)
    ensures
        r == unstake_result(*old(state), *old(staker), amount, now),
        r is Err ==> *final(state) == *old(state) && *final(staker) == *old(staker),
        r is Ok ==> *final(state) == (RewardsState { total_staked: (old(state).total_staked - amount) as u128, ..*old(state) })
            && *final(staker) == (Staker { staked_amount: (old(staker).staked_amount - amount) as u128, ..*old(staker) }),
{
    if staker.staked_amount < amount {
        return Err(ContractError::InsufficientFunds);
    }
    if now < staker.locked_until {
        return Err(ContractError::StakeLocked);
    }
    if state.total_staked < amount {
        return Err(ContractError::StateCorruption);
    }
    staker.staked_amount = staker.staked_amount - amount;
    state.total_staked = state.total_staked - amount;
    Ok(())
}

/// Lock enforcement: one second before the lock expires a withdrawal within the
/// principal fails with `StakeLocked`; at the expiry it succeeds, given that the
/// staker holds no more than the total (which every consistent ledger ensures,
/// see `lemma_lock_enforcement_in_ledger`).
pub proof fn lemma_lock_enforcement(s: RewardsState, staker: Staker, amount: u128)
    requires
        amount <= staker.staked_amount <= s.total_staked,
        staker.locked_until > 0,
    ensures
        unstake_result(s, staker, amount, (staker.locked_until - 1) as u64)
            == Err::<(), ContractError>(ContractError::StakeLocked),
        unstake_result(s, staker, amount, staker.locked_until) == Ok::<(), ContractError>(()),
{
}

/// The outcome of a claim at `now`: the pending yield, which must be positive.
pub open spec fn claim_result(s: RewardsState, staker: Staker, now: u64) -> Result<u128, ContractError> {
    match yield_result(s, staker, now) {
        Err(e) => Err(e),
        Ok(pending) => {
            if pending == 0 {
                Err(ContractError::NoRewards)
            } else if s.fee_pool < pending {
                Err(ContractError::InsufficientFunds)
            } else {
                Ok(pending as u128)
            }
        },
    }
}

/// The ledger after `amount` was claimed: it leaves the fee pool.
pub open spec fn claim_post_state(s: RewardsState, amount: u128) -> RewardsState {
    RewardsState { fee_pool: (s.fee_pool - amount) as u128, ..s }
}

/// The staker after a claim at `now`: yield accrues afresh from `now`.
pub open spec fn claim_post_staker(staker: Staker, now: u64) -> Staker {
    Staker { accumulated_rewards: 0, last_claim_time: now, ..staker }
}

/// Claims the pending yield. On success the caller is owed the returned amount
/// of the reward denomination, which leaves the fee pool.
pub fn execute_claim(state: &mut RewardsState, staker: &mut Staker, now: u64) -> (r: Result<u128, ContractError>)
    ensures
        r == claim_result(*old(state), *old(staker), now),
        r is Err ==> *final(state) == *old(state) && *final(staker) == *old(staker),
        r is Ok ==> *final(state) == claim_post_state(*old(state), r->Ok_0)
            && *final(staker) == claim_post_staker(*old(staker), now),
{
    let rewards = match calculate_yield(state, staker, now) {
        Ok(v) => v,
        Err(e) => return Err(e),
    };
    if rewards == 0 {
        return Err(ContractError::NoRewards);
    }
    if state.fee_pool < rewards {
        return Err(ContractError::InsufficientFunds);
    }
    state.fee_pool = state.fee_pool - rewards;
    staker.accumulated_rewards = 0;
    staker.last_claim_time = now;
    Ok(rewards)
}

/// A claim made again with no time elapsed finds nothing to pay: after any
/// successful claim at `now`, a second claim at `now` fails with `NoRewards`.
pub proof fn lemma_claim_twice(s: RewardsState, staker: Staker, now: u64)
    requires
        claim_result(s, staker, now) is Ok,
    ensures
        claim_result(
            claim_post_state(s, claim_result(s, staker, now)->Ok_0),
            claim_post_staker(staker, now),
            now,
        ) == Err::<u128, ContractError>(ContractError::NoRewards),
{
}

/// Adds `amount` of the reward denomination to the fee pool; any other token is refused.
pub fn add_fee_to_pool(state: &mut RewardsState, amount: u128, token: &String) -> (r: Result<(), ContractError>)
    ensures
        token@ != reward_denom_spec() ==> r == Err::<(), ContractError>(ContractError::InvalidToken),
        token@ == reward_denom_spec() && old(state).fee_pool + amount > u128::MAX
            ==> r == Err::<(), ContractError>(ContractError::StateCorruption),
        token@ == reward_denom_spec() && old(state).fee_pool + amount <= u128::MAX ==> r is Ok,
        r is Err ==> *final(state) == *old(state),
        r is Ok ==> *final(state) == (RewardsState { fee_pool: (old(state).fee_pool + amount) as u128, ..*old(state) }),
{
    let denom = reward_denom();
    if *token != denom {
        return Err(ContractError::InvalidToken);
    }
    match state.fee_pool.checked_add(amount) {
        Some(v) => {
            state.fee_pool = v;
            Ok(())
        },
        None => Err(ContractError::StateCorruption),
    }
}

/// The configuration with each given field replaced.
pub open spec fn updated_config(
    c: Config,
    min_apy: Option<u64>,
    max_apy: Option<u64>,
    lock_period: Option<u64>,
    kale_reserve: Option<u128>,
    fee_yield_percent: Option<u64>,
) -> Config {
    Config {
        min_apy: match min_apy { Some(v) => v, None => c.min_apy },
        max_apy: match max_apy { Some(v) => v, None => c.max_apy },
        lock_period: match lock_period { Some(v) => v, None => c.lock_period },
        kale_reserve: match kale_reserve { Some(v) => v, None => c.kale_reserve },
        fee_yield_percent: match fee_yield_percent { Some(v) => v, None => c.fee_yield_percent },
        ..c
    }
}

/// The owner replaces the given configuration fields; anyone else is refused
/// with `Unauthorized`.
pub fn update_config(
    state: &mut RewardsState,
    sender: &String,
    min_apy: Option<u64>,
    max_apy: Option<u64>,
    lock_period: Option<u64>,
    kale_reserve: Option<u128>,
    fee_yield_percent: Option<u64>,
) -> (r: Result<(), ContractError>)
    ensures
        sender@ != old(state).config.owner@ ==> r == Err::<(), ContractError>(ContractError::Unauthorized),
        sender@ == old(state).config.owner@ ==> r is Ok,
        r is Err ==> *final(state) == *old(state),
        r is Ok ==> *final(state) == (RewardsState {
            config: updated_config(old(state).config, min_apy, max_apy, lock_period, kale_reserve, fee_yield_percent),
            ..*old(state)
        }),
{
    if *sender != state.config.owner {
        return Err(ContractError::Unauthorized);
    }
    if let Some(v) = min_apy {
        state.config.min_apy = v;
    }
    if let Some(v) = max_apy {
        state.config.max_apy = v;
    }
    if let Some(v) = lock_period {
        state.config.lock_period = v;
    }
    if let Some(v) = kale_reserve {
        state.config.kale_reserve = v;
    }
    if let Some(v) = fee_yield_percent {
        state.config.fee_yield_percent = v;
    }
    Ok(())
}

/// A staker's record together with the yield they could claim now.
#[derive(Debug, Clone)]
pub struct StakerResponse {
    pub address: String,
    pub staked_amount: u128,
    pub staked_since: u64,
    pub last_claim_time: u64,
    pub accumulated_rewards: u128,
    pub estimated_rewards: u128,
    pub locked_until: u64,
}

/// Reports `staker` as of `now`, with the yield a claim would pay.
pub fn query_staker(state: &RewardsState, staker: &Staker, now: u64) -> (r: Result<StakerResponse, ContractError>)
    ensures
        yield_result(*state, *staker, now) is Err
            ==> r == Err::<StakerResponse, ContractError>(yield_result(*state, *staker, now)->Err_0),
        yield_result(*state, *staker, now) is Ok ==> r is Ok,
        r is Ok ==> ({
            let q = r->Ok_0;
            &&& q.address@ == staker.address@
            &&& q.staked_amount == staker.staked_amount
            &&& q.staked_since == staker.staked_since
            &&& q.last_claim_time == staker.last_claim_time
            &&& q.accumulated_rewards == staker.accumulated_rewards
            &&& q.estimated_rewards == pending_yield_spec(*state, *staker, now)
            &&& q.locked_until == staker.locked_until
        }),
{
    let estimated_rewards = match calculate_yield(state, staker, now) {
        Ok(v) => v,
        Err(e) => return Err(e),
    };
    Ok(StakerResponse {
        address: staker.address.clone(),
        staked_amount: staker.staked_amount,
        staked_since: staker.staked_since,
        last_claim_time: staker.last_claim_time,
        accumulated_rewards: staker.accumulated_rewards,
        estimated_rewards,
        locked_until: staker.locked_until,
    })
}

/// The current APY, as decimal atomics, with the bounds of its curve in percent.
#[derive(Debug, Clone, Copy, PartialEq, Eq, Structural)]
pub struct APYResponse {
    pub current_apy: u128,
    pub min_apy: u64,
    pub max_apy: u64,
}

/// The APY that the current utilization gives.
pub fn query_current_apy(state: &RewardsState) -> (r: APYResponse)
    ensures
        r.current_apy == apy_spec(state.config, state.total_staked),
        r.min_apy == state.config.min_apy,
        r.max_apy == state.config.max_apy,
{
    APYResponse {
        current_apy: current_apy(&state.config, state.total_staked),
        min_apy: state.config.min_apy,
        max_apy: state.config.max_apy,
    }
}

/// The sum of the principal of all `stakers`.
pub open spec fn total_principal(stakers: Seq<Staker>) -> int
    decreases stakers.len(),
{
    if stakers.len() == 0 {
        0
    } else {
        total_principal(stakers.drop_last()) + stakers.last().staked_amount
    }
}

/// The ledger's invariant: `total_staked` is the sum of every staker's principal.
pub open spec fn ledger_consistent(s: RewardsState, stakers: Seq<Staker>) -> bool {
    s.total_staked == total_principal(stakers)
}

proof fn lemma_total_principal_update(stakers: Seq<Staker>, i: int, staker: Staker)
    requires
        0 <= i < stakers.len(),
    ensures
        total_principal(stakers.update(i, staker))
            == total_principal(stakers) - stakers[i].staked_amount + staker.staked_amount,
    decreases stakers.len(),
{
    let updated = stakers.update(i, staker);
    if i == stakers.len() - 1 {
        assert(updated.drop_last() =~= stakers.drop_last());
    } else {
        lemma_total_principal_update(stakers.drop_last(), i, staker);
        assert(updated.drop_last() =~= stakers.drop_last().update(i, staker));
    }
}

proof fn lemma_total_principal_bounds(stakers: Seq<Staker>, i: int)
    requires
        0 <= i < stakers.len(),
    ensures
        0 <= stakers[i].staked_amount <= total_principal(stakers),
    decreases stakers.len(),
{
    lemma_total_principal_nonnegative(stakers.drop_last());
    if i < stakers.len() - 1 {
        lemma_total_principal_bounds(stakers.drop_last(), i);
    }
}

proof fn lemma_total_principal_nonnegative(stakers: Seq<Staker>)
    ensures
        total_principal(stakers) >= 0,
    decreases stakers.len(),
{
    if stakers.len() > 0 {
        lemma_total_principal_nonnegative(stakers.drop_last());
    }
}

/// Yield cap over every reachable state: in a consistent ledger the yield of
/// every staker is computed without error, and never exceeds that staker's
/// floored proportional share `fee_pool * principal / total_staked` of the pool.
pub proof fn lemma_yield_cap_in_ledger(s: RewardsState, stakers: Seq<Staker>, i: int, now: u64)
    requires
        ledger_consistent(s, stakers),
        0 <= i < stakers.len(),
    ensures
        yield_result(s, stakers[i], now) is Ok,
        s.total_staked > 0 ==> yield_result(s, stakers[i], now)->Ok_0
            <= (s.fee_pool * stakers[i].staked_amount) / (s.total_staked as int),
        yield_result(s, stakers[i], now)->Ok_0 * s.total_staked <= s.fee_pool * stakers[i].staked_amount,
{
    lemma_total_principal_bounds(stakers, i);
    lemma_yield_cap(s, stakers[i], now);
}

/// Lock enforcement over every reachable state: for any staker of a consistent
/// ledger and any amount within their principal, withdrawing one second before
/// the lock expires fails with `StakeLocked`, and at the expiry it succeeds.
pub proof fn lemma_lock_enforcement_in_ledger(s: RewardsState, stakers: Seq<Staker>, i: int, amount: u128)
    requires
        ledger_consistent(s, stakers),
        0 <= i < stakers.len(),
        amount <= stakers[i].staked_amount,
        stakers[i].locked_until > 0,
    ensures
        unstake_result(s, stakers[i], amount, (stakers[i].locked_until - 1) as u64)
            == Err::<(), ContractError>(ContractError::StakeLocked),
        unstake_result(s, stakers[i], amount, stakers[i].locked_until) == Ok::<(), ContractError>(()),
{
    lemma_total_principal_bounds(stakers, i);
    lemma_lock_enforcement(s, stakers[i], amount);
}

/// A new staker enters the ledger with no principal and keeps it consistent.
pub proof fn lemma_new_staker_keeps_ledger_consistent(s: RewardsState, stakers: Seq<Staker>, staker: Staker)
    requires
        ledger_consistent(s, stakers),
        staker.staked_amount == 0,
    ensures
        ledger_consistent(s, stakers.push(staker)),
{
    assert(stakers.push(staker).drop_last() =~= stakers);
}

/// A successful stake by any staker keeps the total equal to the sum of principals.
pub proof fn lemma_stake_keeps_ledger_consistent(
    s: RewardsState,
    stakers: Seq<Staker>,
    i: int,
    funds: Seq<Coin>,
    amount: u128,
    now: u64,
)
    requires
        ledger_consistent(s, stakers),
        0 <= i < stakers.len(),
        stake_result(s, stakers[i], funds, amount, now) is Ok,
    ensures
        ledger_consistent(
            stake_post_state(s, amount),
            stakers.update(i, stake_post_staker(s, stakers[i], amount, now)),
        ),
{
    lemma_total_principal_update(stakers, i, stake_post_staker(s, stakers[i], amount, now));
}

/// A successful withdrawal keeps the total equal to the sum of principals.
pub proof fn lemma_unstake_keeps_ledger_consistent(
    s: RewardsState,
    stakers: Seq<Staker>,
    i: int,
    amount: u128,
    now: u64,
)
    requires
        ledger_consistent(s, stakers),
        0 <= i < stakers.len(),
        unstake_result(s, stakers[i], amount, now) is Ok,
    ensures
        ledger_consistent(
            RewardsState { total_staked: (s.total_staked - amount) as u128, ..s },
            stakers.update(i, Staker { staked_amount: (stakers[i].staked_amount - amount) as u128, ..stakers[i] }),
        ),
{
    lemma_total_principal_update(
        stakers,
        i,
        Staker { staked_amount: (stakers[i].staked_amount - amount) as u128, ..stakers[i] },
    );
}

/// A successful claim moves no principal and keeps the ledger consistent.
pub proof fn lemma_claim_keeps_ledger_consistent(s: RewardsState, stakers: Seq<Staker>, i: int, now: u64)
    requires
        ledger_consistent(s, stakers),
        0 <= i < stakers.len(),
        claim_result(s, stakers[i], now) is Ok,
    ensures
        ledger_consistent(
            claim_post_state(s, claim_result(s, stakers[i], now)->Ok_0),
            stakers.update(i, claim_post_staker(stakers[i], now)),
        ),
{
    lemma_total_principal_update(stakers, i, claim_post_staker(stakers[i], now));
}

} // verus!
