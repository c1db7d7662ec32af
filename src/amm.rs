//! The reserve pool and the constant-product swap engine, with the per-denomination
//! fee accumulator that each swap feeds.
use crate::coin::{must_pay, sent_amount, Coin};
use crate::error::ContractError;
use crate::fees::{split_fee, split_spec, FeeSplit};
use crate::math::{checked_multiply_ratio, lemma_ratio_bounded, ratio_of};
use vstd::prelude::*;
use vstd::utf8::encode_utf8;

verus! {

/// Basis points in a whole.
pub const BPS_DENOMINATOR: u128 = 10_000;

/// The market maker's parameters.
#[derive(Debug, Clone)]
pub struct Config {
    pub owner: String,
    /// The swap fee, in basis points of the amount swapped in.
    pub fee_percent: u64,
    /// The weight of the yield pool in a fee distribution.
    pub yield_percent: u64,
    /// The weight of the liquidity providers in a fee distribution.
    pub lp_percent: u64,
    /// The weight of the treasury in a fee distribution.
    pub treasury_percent: u64,
    /// The accumulated fee at which a distribution happens.
    pub fee_threshold: u128,
}

/// The reserves of a trading pair, its tokens in lexicographic order.
#[derive(Debug, Clone)]
pub struct Pool {
    pub token_a: String,
    pub token_b: String,
    pub reserve_a: u128,
    pub reserve_b: u128,
}

/// The whole market-maker state: its parameters, its pool, and the fees
/// accumulated in each of the pool's two tokens.
#[derive(Debug, Clone)]
pub struct AmmState {
    pub config: Config,
    pub pool: Pool,
    pub fees_a: u128,
    pub fees_b: u128,
}

/// Strict lexicographic order on byte strings.
pub open spec fn bytes_lt(a: Seq<u8>, b: Seq<u8>) -> bool
    decreases a.len(),
{
    if b.len() == 0 {
        false
    } else if a.len() == 0 {
        true
    } else if a[0] != b[0] {
        a[0] < b[0]
    } else {
        bytes_lt(a.drop_first(), b.drop_first())
    }
}

/// `a` sorts strictly before `b`, as Rust orders strings (by their UTF-8 bytes).
pub open spec fn text_lt(a: Seq<char>, b: Seq<char>) -> bool {
    bytes_lt(encode_utf8(a), encode_utf8(b))
}

/// Whether `a` sorts strictly before `b`.
pub fn text_less(a: &String, b: &String) -> (r: bool)
    ensures
        r == text_lt(a@, b@),
{
    let x = a.as_str().as_bytes();
    let y = b.as_str().as_bytes();
    let mut i: usize = 0;
    assert(x@.subrange(0, x@.len() as int) =~= x@);
    assert(y@.subrange(0, y@.len() as int) =~= y@);
    while i < x.len() && i < y.len()
        invariant
            i <= x@.len(),
            i <= y@.len(),
            x@ == encode_utf8(a@),
            y@ == encode_utf8(b@),
            bytes_lt(x@, y@) == bytes_lt(x@.subrange(i as int, x@.len() as int), y@.subrange(i as int, y@.len() as int)),
        decreases x@.len() - i,
    {
        proof {
            let xs = x@.subrange(i as int, x@.len() as int);
            let ys = y@.subrange(i as int, y@.len() as int);
            assert(xs.drop_first() =~= x@.subrange(i + 1, x@.len() as int));
            assert(ys.drop_first() =~= y@.subrange(i + 1, y@.len() as int));
        }
        if x[i] != y[i] {
            return x[i] < y[i];
        }
        i = i + 1;
    }
    i < y.len()
}

/// The pool of a pair, its tokens in canonical (lexicographic) order and each
/// reserve kept with its token.
pub open spec fn canonical_pool_spec(token_a: String, token_b: String, reserve_a: u128, reserve_b: u128) -> Pool {
    if text_lt(token_a@, token_b@) {
        Pool { token_a, token_b, reserve_a, reserve_b }
    } else {
        Pool { token_a: token_b, token_b: token_a, reserve_a: reserve_b, reserve_b: reserve_a }
    }
}

/// Builds the pool of a pair, ordering its tokens so that the key does not
/// depend on the order in which they were given.
pub fn canonical_pool(token_a: String, token_b: String, reserve_a: u128, reserve_b: u128) -> (r: Pool)
    ensures
        r == canonical_pool_spec(token_a, token_b, reserve_a, reserve_b),
{
    if text_less(&token_a, &token_b) {
        Pool { token_a, token_b, reserve_a, reserve_b }
    } else {
        Pool { token_a: token_b, token_b: token_a, reserve_a: reserve_b, reserve_b: reserve_a }
    }
}

impl Pool {
    /// The pool trades the unordered pair `{token_in, token_out}`.
    pub open spec fn trades(&self, token_in: Seq<char>, token_out: Seq<char>) -> bool {
        (token_in == self.token_a@ && token_out == self.token_b@)
            || (token_in == self.token_b@ && token_out == self.token_a@)
    }

    /// Whether the pool trades the unordered pair `{token_in, token_out}`.
    pub fn matches_pair(&self, token_in: &String, token_out: &String) -> (r: bool)
        ensures
            r == self.trades(token_in@, token_out@),
    {
        (*token_in == self.token_a && *token_out == self.token_b)
            || (*token_in == self.token_b && *token_out == self.token_a)
    }

    /// The reserve on the side that `token_in` enters.
    pub open spec fn reserve_in(&self, token_in: Seq<char>) -> u128 {
        if token_in == self.token_a@ { self.reserve_a } else { self.reserve_b }
    }

    /// The reserve on the side that leaves the pool.
    pub open spec fn reserve_out(&self, token_in: Seq<char>) -> u128 {
        if token_in == self.token_a@ { self.reserve_b } else { self.reserve_a }
    }
}

/// Constant-product output: `reserve_out * amount_in / (reserve_in + amount_in)`, floored.
pub open spec fn xyk_spec(reserve_in: u128, reserve_out: u128, amount_in: u128) -> int {
    ratio_of(reserve_out as int, amount_in as int, reserve_in + amount_in)
}

/// The constant-product output for `amount_in` against the reserves.
/// Fails with `InvalidPool` when the denominator is zero, and with
/// `StateCorruption` when it does not fit in 128 bits.
pub fn calculate_xyk(reserve_in: u128, reserve_out: u128, amount_in: u128) -> (r: Result<u128, ContractError>)
    ensures
        reserve_in + amount_in > u128::MAX ==> r == Err::<u128, ContractError>(ContractError::StateCorruption),
        reserve_in + amount_in == 0 ==> r == Err::<u128, ContractError>(ContractError::InvalidPool),
        0 < reserve_in + amount_in <= u128::MAX ==> r == Ok::<u128, ContractError>(xyk_spec(reserve_in, reserve_out, amount_in) as u128),
        r is Ok ==> r->Ok_0 <= reserve_out,
        reserve_in + amount_in > 0 ==> 0 <= xyk_spec(reserve_in, reserve_out, amount_in) <= reserve_out,
{
    proof {
        if reserve_in + amount_in > 0 {
            lemma_ratio_bounded(reserve_out as int, amount_in as int, reserve_in + amount_in);
        }
    }
    let denominator = match reserve_in.checked_add(amount_in) {
        Some(d) => d,
        None => return Err(ContractError::StateCorruption),
    };
    if denominator == 0 {
        return Err(ContractError::InvalidPool);
    }
    proof {
        lemma_ratio_bounded(reserve_out as int, amount_in as int, denominator as int);
    }
    Ok(checked_multiply_ratio(reserve_out, amount_in, denominator).unwrap())
}

/// The swap fee: `amount_in * fee_bps / 10000` floored, and at least one unit.
pub open spec fn swap_fee_spec(amount_in: u128, fee_bps: u64) -> int {
    let f = ratio_of(amount_in as int, fee_bps as int, BPS_DENOMINATOR as int);
    if f >= 1 { f } else { 1 }
}

/// The fee on a positive `amount_in`; `None` when it does not fit in 128 bits.
pub fn swap_fee(amount_in: u128, fee_bps: u64) -> (r: Option<u128>)
    ensures
        swap_fee_spec(amount_in, fee_bps) <= u128::MAX ==> r == Some(swap_fee_spec(amount_in, fee_bps) as u128),
        swap_fee_spec(amount_in, fee_bps) > u128::MAX ==> r is None,
{
    match checked_multiply_ratio(amount_in, fee_bps as u128, BPS_DENOMINATOR) {
        Some(f) => Some(if f >= 1 { f } else { 1 }),
        None => None,
    }
}

/// What a swap produced.
#[derive(Debug, Clone, Copy, PartialEq, Eq)]
pub struct SwapOutcome {
    /// The amount of `token_out` owed to the caller.
    pub amount_out: u128,
    /// The fee taken from `amount_in`, in `token_in`.
    pub fee: u128,
    /// The fee accumulated in `token_in` after the swap: zero when it was distributed.
    pub accumulated_fee: u128,
    /// The split paid out, in `token_in`, when the accumulator reached the threshold.
    pub distribution: Option<FeeSplit>,
    pub reserve_in_before: u128,
    pub reserve_out_before: u128,
}

/// The parameters of a new market maker.
#[derive(Debug, Clone)]
pub struct InstantiateMsg {
    pub owner: String,
    /// The swap fee, in basis points.
    pub fee_percent: u64,
    pub fee_threshold: u128,
    pub yield_percent: u64,
    pub lp_percent: u64,
    pub treasury_percent: u64,
    pub token_a: String,
    pub token_b: String,
    pub reserves_a: u128,
    pub reserves_b: u128,
}

impl AmmState {
    /// The fee accumulated in `denom`; zero for a denomination never charged.
    pub open spec fn accumulated(&self, denom: Seq<char>) -> u128 {
        if denom == self.pool.token_a@ {
            self.fees_a
        } else if denom == self.pool.token_b@ {
            self.fees_b
        } else {
            0
        }
    }

    /// The state after the accumulator of `denom` is set to `amount`.
    pub open spec fn with_accumulated(self, denom: Seq<char>, amount: u128) -> AmmState {
        if denom == self.pool.token_a@ {
            AmmState { fees_a: amount, ..self }
        } else if denom == self.pool.token_b@ {
            AmmState { fees_b: amount, ..self }
        } else {
            self
        }
    }

    pub open spec fn weight_sum(&self) -> int {
        self.config.yield_percent + self.config.lp_percent + self.config.treasury_percent
    }
}

/// A new market maker: its configuration, one pool in canonical order, and
/// empty fee accumulators. Fails when the fee-split weights sum to zero.
pub fn instantiate(msg: InstantiateMsg) -> (r: Result<AmmState, ContractError>)
    ensures
        msg.yield_percent + msg.lp_percent + msg.treasury_percent == 0
            ==> r == Err::<AmmState, ContractError>(ContractError::InvalidFeeSplit),
        msg.yield_percent + msg.lp_percent + msg.treasury_percent > 0 ==> r is Ok,
        r is Ok ==> ({
            let s = r->Ok_0;
            &&& s.config == (Config {
                owner: msg.owner,
                fee_percent: msg.fee_percent,
                yield_percent: msg.yield_percent,
                lp_percent: msg.lp_percent,
                treasury_percent: msg.treasury_percent,
                fee_threshold: msg.fee_threshold,
            })
            &&& s.pool == canonical_pool_spec(msg.token_a, msg.token_b, msg.reserves_a, msg.reserves_b)
            &&& s.fees_a == 0
            &&& s.fees_b == 0
        }),
{
    if msg.yield_percent as u128 + msg.lp_percent as u128 + msg.treasury_percent as u128 == 0 {
        return Err(ContractError::InvalidFeeSplit);
    }
    let config = Config {
        owner: msg.owner,
        fee_percent: msg.fee_percent,
        yield_percent: msg.yield_percent,
        lp_percent: msg.lp_percent,
        treasury_percent: msg.treasury_percent,
        fee_threshold: msg.fee_threshold,
    };
    let pool = canonical_pool(msg.token_a, msg.token_b, msg.reserves_a, msg.reserves_b);
    Ok(AmmState { config, pool, fees_a: 0, fees_b: 0 })
}

/// The constant product never decreases across a swap: with the output floored,
/// `(reserve_in + amount_in) * (reserve_out - amount_out) >= reserve_in * reserve_out`.
pub proof fn lemma_product_never_decreases(reserve_in: u128, reserve_out: u128, amount_in: u128)
    requires
        reserve_in + amount_in > 0,
    ensures
        ({
            let out = xyk_spec(reserve_in, reserve_out, amount_in);
            &&& 0 <= out <= reserve_out
            &&& (reserve_in + amount_in) * (reserve_out - out) >= reserve_in * reserve_out
        }),
{
    let d = reserve_in + amount_in;
    let out = xyk_spec(reserve_in, reserve_out, amount_in);
    lemma_ratio_bounded(reserve_out as int, amount_in as int, d);
    assert(out * d <= reserve_out * amount_in) by (nonlinear_arith)
        requires out == (reserve_out as int) * (amount_in as int) / d, d > 0;
    assert(d * (reserve_out - out) == d * reserve_out - out * d) by (nonlinear_arith);
    assert(d * reserve_out - reserve_out * amount_in == reserve_in * reserve_out) by (nonlinear_arith)
        requires d == reserve_in + amount_in;
}

/// The outcome of adding `fee` to the accumulator of `denom`: the new running
/// total, and the split when that total reaches the threshold.
pub open spec fn accumulate_spec(s: AmmState, denom: Seq<char>, fee: u128) -> Result<(u128, Option<FeeSplit>), ContractError> {
    let acc = s.accumulated(denom) + fee;
    if denom != s.pool.token_a@ && denom != s.pool.token_b@ {
        Err(ContractError::InvalidToken)
    } else if acc > u128::MAX {
        Err(ContractError::StateCorruption)
    } else if acc >= s.config.fee_threshold && s.weight_sum() == 0 {
        Err(ContractError::InvalidFeeSplit)
    } else if acc >= s.config.fee_threshold {
        Ok((0u128, Some(split_spec(acc as u128, s.config.yield_percent, s.config.lp_percent, s.config.treasury_percent))))
    } else {
        Ok((acc as u128, None))
    }
}

/// Adds `fee` to the running total of `denom`, one of the pool's tokens (any other
/// is refused with `InvalidToken`). When the total reaches the distribution
/// threshold it is split by the configured weights and the accumulator is reset
/// to zero; otherwise the new total is kept.
pub fn accumulate_and_maybe_distribute(state: &mut AmmState, denom: &String, fee: u128) -> (r: Result<(u128, Option<FeeSplit>), ContractError>)
    ensures
        r == accumulate_spec(*old(state), denom@, fee),
        r is Err ==> *final(state) == *old(state),
        r is Ok ==> *final(state) == old(state).with_accumulated(denom@, r->Ok_0.0),
{
    let in_a = *denom == state.pool.token_a;
    if !in_a && *denom != state.pool.token_b {
        return Err(ContractError::InvalidToken);
    }
    let before = if in_a { state.fees_a } else { state.fees_b };
    let acc = match before.checked_add(fee) {
        Some(v) => v,
        None => return Err(ContractError::StateCorruption),
    };
    if acc >= state.config.fee_threshold {
        let split = match split_fee(acc, state.config.yield_percent, state.config.lp_percent, state.config.treasury_percent) {
            Ok(split) => split,
            Err(e) => return Err(e),
        };
        if in_a {
            state.fees_a = 0;
        } else {
            state.fees_b = 0;
        }
        Ok((0, Some(split)))
    } else {
        if in_a {
            state.fees_a = acc;
        } else {
            state.fees_b = acc;
        }
        Ok((acc, None))
    }
}

/// The outcome of a swap of `amount_in` of `token_in` for `token_out`, or the
/// first check that it fails, in the order the checks are made.
pub open spec fn swap_spec(
    s: AmmState,
    funds: Seq<Coin>,
    amount_in: u128,
    token_in: Seq<char>,
    token_out: Seq<char>,
) -> Result<SwapOutcome, ContractError> {
    let fee = swap_fee_spec(amount_in, s.config.fee_percent);
    let rin = s.pool.reserve_in(token_in);
    let rout = s.pool.reserve_out(token_in);
    let after = (amount_in - fee) as u128;
    let amount_out = xyk_spec(rin, rout, after);
    let acc = s.accumulated(token_in) + fee;
    if amount_in == 0 {
        Err(ContractError::InvalidAmount)
    } else if !s.pool.trades(token_in, token_out) {
        Err(ContractError::PoolNotFound)
    } else if sent_amount(funds, token_in) != Some(amount_in) {
        Err(ContractError::FundsMismatch)
    } else if fee > amount_in {
        Err(ContractError::StateCorruption)
    } else if rin + after > u128::MAX {
        Err(ContractError::StateCorruption)
    } else if rin + after == 0 {
        Err(ContractError::InvalidPool)
    } else if rin == 0 || rout == 0 || amount_out > rout {
        Err(ContractError::InsufficientLiquidity)
    } else if acc > u128::MAX {
        Err(ContractError::StateCorruption)
    } else if acc >= s.config.fee_threshold && s.weight_sum() == 0 {
        Err(ContractError::InvalidFeeSplit)
    } else {
        let distributed = acc >= s.config.fee_threshold;
        Ok(SwapOutcome {
            amount_out: amount_out as u128,
            fee: fee as u128,
            accumulated_fee: if distributed { 0 } else { acc as u128 },
            distribution: if distributed {
                Some(split_spec(acc as u128, s.config.yield_percent, s.config.lp_percent, s.config.treasury_percent))
            } else {
                None
            },
            reserve_in_before: rin,
            reserve_out_before: rout,
        })
    }
}

/// The state after a successful swap with outcome `o`: the input side gains
/// `amount_in - fee`, the output side loses `amount_out`, and the accumulator of
/// `token_in` holds `o.accumulated_fee`.
pub open spec fn swap_post(s: AmmState, amount_in: u128, token_in: Seq<char>, o: SwapOutcome) -> AmmState {
    let rin = (o.reserve_in_before + (amount_in - o.fee)) as u128;
    let rout = (o.reserve_out_before - o.amount_out) as u128;
    let pool = if token_in == s.pool.token_a@ {
        Pool { reserve_a: rin, reserve_b: rout, ..s.pool }
    } else {
        Pool { reserve_a: rout, reserve_b: rin, ..s.pool }
    };
    AmmState { pool, ..s }.with_accumulated(token_in, o.accumulated_fee)
}

/// Swaps `amount_in` of `token_in` for `token_out` at the constant-product price,
/// after taking the fee. The fee is added to the accumulator of `token_in`; when
/// that reaches the threshold it is split and the accumulator reset to zero.
/// `funds` are the coins attached to the call: they must hold exactly `amount_in`
/// of `token_in`.
pub fn execute_swap(
    state: &mut AmmState,
    funds: &Vec<Coin>,
    amount_in: u128,
    token_in: &String,
    token_out: &String,
) -> (r: Result<SwapOutcome, ContractError>)
    ensures
        r == swap_spec(*old(state), funds@, amount_in, token_in@, token_out@),
        r is Err ==> *final(state) == *old(state),
        r is Ok ==> *final(state) == swap_post(*old(state), amount_in, token_in@, r->Ok_0),
        r is Ok ==> ({
            let o = r->Ok_0;
            &&& o.fee >= 1
            &&& o.amount_out <= o.reserve_out_before
            &&& o.reserve_in_before == old(state).pool.reserve_in(token_in@)
            &&& o.reserve_out_before == old(state).pool.reserve_out(token_in@)
            &&& final(state).pool.reserve_in(token_in@) == o.reserve_in_before + (amount_in - o.fee)
            &&& final(state).pool.reserve_out(token_in@) == o.reserve_out_before - o.amount_out
            &&& final(state).pool.reserve_in(token_in@) * final(state).pool.reserve_out(token_in@)
                >= o.reserve_in_before * o.reserve_out_before
        }),
{
    if amount_in == 0 {
        return Err(ContractError::InvalidAmount);
    }
    if !state.pool.matches_pair(token_in, token_out) {
        return Err(ContractError::PoolNotFound);
    }
    match must_pay(funds, token_in) {
        Some(sent) => {
            if sent != amount_in {
                return Err(ContractError::FundsMismatch);
            }
        },
        None => return Err(ContractError::FundsMismatch),
    }
    let fee = match swap_fee(amount_in, state.config.fee_percent) {
        Some(f) => f,
        None => return Err(ContractError::StateCorruption),
    };
    if fee > amount_in {
        return Err(ContractError::StateCorruption);
    }
    let after = amount_in - fee;
    let in_is_a = *token_in == state.pool.token_a;
    let reserve_in = if in_is_a { state.pool.reserve_a } else { state.pool.reserve_b };
    let reserve_out = if in_is_a { state.pool.reserve_b } else { state.pool.reserve_a };
    let amount_out = match calculate_xyk(reserve_in, reserve_out, after) {
        Ok(v) => v,
        Err(e) => return Err(e),
    };
    if reserve_in == 0 || reserve_out == 0 || amount_out > reserve_out {
        return Err(ContractError::InsufficientLiquidity);
    }
    proof {
        lemma_product_never_decreases(reserve_in, reserve_out, after);
    }
    let (accumulated_fee, distribution) = match accumulate_and_maybe_distribute(state, token_in, fee) {
        Ok(v) => v,
        Err(e) => return Err(e),
    };
    if in_is_a {
        state.pool.reserve_a = reserve_in + after;
        state.pool.reserve_b = reserve_out - amount_out;
    } else {
        state.pool.reserve_b = reserve_in + after;
        state.pool.reserve_a = reserve_out - amount_out;
    }
    Ok(SwapOutcome {
        amount_out,
        fee,
        accumulated_fee,
        distribution,
        reserve_in_before: reserve_in,
        reserve_out_before: reserve_out,
    })
}

/// The fee accumulated in `denom`: zero for a denomination never charged.
pub fn query_accumulated_fees(state: &AmmState, denom: &String) -> (r: u128)
    ensures
        r == state.accumulated(denom@),
{
    if *denom == state.pool.token_a {
        state.fees_a
    } else if *denom == state.pool.token_b {
        state.fees_b
    } else {
        0
    }
}

/// The owner forces a distribution of whatever has accumulated in `denom`,
/// regardless of the threshold, and the accumulator is reset to zero.
pub fn execute_distribute_accumulated_fees(
    state: &mut AmmState,
    sender: &String,
    denom: &String,
) -> (r: Result<FeeSplit, ContractError>)
    ensures
        sender@ != old(state).config.owner@ ==> r == Err::<FeeSplit, ContractError>(ContractError::Unauthorized),
        sender@ == old(state).config.owner@ && old(state).accumulated(denom@) == 0
            ==> r == Err::<FeeSplit, ContractError>(ContractError::NothingToDistribute),
        sender@ == old(state).config.owner@ && old(state).accumulated(denom@) > 0 && old(state).weight_sum() == 0
            ==> r == Err::<FeeSplit, ContractError>(ContractError::InvalidFeeSplit),
        sender@ == old(state).config.owner@ && old(state).accumulated(denom@) > 0 && old(state).weight_sum() > 0
            ==> r == Ok::<FeeSplit, ContractError>(split_spec(
                old(state).accumulated(denom@),
                old(state).config.yield_percent,
                old(state).config.lp_percent,
                old(state).config.treasury_percent,
            )),
        r is Err ==> *final(state) == *old(state),
        r is Ok ==> *final(state) == old(state).with_accumulated(denom@, 0),
{
    if *sender != state.config.owner {
        return Err(ContractError::Unauthorized);
    }
    let accumulated = query_accumulated_fees(state, denom);
    if accumulated == 0 {
        return Err(ContractError::NothingToDistribute);
    }
    let split = match split_fee(accumulated, state.config.yield_percent, state.config.lp_percent, state.config.treasury_percent) {
        Ok(split) => split,
        Err(e) => return Err(e),
    };
    if *denom == state.pool.token_a {
        state.fees_a = 0;
    } else if *denom == state.pool.token_b {
        state.fees_b = 0;
    }
    Ok(split)
}

/// The pool that trades the unordered pair `{token_x, token_y}`, in either order.
pub fn query_pool(state: &AmmState, token_x: &String, token_y: &String) -> (r: Result<Pool, ContractError>)
    ensures
        !state.pool.trades(token_x@, token_y@) ==> r == Err::<Pool, ContractError>(ContractError::PoolNotFound),
        state.pool.trades(token_x@, token_y@) ==> r is Ok,
        r is Ok ==> ({
            let p = r->Ok_0;
            &&& p.token_a@ == state.pool.token_a@
            &&& p.token_b@ == state.pool.token_b@
            &&& p.reserve_a == state.pool.reserve_a
            &&& p.reserve_b == state.pool.reserve_b
        }),
{
    if !state.pool.matches_pair(token_x, token_y) {
        return Err(ContractError::PoolNotFound);
    }
    Ok(Pool {
        token_a: state.pool.token_a.clone(),
        token_b: state.pool.token_b.clone(),
        reserve_a: state.pool.reserve_a,
        reserve_b: state.pool.reserve_b,
    })
}

/// The configuration with each given field replaced.
pub open spec fn updated_config(
    c: Config,
    fee_percent: Option<u64>,
    yield_percent: Option<u64>,
    lp_percent: Option<u64>,
    treasury_percent: Option<u64>,
    fee_threshold: Option<u128>,
) -> Config {
    Config {
        fee_percent: match fee_percent { Some(v) => v, None => c.fee_percent },
        yield_percent: match yield_percent { Some(v) => v, None => c.yield_percent },
        lp_percent: match lp_percent { Some(v) => v, None => c.lp_percent },
        treasury_percent: match treasury_percent { Some(v) => v, None => c.treasury_percent },
        fee_threshold: match fee_threshold { Some(v) => v, None => c.fee_threshold },
        ..c
    }
}

/// The owner replaces the given fee parameters. Fails with `Unauthorized` for
/// anyone else, and with `InvalidFeeSplit` when the resulting weights sum to zero.
pub fn update_config(
    state: &mut AmmState,
    sender: &String,
    fee_percent: Option<u64>,
    yield_percent: Option<u64>,
    lp_percent: Option<u64>,
    treasury_percent: Option<u64>,
    fee_threshold: Option<u128>,
) -> (r: Result<(), ContractError>)
    ensures
        sender@ != old(state).config.owner@ ==> r == Err::<(), ContractError>(ContractError::Unauthorized),
        sender@ == old(state).config.owner@ && ({
            let c = updated_config(old(state).config, fee_percent, yield_percent, lp_percent, treasury_percent, fee_threshold);
            c.yield_percent + c.lp_percent + c.treasury_percent == 0
        }) ==> r == Err::<(), ContractError>(ContractError::InvalidFeeSplit),
        sender@ == old(state).config.owner@ && ({
            let c = updated_config(old(state).config, fee_percent, yield_percent, lp_percent, treasury_percent, fee_threshold);
            c.yield_percent + c.lp_percent + c.treasury_percent > 0
        }) ==> r is Ok,
        r is Err ==> *final(state) == *old(state),
        r is Ok ==> *final(state) == (AmmState {
            config: updated_config(old(state).config, fee_percent, yield_percent, lp_percent, treasury_percent, fee_threshold),
            ..*old(state)
        }),
{
    if *sender != state.config.owner {
        return Err(ContractError::Unauthorized);
    }
    let y = match yield_percent { Some(v) => v, None => state.config.yield_percent };
    let l = match lp_percent { Some(v) => v, None => state.config.lp_percent };
    let t = match treasury_percent { Some(v) => v, None => state.config.treasury_percent };
    if y as u128 + l as u128 + t as u128 == 0 {
        return Err(ContractError::InvalidFeeSplit);
    }
    state.config.yield_percent = y;
    state.config.lp_percent = l;
    state.config.treasury_percent = t;
    if let Some(v) = fee_percent {
        state.config.fee_percent = v;
    }
    if let Some(v) = fee_threshold {
        state.config.fee_threshold = v;
    }
    Ok(())
}

} // verus!
