use kale_defi::amm::{
    accumulate_and_maybe_distribute, calculate_xyk, canonical_pool, execute_distribute_accumulated_fees, execute_swap, instantiate,
    query_accumulated_fees, query_pool, swap_fee, text_less, update_config, AmmState, InstantiateMsg,
};
use kale_defi::coin::{must_pay, Coin, Payee};
use kale_defi::error::ContractError;
use kale_defi::fees::{split_fee, FeeSplit};

fn coins(amount: u128, denom: &str) -> Vec<Coin> {
    vec![Coin { denom: denom.to_string(), amount }]
}

fn s(x: &str) -> String {
    x.to_string()
}

fn market(fee_percent: u64, fee_threshold: u128, reserves: (u128, u128)) -> AmmState {
    instantiate(InstantiateMsg {
        owner: s("owner"),
        fee_percent,
        fee_threshold,
        yield_percent: 50,
        lp_percent: 25,
        treasury_percent: 25,
        token_a: s("ukale"),
        token_b: s("uusdc"),
        reserves_a: reserves.0,
        reserves_b: reserves.1,
    })
    .unwrap()
}

fn swap_ukale(state: &mut AmmState, amount: u128) -> Result<kale_defi::amm::SwapOutcome, ContractError> {
    execute_swap(state, &coins(amount, "ukale"), amount, &s("ukale"), &s("uusdc"))
}

#[test]
fn swap_works() {
    // The fee is `amount * fee_percent / 10000`, at least one unit: 2 bps of 100 floors
    // to zero, so each swap of 100 pays the minimum fee of 1.
    let mut state = market(2, 5, (1000, 1000));
    let first = swap_ukale(&mut state, 100).unwrap();
    assert!(first.amount_out >= 89 && first.amount_out <= 90, "Expected ~89, got {}", first.amount_out);
    assert_eq!(first.amount_out, 90);
    assert_eq!(first.fee, 1);
    assert_eq!(first.accumulated_fee, 1);
    assert!(first.distribution.is_none(), "Fees should not be distributed yet");

    for _ in 0..2 {
        let o = swap_ukale(&mut state, 100).unwrap();
        assert!(o.distribution.is_none());
    }
    assert_eq!(query_accumulated_fees(&state, &s("ukale")), 3);

    let fourth = swap_ukale(&mut state, 100).unwrap();
    assert!(fourth.distribution.is_none());
    assert_eq!(fourth.accumulated_fee, 4);

    // The fifth fee brings the accumulator to the threshold of 5.
    let fifth = swap_ukale(&mut state, 100).unwrap();
    let split = fifth.distribution.unwrap();
    assert_eq!(split.total, 5);
    assert_eq!(split.yield_amount, 2);
    assert_eq!(split.lp_amount, 1);
    assert_eq!(split.treasury_amount, 1);
    assert_eq!(fifth.accumulated_fee, 0);
    assert_eq!(query_accumulated_fees(&state, &s("ukale")), 0);
    assert_eq!(
        split.payouts(),
        vec![(Payee::YieldPool, 2), (Payee::LiquidityProviders, 1), (Payee::Treasury, 1)]
    );
    assert_eq!(state.pool.reserve_a, 1495);
    assert_eq!(state.pool.reserve_b, 671);
}

#[test]
fn end_to_end_swap_twenty_bps() {
    let mut state = market(20, 1_000_000, (1000, 1000));
    let o = swap_ukale(&mut state, 100).unwrap();
    assert_eq!(o.fee, 1);
    assert_eq!(o.amount_out, 90);
    assert_eq!(o.reserve_in_before, 1000);
    assert_eq!(o.reserve_out_before, 1000);
    assert_eq!(state.pool.reserve_a, 1099);
    assert_eq!(state.pool.reserve_b, 910);
    assert_eq!(o.accumulated_fee, 1);
}

#[test]
fn conservation_of_reserves() {
    let mut state = market(200, 1_000_000, (1000, 1000));
    let o = swap_ukale(&mut state, 100).unwrap();
    assert_eq!(o.fee, 2);
    assert_eq!(o.amount_out, 89);
    assert!(o.amount_out <= o.reserve_out_before);
    assert_eq!(state.pool.reserve_a, o.reserve_in_before + (100 - o.fee));
    assert_eq!(state.pool.reserve_b, o.reserve_out_before - o.amount_out);
}

#[test]
fn fee_floor_is_one_unit() {
    assert_eq!(swap_fee(1, 20), Some(1));
    assert_eq!(swap_fee(100, 20), Some(1));
    assert_eq!(swap_fee(10_000, 20), Some(20));
    assert_eq!(swap_fee(1, 0), Some(1));
    let mut state = market(0, 1_000_000, (1000, 1000));
    let o = swap_ukale(&mut state, 1).unwrap();
    assert_eq!(o.fee, 1);
    assert_eq!(o.amount_out, 0);
}

#[test]
fn swap_in_the_other_direction_uses_the_same_pool() {
    let mut state = market(20, 1_000_000, (1000, 2000));
    let o = execute_swap(&mut state, &coins(100, "uusdc"), 100, &s("uusdc"), &s("ukale")).unwrap();
    assert_eq!(o.reserve_in_before, 2000);
    assert_eq!(o.reserve_out_before, 1000);
    assert_eq!(o.amount_out, 1000 * 99 / 2099);
    assert_eq!(state.pool.reserve_b, 2099);
    assert_eq!(state.pool.reserve_a, 1000 - o.amount_out);
    assert_eq!(query_accumulated_fees(&state, &s("uusdc")), 1);
    assert_eq!(query_accumulated_fees(&state, &s("ukale")), 0);
}

#[test]
fn pool_tokens_are_kept_in_lexicographic_order() {
    let p = canonical_pool(s("uusdc"), s("ukale"), 7, 9);
    assert_eq!(p.token_a, "ukale");
    assert_eq!(p.token_b, "uusdc");
    assert_eq!(p.reserve_a, 9);
    assert_eq!(p.reserve_b, 7);
    let q = canonical_pool(s("ukale"), s("uusdc"), 9, 7);
    assert_eq!(q.token_a, "ukale");
    assert_eq!(q.reserve_a, 9);
    assert!(text_less(&s("abc"), &s("abd")));
    assert!(text_less(&s("ab"), &s("abc")));
    assert!(!text_less(&s("abc"), &s("abc")));
    assert!(!text_less(&s("b"), &s("abc")));
}

#[test]
fn query_pool_in_either_order() {
    let state = market(20, 5, (1000, 2000));
    let p = query_pool(&state, &s("uusdc"), &s("ukale")).unwrap();
    assert_eq!((p.reserve_a, p.reserve_b), (1000, 2000));
    let q = query_pool(&state, &s("ukale"), &s("uusdc")).unwrap();
    assert_eq!(q.token_b, "uusdc");
    assert_eq!(query_pool(&state, &s("ukale"), &s("uatom")).unwrap_err(), ContractError::PoolNotFound);
}

#[test]
fn xyk_exact_values_and_errors() {
    assert_eq!(calculate_xyk(1000, 1000, 99), Ok(90));
    assert_eq!(calculate_xyk(0, 500, 10), Ok(500));
    assert_eq!(calculate_xyk(0, 500, 0), Err(ContractError::InvalidPool));
    assert_eq!(calculate_xyk(u128::MAX, 500, 1), Err(ContractError::StateCorruption));
    // The product would overflow 128 bits; the quotient does not.
    assert_eq!(calculate_xyk(u128::MAX - 10, u128::MAX, 10), Ok(10));
}

#[test]
fn swap_errors() {
    let mut state = market(20, 5, (1000, 1000));
    assert_eq!(swap_ukale(&mut state, 0).unwrap_err(), ContractError::InvalidAmount);
    assert_eq!(
        execute_swap(&mut state, &coins(100, "ukale"), 100, &s("ukale"), &s("uatom")).unwrap_err(),
        ContractError::PoolNotFound
    );
    assert_eq!(
        execute_swap(&mut state, &coins(99, "ukale"), 100, &s("ukale"), &s("uusdc")).unwrap_err(),
        ContractError::FundsMismatch
    );
    assert_eq!(
        execute_swap(&mut state, &vec![], 100, &s("ukale"), &s("uusdc")).unwrap_err(),
        ContractError::FundsMismatch
    );
    assert_eq!((state.pool.reserve_a, state.pool.reserve_b), (1000, 1000));

    let mut empty_out = market(20, 5, (1000, 0));
    assert_eq!(swap_ukale(&mut empty_out, 100).unwrap_err(), ContractError::InsufficientLiquidity);
    let mut empty_in = market(20, 5, (0, 1000));
    assert_eq!(swap_ukale(&mut empty_in, 100).unwrap_err(), ContractError::InsufficientLiquidity);
    assert_eq!(swap_ukale(&mut empty_in, 1).unwrap_err(), ContractError::InvalidPool);

    let mut greedy = market(20_000, 5, (1000, 1000));
    assert_eq!(swap_ukale(&mut greedy, 100).unwrap_err(), ContractError::StateCorruption);
    assert_eq!(query_accumulated_fees(&greedy, &s("ukale")), 0);
}

#[test]
fn split_of_eight_by_fifty_twenty_five_twenty_five() {
    let split = split_fee(8, 50, 25, 25).unwrap();
    assert_eq!(split, FeeSplit { total: 8, yield_amount: 4, lp_amount: 2, treasury_amount: 2 });
}

#[test]
fn split_rounding_remainder_is_at_most_two() {
    let split = split_fee(8, 1, 1, 1).unwrap();
    assert_eq!((split.yield_amount, split.lp_amount, split.treasury_amount), (2, 2, 2));
    assert_eq!(8 - (split.yield_amount + split.lp_amount + split.treasury_amount), 2);
    let odd = split_fee(10, 33, 33, 34).unwrap();
    assert_eq!((odd.yield_amount, odd.lp_amount, odd.treasury_amount), (3, 3, 3));
    assert_eq!(split_fee(5, 0, 0, 0), Err(ContractError::InvalidFeeSplit));
}

#[test]
fn payouts_skip_zero_shares() {
    let split = split_fee(3, 50, 25, 25).unwrap();
    assert_eq!((split.yield_amount, split.lp_amount, split.treasury_amount), (1, 0, 0));
    assert_eq!(split.payouts(), vec![(Payee::YieldPool, 1)]);
}

#[test]
fn threshold_zero_distributes_every_fee() {
    let mut state = market(200, 0, (1000, 1000));
    let o = swap_ukale(&mut state, 100).unwrap();
    let split = o.distribution.unwrap();
    assert_eq!(split.total, 2);
    assert_eq!((split.yield_amount, split.lp_amount, split.treasury_amount), (1, 0, 0));
    assert_eq!(o.accumulated_fee, 0);
}

#[test]
fn manual_distribution() {
    let mut state = market(200, 1_000_000, (1000, 1000));
    assert_eq!(
        execute_distribute_accumulated_fees(&mut state, &s("owner"), &s("ukale")).unwrap_err(),
        ContractError::NothingToDistribute
    );
    for _ in 0..4 {
        swap_ukale(&mut state, 100).unwrap();
    }
    assert_eq!(query_accumulated_fees(&state, &s("ukale")), 8);
    assert_eq!(
        execute_distribute_accumulated_fees(&mut state, &s("mallory"), &s("ukale")).unwrap_err(),
        ContractError::Unauthorized
    );
    assert_eq!(query_accumulated_fees(&state, &s("ukale")), 8);
    let split = execute_distribute_accumulated_fees(&mut state, &s("owner"), &s("ukale")).unwrap();
    assert_eq!(split, FeeSplit { total: 8, yield_amount: 4, lp_amount: 2, treasury_amount: 2 });
    assert_eq!(query_accumulated_fees(&state, &s("ukale")), 0);
    assert_eq!(
        execute_distribute_accumulated_fees(&mut state, &s("owner"), &s("uatom")).unwrap_err(),
        ContractError::NothingToDistribute
    );
}

#[test]
fn instantiate_rejects_zero_weights() {
    let r = instantiate(InstantiateMsg {
        owner: s("owner"),
        fee_percent: 20,
        fee_threshold: 5,
        yield_percent: 0,
        lp_percent: 0,
        treasury_percent: 0,
        token_a: s("ukale"),
        token_b: s("uusdc"),
        reserves_a: 1,
        reserves_b: 1,
    });
    assert_eq!(r.unwrap_err(), ContractError::InvalidFeeSplit);
}

#[test]
fn must_pay_takes_the_first_coin_of_the_denomination() {
    let funds = vec![
        Coin { denom: s("uusdc"), amount: 3 },
        Coin { denom: s("ukale"), amount: 7 },
        Coin { denom: s("ukale"), amount: 9 },
    ];
    assert_eq!(must_pay(&funds, &s("ukale")), Some(7));
    assert_eq!(must_pay(&funds, &s("uatom")), None);
    assert_eq!(must_pay(&vec![], &s("ukale")), None);
}

#[test]
fn fee_config_updates() {
    let mut state = market(20, 5, (1000, 1000));
    assert_eq!(
        update_config(&mut state, &s("mallory"), Some(30), None, None, None, None),
        Err(ContractError::Unauthorized)
    );
    assert_eq!(
        update_config(&mut state, &s("owner"), None, Some(0), Some(0), Some(0), None),
        Err(ContractError::InvalidFeeSplit)
    );
    assert_eq!(state.config.yield_percent, 50);
    assert_eq!(update_config(&mut state, &s("owner"), Some(200), Some(1), None, Some(0), Some(9)), Ok(()));
    assert_eq!(
        (state.config.fee_percent, state.config.yield_percent, state.config.lp_percent, state.config.treasury_percent),
        (200, 1, 25, 0)
    );
    assert_eq!(state.config.fee_threshold, 9);
    let o = swap_ukale(&mut state, 100).unwrap();
    assert_eq!(o.fee, 2);
}

#[test]
fn accumulator_refuses_foreign_denominations() {
    let mut state = market(20, 5, (1000, 1000));
    assert_eq!(accumulate_and_maybe_distribute(&mut state, &s("uatom"), 3), Err(ContractError::InvalidToken));
    assert_eq!(accumulate_and_maybe_distribute(&mut state, &s("uusdc"), 3), Ok((3, None)));
    let (left, split) = accumulate_and_maybe_distribute(&mut state, &s("uusdc"), 5).unwrap();
    assert_eq!(left, 0);
    assert_eq!(split, Some(FeeSplit { total: 8, yield_amount: 4, lp_amount: 2, treasury_amount: 2 }));
    assert_eq!(query_accumulated_fees(&state, &s("uusdc")), 0);
}

#[test]
fn constant_product_never_decreases() {
    let mut state = market(20, 1_000_000, (1000, 1000));
    for amount in [1u128, 7, 100, 333, 1000] {
        let before = state.pool.reserve_a * state.pool.reserve_b;
        swap_ukale(&mut state, amount).unwrap();
        assert!(state.pool.reserve_a * state.pool.reserve_b >= before);
    }
}
