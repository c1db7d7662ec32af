use kale_defi::coin::Coin;
use kale_defi::error::ContractError;
use kale_defi::rewards::{
    add_fee_to_pool, calculate_yield, current_apy, execute_claim, execute_stake, execute_unstake,
    instantiate, new_staker, query_current_apy, query_staker, reward_denom, stake_denom, update_config,
    InstantiateMsg, RewardsState, Staker,
};

const BLOCK_TIME: u64 = 1_571_797_419;
const PERCENT: u128 = 10_000_000_000_000_000;

fn coins(amount: u128, denom: &str) -> Vec<Coin> {
    vec![Coin { denom: denom.to_string(), amount }]
}

fn ledger(min_apy: u64, max_apy: u64, kale_reserve: u128) -> RewardsState {
    instantiate(
        "owner".to_string(),
        InstantiateMsg { min_apy, max_apy, lock_period: 86400, kale_reserve, fee_yield_percent: 50 },
    )
}

fn staked(state: &mut RewardsState, address: &str, amount: u128, now: u64) -> Staker {
    let mut staker = new_staker(address.to_string(), now);
    execute_stake(state, &mut staker, &coins(amount, "kale"), amount, now).unwrap();
    staker
}

#[test]
fn stake_and_claim() {
    let mut state = ledger(8, 12, 0);
    let owner = staked(&mut state, "owner", 1_000_000_000, BLOCK_TIME);
    assert_eq!(owner.staked_amount, 1_000_000_000);
    add_fee_to_pool(&mut state, 1_000_000_000, &"usdc".to_string()).unwrap();
    assert_eq!(state.fee_pool, 1_000_000_000);
    assert_eq!(state.total_staked, 1_000_000_000);

    let current_time = BLOCK_TIME;
    let mut user = staked(&mut state, "user", 100_000_000, current_time);
    let info = query_staker(&state, &user, current_time).unwrap();
    assert_eq!(info.staked_amount, 100_000_000);
    assert_eq!(info.locked_until, current_time + 86400);
    assert_eq!(state.total_staked, 1_100_000_000);
    assert_eq!(query_current_apy(&state).current_apy, 8 * PERCENT);

    let mut now = current_time + 43200;
    assert_eq!(execute_unstake(&mut state, &mut user, 50_000_000, now), Err(ContractError::StakeLocked));

    now += 86400;
    let after = query_staker(&state, &user, now).unwrap();
    let expected_rewards: u128 = 32800;
    let tolerance: u128 = 32800;
    assert!(after.estimated_rewards > 0);
    assert!(after.estimated_rewards <= expected_rewards + tolerance);
    assert_eq!(after.estimated_rewards, 29887);

    let pool_before = state.fee_pool;
    let claimed = execute_claim(&mut state, &mut user, now).unwrap();
    assert_eq!(claimed, after.estimated_rewards);
    assert!(state.fee_pool < pool_before);
    assert_eq!(pool_before - state.fee_pool, claimed);
    assert_eq!(user.last_claim_time, now);

    execute_unstake(&mut state, &mut user, 50_000_000, now).unwrap();
    assert_eq!(user.staked_amount, 50_000_000);
    assert_eq!(state.total_staked, 1_050_000_000);
}

#[test]
fn unstake_one_second_before_the_lock_expires() {
    let mut state = ledger(8, 12, 0);
    let mut user = staked(&mut state, "user", 500, 1000);
    assert_eq!(user.locked_until, 1000 + 86400);
    let locked_until = user.locked_until;
    assert_eq!(execute_unstake(&mut state, &mut user, 500, locked_until - 1), Err(ContractError::StakeLocked));
    assert_eq!(user.staked_amount, 500);
    assert_eq!(execute_unstake(&mut state, &mut user, 500, locked_until), Ok(()));
    assert_eq!(user.staked_amount, 0);
    assert_eq!(state.total_staked, 0);
}

#[test]
fn unstake_more_than_principal() {
    let mut state = ledger(8, 12, 0);
    let mut user = staked(&mut state, "user", 500, 1000);
    assert_eq!(execute_unstake(&mut state, &mut user, 501, 1_000_000), Err(ContractError::InsufficientFunds));
}

#[test]
fn additional_stake_renews_the_lock() {
    let mut state = ledger(8, 12, 0);
    let mut user = staked(&mut state, "user", 500, 1000);
    execute_stake(&mut state, &mut user, &coins(300, "kale"), 300, 5000).unwrap();
    assert_eq!(user.staked_amount, 800);
    assert_eq!(user.staked_since, 1000);
    assert_eq!(user.last_claim_time, 1000);
    assert_eq!(user.locked_until, 5000 + 86400);
    assert_eq!(state.total_staked, 800);
}

#[test]
fn stake_requires_matching_funds() {
    let mut state = ledger(8, 12, 0);
    let mut user = new_staker("user".to_string(), 10);
    assert_eq!(
        execute_stake(&mut state, &mut user, &coins(99, "kale"), 100, 10),
        Err(ContractError::InvalidFunds)
    );
    assert_eq!(
        execute_stake(&mut state, &mut user, &coins(100, "usdc"), 100, 10),
        Err(ContractError::InvalidFunds)
    );
    assert_eq!(state.total_staked, 0);
    assert_eq!(user.staked_amount, 0);
}

#[test]
fn yield_is_capped_by_the_proportional_share() {
    let mut state = ledger(8, 12, 0);
    let _other = staked(&mut state, "other", 3, 0);
    let user = staked(&mut state, "user", 1, 0);
    add_fee_to_pool(&mut state, 1000, &"usdc".to_string()).unwrap();
    // A hundred years at 8% would be eight times the share; the share caps it.
    let pending = calculate_yield(&state, &user, 31_536_000 * 100).unwrap();
    assert_eq!(pending, 250);
    assert!(pending * state.total_staked <= state.fee_pool * user.staked_amount);
}

#[test]
fn one_year_at_minimum_apy() {
    let mut state = ledger(8, 12, 0);
    let user = staked(&mut state, "user", 1_000_000, 0);
    add_fee_to_pool(&mut state, 1_000_000, &"usdc".to_string()).unwrap();
    assert_eq!(calculate_yield(&state, &user, 31_536_000), Ok(80_000));
}

#[test]
fn zero_short_circuits() {
    let mut state = ledger(8, 12, 0);
    let user = staked(&mut state, "user", 1_000_000, 100);
    assert_eq!(calculate_yield(&state, &user, 10_000), Ok(0));
    add_fee_to_pool(&mut state, 1_000_000, &"usdc".to_string()).unwrap();
    assert_eq!(calculate_yield(&state, &user, 100), Ok(0));
    assert_eq!(calculate_yield(&state, &user, 50), Ok(0));
    let nobody = new_staker("nobody".to_string(), 0);
    assert_eq!(calculate_yield(&state, &nobody, 10_000), Ok(0));
}

#[test]
fn claim_twice_without_time_passing() {
    let mut state = ledger(8, 12, 0);
    let mut user = staked(&mut state, "user", 1_000_000, 0);
    add_fee_to_pool(&mut state, 1_000_000, &"usdc".to_string()).unwrap();
    let now = 31_536_000;
    assert_eq!(execute_claim(&mut state, &mut user, now), Ok(80_000));
    assert_eq!(state.fee_pool, 920_000);
    assert_eq!(execute_claim(&mut state, &mut user, now), Err(ContractError::NoRewards));
    assert_eq!(state.fee_pool, 920_000);
}

#[test]
fn apy_follows_utilization() {
    let state = ledger(8, 12, 1_000_000_000);
    assert_eq!(current_apy(&state.config, 0), 8 * PERCENT);
    assert_eq!(current_apy(&state.config, 500_000_000), 10 * PERCENT);
    assert_eq!(current_apy(&state.config, 1_000_000_000), 12 * PERCENT);
    assert_eq!(current_apy(&state.config, 2_000_000_000), 12 * PERCENT);
    assert_eq!(current_apy(&state.config, u128::MAX), 12 * PERCENT);
    assert_eq!(current_apy(&state.config, 1), 8 * PERCENT + 40_000_000);
}

#[test]
fn broken_states_are_reported() {
    let mut state = ledger(8, 12, 0);
    let mut user = staked(&mut state, "user", 10, 0);
    add_fee_to_pool(&mut state, 1000, &"usdc".to_string()).unwrap();
    user.staked_amount = 11;
    assert_eq!(calculate_yield(&state, &user, 100), Err(ContractError::StateCorruption));
    state.config.min_apy = 13;
    assert_eq!(query_current_apy(&state).current_apy, 13 * PERCENT);
}

#[test]
fn apy_curve_falls_when_the_maximum_is_below_the_minimum() {
    let state = ledger(12, 8, 1_000_000_000);
    assert_eq!(current_apy(&state.config, 0), 12 * PERCENT);
    assert_eq!(current_apy(&state.config, 500_000_000), 10 * PERCENT);
    assert_eq!(current_apy(&state.config, 1_000_000_000), 8 * PERCENT);
    assert_eq!(current_apy(&state.config, 3_000_000_000), 8 * PERCENT);
    assert_eq!(current_apy(&state.config, 1), 12 * PERCENT - 40_000_000);
}

#[test]
fn zero_cases_come_before_every_error() {
    let mut state = ledger(8, 12, 0);
    let mut user = new_staker("user".to_string(), 0);
    user.staked_amount = 5;
    user.last_claim_time = 0;
    // Nothing staked in total and an empty pool: zero, not a corruption error.
    assert_eq!(calculate_yield(&state, &user, 100), Ok(0));
    state.config.min_apy = 20;
    assert_eq!(calculate_yield(&state, &user, 100), Ok(0));
    assert_eq!(execute_claim(&mut state, &mut user, 100), Err(ContractError::NoRewards));
}

#[test]
fn fee_pool_accepts_only_the_reward_token() {
    let mut state = ledger(8, 12, 0);
    assert_eq!(add_fee_to_pool(&mut state, 5, &"kale".to_string()), Err(ContractError::InvalidToken));
    assert_eq!(add_fee_to_pool(&mut state, 5, &reward_denom()), Ok(()));
    assert_eq!(state.fee_pool, 5);
    assert_eq!(add_fee_to_pool(&mut state, u128::MAX, &reward_denom()), Err(ContractError::StateCorruption));
    assert_eq!(stake_denom(), "kale");
    assert_eq!(reward_denom(), "usdc");
}

#[test]
fn config_updates() {
    let mut state = ledger(8, 12, 0);
    assert_eq!(
        update_config(&mut state, &"user".to_string(), Some(1), None, None, None, None),
        Err(ContractError::Unauthorized)
    );
    assert_eq!(state.config.min_apy, 8);
    assert_eq!(
        update_config(&mut state, &"owner".to_string(), Some(20), None, None, None, None),
        Ok(())
    );
    assert_eq!((state.config.min_apy, state.config.max_apy), (20, 12));
    assert_eq!(
        update_config(&mut state, &"owner".to_string(), Some(5), Some(15), Some(60), Some(7), None),
        Ok(())
    );
    assert_eq!(
        (state.config.min_apy, state.config.max_apy, state.config.lock_period, state.config.kale_reserve),
        (5, 15, 60, 7)
    );
    assert_eq!(state.config.fee_yield_percent, 50);
    let r = instantiate("owner".to_string(), InstantiateMsg {
        min_apy: 12,
        max_apy: 8,
        lock_period: 1,
        kale_reserve: 0,
        fee_yield_percent: 0,
    });
    assert_eq!((r.config.min_apy, r.config.max_apy), (12, 8));
}

#[test]
fn total_staked_is_the_sum_of_principals() {
    let mut state = ledger(8, 12, 0);
    let mut a = staked(&mut state, "a", 700, 0);
    let mut b = staked(&mut state, "b", 300, 10);
    execute_stake(&mut state, &mut a, &coins(50, "kale"), 50, 20).unwrap();
    add_fee_to_pool(&mut state, 10_000, &"usdc".to_string()).unwrap();
    execute_unstake(&mut state, &mut b, 100, 10 + 86400).unwrap();
    execute_claim(&mut state, &mut a, 31_536_000).unwrap();
    assert_eq!(state.total_staked, a.staked_amount + b.staked_amount);
    assert_eq!(state.total_staked, 950);
}

#[test]
fn falling_curve_never_pays_above_the_exact_yield() {
    let mut state = ledger(12, 8, 3);
    let user = staked(&mut state, "user", 1, 0);
    add_fee_to_pool(&mut state, 1_000_000_000_000_000_000, &"usdc".to_string()).unwrap();
    // Utilization 1/3: the exact APY is 12% - 4%/3, and three years give 0.32 of the pool.
    assert_eq!(current_apy(&state.config, 1), 106_666_666_666_666_666);
    let pending = calculate_yield(&state, &user, 3 * 31_536_000).unwrap();
    assert_eq!(pending, 319_999_999_999_999_998);
    assert!(pending <= 320_000_000_000_000_000);
}
