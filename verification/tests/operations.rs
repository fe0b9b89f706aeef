//! Tests of the staking operations, step by step.

use token_staking::model::AccountRecord;
use token_staking::{Error, StakingLedger, TokenBank};

/// A ledger with `reward_rate` 20, custody account 9, deployed at time 0,
/// and a stake token where account 1 holds 1000 units and has approved the
/// custody account for 1000.
fn setup(reward_rate: u128) -> (StakingLedger, TokenBank) {
    let ledger = StakingLedger::new(reward_rate, 9, 0);
    let mut stake_token = TokenBank::new();
    stake_token.mint(1, 1000).unwrap();
    stake_token.approve(1, 9, 1000);
    (ledger, stake_token)
}

#[test]
fn truncation_with_large_stake() {
    // rate 20 over 10 time units is 200, spread over 500 staked units:
    // 200 / 500 truncates to 0.
    let (mut ledger, mut stake_token) = setup(20);
    ledger.stake(&mut stake_token, 1, 500, 0).unwrap();
    assert_eq!(ledger.reward_per_token(10), Ok(0));
}

#[test]
fn accumulator_with_small_stake() {
    // The same emission over 5 staked units: 200 / 5 = 40.
    let (mut ledger, mut stake_token) = setup(20);
    ledger.stake(&mut stake_token, 1, 5, 0).unwrap();
    assert_eq!(ledger.reward_per_token(10), Ok(40));
}

#[test]
fn withdraw_settles_before_debiting() {
    // Stake 5 at t=0, withdraw all 5 at t=10: the settlement that prefixes
    // the withdrawal must be computed against the balance that was staked
    // during the interval, so 5 * (40 - 0) = 200 is accrued.
    let (mut ledger, mut stake_token) = setup(20);
    ledger.stake(&mut stake_token, 1, 5, 0).unwrap();
    ledger.withdraw(&mut stake_token, 1, 5, 10).unwrap();
    assert_eq!(ledger.reward_per_token_stored(), 40);
    assert_eq!(ledger.accrued_reward_of(1), 200);
    assert_eq!(ledger.staked_balance_of(1), 0);
    assert_eq!(ledger.total_staked(), 0);
    assert_eq!(stake_token.balance_of(1), 1000);
    assert_eq!(stake_token.balance_of(9), 0);
}

#[test]
fn claim_pays_exactly_and_resets() {
    let (mut ledger, mut stake_token) = setup(20);
    ledger.stake(&mut stake_token, 1, 5, 0).unwrap();
    ledger.withdraw(&mut stake_token, 1, 5, 10).unwrap();
    let mut reward_token = TokenBank::new();
    reward_token.mint(9, 1000).unwrap();
    assert_eq!(ledger.get_reward(&mut reward_token, 1, 10), Ok(200));
    assert_eq!(ledger.accrued_reward_of(1), 0);
    assert_eq!(reward_token.balance_of(1), 200);
    assert_eq!(reward_token.balance_of(9), 800);
    // A second immediate claim pays zero.
    assert_eq!(ledger.get_reward(&mut reward_token, 1, 10), Ok(0));
    assert_eq!(reward_token.balance_of(1), 200);
}

#[test]
fn overdrawn_withdraw_fails_and_changes_nothing() {
    let (mut ledger, mut stake_token) = setup(20);
    ledger.stake(&mut stake_token, 1, 5, 0).unwrap();
    let total = ledger.total_staked();
    let stored = ledger.reward_per_token_stored();
    let last = ledger.last_update_time();
    let balance = ledger.staked_balance_of(1);
    let accrued = ledger.accrued_reward_of(1);
    let paid = ledger.reward_per_token_paid_of(1);
    assert_eq!(
        ledger.withdraw(&mut stake_token, 1, 6, 10),
        Err(Error::InsufficientBalance)
    );
    assert_eq!(ledger.total_staked(), total);
    assert_eq!(ledger.reward_per_token_stored(), stored);
    assert_eq!(ledger.last_update_time(), last);
    assert_eq!(ledger.staked_balance_of(1), balance);
    assert_eq!(ledger.accrued_reward_of(1), accrued);
    assert_eq!(ledger.reward_per_token_paid_of(1), paid);
    assert_eq!(stake_token.balance_of(1), 995);
    assert_eq!(stake_token.balance_of(9), 5);
}

#[test]
fn unauthorized_stake_fails_and_changes_nothing() {
    // Account 2 never approved the custody account, so the stake-asset
    // transfer is rejected and no ledger field moves.
    let (mut ledger, mut stake_token) = setup(20);
    stake_token.mint(2, 50).unwrap();
    assert_eq!(
        ledger.stake(&mut stake_token, 2, 10, 0),
        Err(Error::ExternalTransferFailed)
    );
    assert_eq!(ledger.total_staked(), 0);
    assert_eq!(ledger.staked_balance_of(2), 0);
    assert_eq!(stake_token.balance_of(2), 50);
    assert_eq!(stake_token.balance_of(9), 0);
}

#[test]
fn underfunded_stake_fails_and_changes_nothing() {
    let (mut ledger, mut stake_token) = setup(20);
    assert_eq!(
        ledger.stake(&mut stake_token, 1, 1001, 0),
        Err(Error::ExternalTransferFailed)
    );
    assert_eq!(ledger.total_staked(), 0);
    assert_eq!(ledger.staked_balance_of(1), 0);
    assert_eq!(stake_token.balance_of(1), 1000);
}

#[test]
fn failed_claim_keeps_accrued_reward() {
    // Custody holds no reward asset: the payout is rejected and the accrued
    // balance must stay claimable.
    let (mut ledger, mut stake_token) = setup(20);
    ledger.stake(&mut stake_token, 1, 5, 0).unwrap();
    ledger.withdraw(&mut stake_token, 1, 5, 10).unwrap();
    let mut reward_token = TokenBank::new();
    assert_eq!(
        ledger.get_reward(&mut reward_token, 1, 10),
        Err(Error::ExternalTransferFailed)
    );
    assert_eq!(ledger.accrued_reward_of(1), 200);
}

#[test]
fn clock_regression_rejected() {
    let (mut ledger, mut stake_token) = setup(20);
    ledger.stake(&mut stake_token, 1, 5, 10).unwrap();
    assert_eq!(ledger.update_reward(1, 9), Err(Error::ClockRegression));
    assert_eq!(ledger.last_update_time(), 10);
    assert_eq!(ledger.stake(&mut stake_token, 1, 5, 9), Err(Error::ClockRegression));
    assert_eq!(ledger.staked_balance_of(1), 5);
}

#[test]
fn emission_overflow_rejected() {
    let mut ledger = StakingLedger::new(u128::MAX, 9, 0);
    let mut stake_token = TokenBank::new();
    stake_token.mint(1, 1000).unwrap();
    stake_token.approve(1, 9, 1000);
    ledger.stake(&mut stake_token, 1, 5, 0).unwrap();
    // u128::MAX reward units per time unit over 2 time units overflows.
    assert_eq!(ledger.update_reward(1, 2), Err(Error::ArithmeticOverflow));
    assert_eq!(ledger.last_update_time(), 0);
    assert_eq!(ledger.reward_per_token_stored(), 0);
}

#[test]
fn zero_amounts_are_noops_that_settle() {
    let (mut ledger, mut stake_token) = setup(20);
    ledger.stake(&mut stake_token, 1, 5, 0).unwrap();
    // A zero deposit at t=10 moves no tokens but advances the accumulator.
    ledger.stake(&mut stake_token, 1, 0, 10).unwrap();
    assert_eq!(ledger.reward_per_token_stored(), 40);
    assert_eq!(ledger.last_update_time(), 10);
    assert_eq!(ledger.accrued_reward_of(1), 200);
    assert_eq!(ledger.staked_balance_of(1), 5);
    assert_eq!(stake_token.balance_of(9), 5);
    // A zero withdrawal behaves the same.
    ledger.withdraw(&mut stake_token, 1, 0, 20).unwrap();
    assert_eq!(ledger.reward_per_token_stored(), 80);
    assert_eq!(ledger.accrued_reward_of(1), 400);
    assert_eq!(stake_token.balance_of(9), 5);
}

#[test]
fn settling_an_unknown_account_accrues_nothing() {
    let (mut ledger, mut stake_token) = setup(20);
    ledger.stake(&mut stake_token, 1, 5, 0).unwrap();
    ledger.update_reward(7, 10).unwrap();
    assert_eq!(ledger.accrued_reward_of(7), 0);
    assert_eq!(ledger.staked_balance_of(7), 0);
    assert_eq!(ledger.reward_per_token_paid_of(7), 40);
}

#[test]
fn earned_is_balance_times_accumulator_movement() {
    let (mut ledger, mut stake_token) = setup(20);
    ledger.stake(&mut stake_token, 1, 5, 0).unwrap();
    assert_eq!(ledger.earned(1, 40), Ok(200));
    assert_eq!(ledger.earned(1, 0), Ok(0));
    // 5 * (u128::MAX - 0) does not fit.
    assert_eq!(ledger.earned(1, u128::MAX), Err(Error::ArithmeticOverflow));
    // An account with nothing staked earns nothing at any accumulator value.
    assert_eq!(ledger.earned(2, u128::MAX), Ok(0));
}

#[test]
fn reward_per_token_reports_clock_regression() {
    let (mut ledger, mut stake_token) = setup(20);
    ledger.stake(&mut stake_token, 1, 5, 10).unwrap();
    assert_eq!(ledger.reward_per_token(9), Err(Error::ClockRegression));
    assert_eq!(ledger.reward_per_token(10), Ok(0));
}

#[test]
fn accumulator_overflow_rejected() {
    // A rebuilt ledger whose accumulator sits near the top: one more step
    // of 10 reward units per unit of stake cannot be represented.
    let rows = vec![(
        1,
        AccountRecord {
            staked_balance: 1,
            reward_per_token_paid: u128::MAX - 5,
            accrued_reward: 0,
        },
    )];
    let mut ledger = StakingLedger::from_parts(10, 9, u128::MAX - 5, 0, rows).unwrap();
    assert_eq!(ledger.reward_per_token(1), Err(Error::ArithmeticOverflow));
    assert_eq!(ledger.update_reward(1, 1), Err(Error::ArithmeticOverflow));
    assert_eq!(ledger.reward_per_token_stored(), u128::MAX - 5);
}

#[test]
fn claim_with_nothing_accrued_pays_zero() {
    let mut ledger = StakingLedger::new(20, 9, 0);
    let mut reward_token = TokenBank::new();
    // Even an empty custody can pay a zero reward.
    assert_eq!(ledger.get_reward(&mut reward_token, 3, 5), Ok(0));
    assert_eq!(reward_token.balance_of(3), 0);
}
