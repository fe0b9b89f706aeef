//! Concrete runs of the ledger's general properties.

use token_staking::{StakingLedger, TokenBank};

fn funded_token(accounts: &[u64]) -> TokenBank {
    let mut token = TokenBank::new();
    for &who in accounts {
        token.mint(who, 1_000_000).unwrap();
        token.approve(who, 9, 1_000_000);
    }
    token
}

#[test]
fn staked_balances_always_sum_to_total() {
    let mut ledger = StakingLedger::new(7, 9, 0);
    let mut stake_token = funded_token(&[1, 2, 3]);
    let check = |ledger: &StakingLedger| {
        let sum = ledger.staked_balance_of(1) + ledger.staked_balance_of(2)
            + ledger.staked_balance_of(3);
        assert_eq!(sum, ledger.total_staked());
    };
    check(&ledger);
    ledger.stake(&mut stake_token, 1, 100, 1).unwrap();
    check(&ledger);
    ledger.stake(&mut stake_token, 2, 250, 2).unwrap();
    check(&ledger);
    ledger.withdraw(&mut stake_token, 1, 40, 3).unwrap();
    check(&ledger);
    ledger.stake(&mut stake_token, 3, 1, 5).unwrap();
    check(&ledger);
    ledger.withdraw(&mut stake_token, 2, 250, 8).unwrap();
    check(&ledger);
    ledger.withdraw(&mut stake_token, 3, 1, 13).unwrap();
    check(&ledger);
    ledger.withdraw(&mut stake_token, 1, 60, 21).unwrap();
    check(&ledger);
    assert_eq!(ledger.total_staked(), 0);
}

#[test]
fn accumulator_never_decreases() {
    let mut ledger = StakingLedger::new(13, 9, 0);
    let mut stake_token = funded_token(&[1, 2]);
    let mut reward_token = TokenBank::new();
    reward_token.mint(9, 1_000_000).unwrap();
    let mut last_seen = ledger.reward_per_token_stored();
    let mut observe = |ledger: &StakingLedger| {
        let v = ledger.reward_per_token_stored();
        assert!(v >= last_seen);
        last_seen = v;
    };
    ledger.stake(&mut stake_token, 1, 3, 4).unwrap();
    observe(&ledger);
    ledger.stake(&mut stake_token, 2, 8, 9).unwrap();
    observe(&ledger);
    ledger.update_reward(1, 9).unwrap();
    observe(&ledger);
    ledger.withdraw(&mut stake_token, 2, 8, 15).unwrap();
    observe(&ledger);
    ledger.get_reward(&mut reward_token, 1, 30).unwrap();
    observe(&ledger);
    ledger.withdraw(&mut stake_token, 1, 3, 31).unwrap();
    observe(&ledger);
    ledger.update_reward(1, 100).unwrap();
    observe(&ledger);
}

#[test]
fn reward_claimed_never_exceeds_active_emission() {
    // Rate 10; stake is active from t=0 to t=25, so at most 250 reward units
    // can ever be claimed, over all accounts, however often they settle.
    let mut ledger = StakingLedger::new(10, 9, 0);
    let mut stake_token = funded_token(&[1, 2]);
    let mut reward_token = TokenBank::new();
    reward_token.mint(9, 1_000_000).unwrap();
    ledger.stake(&mut stake_token, 1, 6, 0).unwrap();
    ledger.stake(&mut stake_token, 2, 2, 5).unwrap();
    ledger.withdraw(&mut stake_token, 1, 6, 20).unwrap();
    ledger.withdraw(&mut stake_token, 2, 2, 25).unwrap();
    let paid_1 = ledger.get_reward(&mut reward_token, 1, 30).unwrap();
    let paid_2 = ledger.get_reward(&mut reward_token, 2, 40).unwrap();
    assert!(paid_1 + paid_2 <= 250);
    assert_eq!(reward_token.balance_of(1), paid_1);
    assert_eq!(reward_token.balance_of(2), paid_2);
}

#[test]
fn idle_intervals_forfeit_reward() {
    // Nothing is staked between t=0 and t=50: the accumulator stays put.
    let mut ledger = StakingLedger::new(20, 9, 0);
    let mut stake_token = funded_token(&[1]);
    ledger.update_reward(1, 50).unwrap();
    assert_eq!(ledger.reward_per_token_stored(), 0);
    assert_eq!(ledger.last_update_time(), 50);
    // Stake through t=60, withdraw, and idle again until t=1000.
    ledger.stake(&mut stake_token, 1, 10, 50).unwrap();
    ledger.withdraw(&mut stake_token, 1, 10, 60).unwrap();
    assert_eq!(ledger.reward_per_token_stored(), 20);
    ledger.update_reward(1, 1000).unwrap();
    assert_eq!(ledger.reward_per_token_stored(), 20);
    assert_eq!(ledger.last_update_time(), 1000);
}

#[test]
fn settlement_is_idempotent() {
    let mut ledger = StakingLedger::new(20, 9, 0);
    let mut stake_token = funded_token(&[1]);
    ledger.stake(&mut stake_token, 1, 5, 0).unwrap();
    ledger.update_reward(1, 10).unwrap();
    let total = ledger.total_staked();
    let stored = ledger.reward_per_token_stored();
    let last = ledger.last_update_time();
    let balance = ledger.staked_balance_of(1);
    let accrued = ledger.accrued_reward_of(1);
    let paid = ledger.reward_per_token_paid_of(1);
    // Settling again at the same time adds a zero increment and moves nothing.
    ledger.update_reward(1, 10).unwrap();
    assert_eq!(ledger.total_staked(), total);
    assert_eq!(ledger.reward_per_token_stored(), stored);
    assert_eq!(ledger.last_update_time(), last);
    assert_eq!(ledger.staked_balance_of(1), balance);
    assert_eq!(ledger.accrued_reward_of(1), accrued);
    assert_eq!(ledger.reward_per_token_paid_of(1), paid);
}

#[test]
fn two_stakers_share_in_proportion() {
    // Rate 12. Account 1 stakes 2 at t=0; account 2 stakes 4 at t=4, which
    // advances the accumulator by 12*4/2 = 24. At t=10 it advances by
    // 12*6/6 = 12 more, to 36. So account 1 has earned 2*(36-0) = 72 and
    // account 2 has earned 4*(36-24) = 48 — together the full 120 emitted.
    let mut ledger = StakingLedger::new(12, 9, 0);
    let mut stake_token = funded_token(&[1, 2]);
    ledger.stake(&mut stake_token, 1, 2, 0).unwrap();
    ledger.stake(&mut stake_token, 2, 4, 4).unwrap();
    assert_eq!(ledger.reward_per_token_stored(), 24);
    ledger.update_reward(1, 10).unwrap();
    ledger.update_reward(2, 10).unwrap();
    assert_eq!(ledger.reward_per_token_stored(), 36);
    assert_eq!(ledger.accrued_reward_of(1), 72);
    assert_eq!(ledger.accrued_reward_of(2), 48);
}

#[test]
fn fresh_ledger_starts_empty() {
    let ledger = StakingLedger::new(2000, 9, 123);
    assert_eq!(ledger.reward_rate(), 2000);
    assert_eq!(ledger.total_staked(), 0);
    assert_eq!(ledger.reward_per_token_stored(), 0);
    assert_eq!(ledger.last_update_time(), 123);
    assert_eq!(ledger.custody(), 9);
    assert_eq!(ledger.staked_balance_of(1), 0);
}
