//! Tests of rebuilding a ledger from persisted parts.

use token_staking::model::AccountRecord;
use token_staking::{StakingLedger, TokenBank};

fn record(staked: u128, paid: u128, accrued: u128) -> AccountRecord {
    AccountRecord { staked_balance: staked, reward_per_token_paid: paid, accrued_reward: accrued }
}

#[test]
fn rebuilt_ledger_reads_the_same() {
    let mut ledger = StakingLedger::new(20, 9, 0);
    let mut stake_token = TokenBank::new();
    stake_token.mint(1, 1000).unwrap();
    stake_token.mint(2, 1000).unwrap();
    stake_token.approve(1, 9, 1000);
    stake_token.approve(2, 9, 1000);
    ledger.stake(&mut stake_token, 1, 5, 0).unwrap();
    ledger.stake(&mut stake_token, 2, 15, 10).unwrap();

    let rows = ledger.accounts().clone();
    let rebuilt = StakingLedger::from_parts(
        ledger.reward_rate(),
        ledger.custody(),
        ledger.reward_per_token_stored(),
        ledger.last_update_time(),
        rows,
    )
    .unwrap();
    assert_eq!(rebuilt.total_staked(), ledger.total_staked());
    assert_eq!(rebuilt.reward_per_token_stored(), ledger.reward_per_token_stored());
    assert_eq!(rebuilt.last_update_time(), ledger.last_update_time());
    for who in [1, 2, 3] {
        assert_eq!(rebuilt.staked_balance_of(who), ledger.staked_balance_of(who));
        assert_eq!(rebuilt.accrued_reward_of(who), ledger.accrued_reward_of(who));
        assert_eq!(
            rebuilt.reward_per_token_paid_of(who),
            ledger.reward_per_token_paid_of(who)
        );
    }
}

#[test]
fn from_parts_computes_the_total() {
    let rows = vec![(1, record(5, 0, 0)), (2, record(7, 0, 0))];
    let ledger = StakingLedger::from_parts(20, 9, 0, 0, rows).unwrap();
    assert_eq!(ledger.total_staked(), 12);
    assert_eq!(ledger.staked_balance_of(1), 5);
    assert_eq!(ledger.staked_balance_of(2), 7);
}

#[test]
fn from_parts_rejects_duplicate_accounts() {
    let rows = vec![(1, record(5, 0, 0)), (1, record(7, 0, 0))];
    assert!(StakingLedger::from_parts(20, 9, 0, 0, rows).is_none());
}

#[test]
fn from_parts_rejects_checkpoint_ahead_of_accumulator() {
    let rows = vec![(1, record(5, 41, 0))];
    assert!(StakingLedger::from_parts(20, 9, 40, 0, rows).is_none());
}

#[test]
fn from_parts_rejects_unrepresentable_total() {
    let rows = vec![(1, record(u128::MAX, 0, 0)), (2, record(1, 0, 0))];
    assert!(StakingLedger::from_parts(20, 9, 0, 0, rows).is_none());
}
