//! The ledger's laws: properties of whole operations — and of any sequence of
//! them — stated over the model transitions and proved once and for all.

use vstd::arithmetic::div_mod::lemma_div_of0;
use vstd::prelude::*;

use crate::assoc::lemma_assoc_write_unchanged;
use crate::errors::Error;
use crate::model::{
    lemma_settled_wf, lemma_stake_op_wf, lemma_sum_owed_nonneg, lemma_sums_nonneg,
    lemma_withdraw_op_wf, sum_staked, LedgerView,
};
use crate::token::BankView;

verus! {

/// Staked-balance conservation: every successful deposit or withdrawal on a
/// well-formed ledger leaves the staked balances summing exactly to the
/// global total — and leaves the ledger well-formed, so the equation holds
/// after every operation of every sequence that starts from a fresh ledger.
pub proof fn law_staked_sum_matches_total(
    l: LedgerView,
    bank: BankView,
    who: u64,
    amount: u128,
    now: u64,
)
    requires
        l.wf(),
    ensures
        l.stake_result(bank, who, amount, now) matches Ok(p) ==> p.0.wf() && sum_staked(
            p.0.accounts,
        ) == p.0.total_staked,
        l.withdraw_result(bank, who, amount, now) matches Ok(p) ==> p.0.wf() && sum_staked(
            p.0.accounts,
        ) == p.0.total_staked,
{
    if l.settle_ok(who, now) {
        lemma_settled_wf(l, who, now);
        let l1 = l.settled(who, now);
        if amount != 0 {
            if l1.total_staked + amount <= u128::MAX {
                lemma_stake_op_wf(l1, who, amount);
            }
            if l1.row(who).staked_balance >= amount {
                lemma_withdraw_op_wf(l1, who, amount);
            }
        }
    }
}

/// Monotonicity: no successful settlement or operation ever decreases
/// `reward_per_token_stored` (and a failed one changes nothing at all).
pub proof fn law_accumulator_monotonic(
    l: LedgerView,
    bank: BankView,
    who: u64,
    amount: u128,
    now: u64,
)
    requires
        l.wf(),
    ensures
        l.settle_result(who, now) matches Ok(l1) ==> l1.reward_per_token_stored
            >= l.reward_per_token_stored,
        l.stake_result(bank, who, amount, now) matches Ok(p) ==> p.0.reward_per_token_stored
            >= l.reward_per_token_stored,
        l.withdraw_result(bank, who, amount, now) matches Ok(p) ==> p.0.reward_per_token_stored
            >= l.reward_per_token_stored,
        l.claim_result(bank, who, now) matches Ok(p) ==> p.0.reward_per_token_stored
            >= l.reward_per_token_stored,
{
    if l.settle_ok(who, now) {
        lemma_settled_wf(l, who, now);
    }
}

/// Conservation: in every well-formed state — so, inductively, after every
/// sequence of operations — the reward ever paid out by claims is bounded by
/// the reward emitted while something was staked. Truncation in the
/// accumulator only ever loses reward to the ledger, never creates it.
pub proof fn law_reward_conservation(l: LedgerView)
    requires
        l.wf(),
    ensures
        l.claimed <= l.emitted_active,
{
    lemma_sums_nonneg(l.accounts);
    lemma_sum_owed_nonneg(l.accounts, l.reward_per_token_stored as int);
}

/// No-stake forfeiture: while nothing is staked, an interval of any length
/// leaves the accumulator exactly where it was.
pub proof fn law_no_stake_forfeiture(l: LedgerView, who: u64, now: u64)
    requires
        l.wf(),
        l.total_staked == 0,
    ensures
        l.rpt_result(now) matches Ok(v) ==> v == l.reward_per_token_stored,
        l.settle_result(who, now) matches Ok(l1) ==> l1.reward_per_token_stored
            == l.reward_per_token_stored,
{
    if l.settle_ok(who, now) {
        lemma_settled_wf(l, who, now);
    }
}

/// Between claims, no account's accrued reward ever decreases: settlement
/// only adds a non-negative increment, and deposits and withdrawals touch
/// only staked balances.
pub proof fn law_accrued_monotone_between_claims(
    l: LedgerView,
    bank: BankView,
    who: u64,
    amount: u128,
    now: u64,
)
    requires
        l.wf(),
    ensures
        l.settle_result(who, now) matches Ok(l1) ==> forall|a: u64|
            l1.row(a).accrued_reward >= l.row(a).accrued_reward,
        l.stake_result(bank, who, amount, now) matches Ok(p) ==> forall|a: u64|
            p.0.row(a).accrued_reward >= l.row(a).accrued_reward,
        l.withdraw_result(bank, who, amount, now) matches Ok(p) ==> forall|a: u64|
            p.0.row(a).accrued_reward >= l.row(a).accrued_reward,
{
    if l.settle_ok(who, now) {
        lemma_settled_wf(l, who, now);
        crate::model::lemma_row_paid_bound(l, who);
        let rpt = l.rpt_result(now).unwrap();
        vstd::arithmetic::mul::lemma_mul_nonnegative(
            l.row(who).staked_balance as int,
            rpt - l.row(who).reward_per_token_paid,
        );
        let l1 = l.settled(who, now);
        assert(l1.row(who).accrued_reward >= l.row(who).accrued_reward);
        if amount != 0 {
            if l1.total_staked + amount <= u128::MAX {
                lemma_stake_op_wf(l1, who, amount);
            }
            if l1.row(who).staked_balance >= amount {
                lemma_withdraw_op_wf(l1, who, amount);
            }
        }
    }
}

/// A successful claim moves exactly the settled accrued reward: out of
/// custody, onto the claimant's token balance, onto the claimed total, and
/// off the account's row — which is left at zero.
pub proof fn law_claim_pays_out(l: LedgerView, bank: BankView, who: u64, now: u64)
    requires
        l.wf(),
        bank.wf(),
        who != l.custody,
    ensures
        l.claim_result(bank, who, now) matches Ok(p) ==> {
            &&& p.2 == l.settled(who, now).row(who).accrued_reward
            &&& p.0.claimed == l.claimed + p.2
            &&& p.0.row(who).accrued_reward == 0
            &&& bank.bal_of(l.custody) >= p.2
            &&& p.1.bal_of(who) == bank.bal_of(who) + p.2
            &&& p.1.bal_of(l.custody) == bank.bal_of(l.custody) - p.2
        },
{
    if l.claim_result(bank, who, now) is Ok {
        lemma_settled_wf(l, who, now);
        let l1 = l.settled(who, now);
        let reward = l1.row(who).accrued_reward;
        crate::model::lemma_claim_op_wf(l1, who);
        let debited = (bank.bal_of(l.custody) - reward) as u128;
        crate::assoc::lemma_assoc_write(bank.balances, l.custody, debited);
        let b1 = crate::assoc::assoc_write(bank.balances, l.custody, debited);
        crate::assoc::lemma_assoc_write(b1, who, (bank.bal_of(who) + reward) as u128);
    }
}

/// Idempotent settlement: settling the same account again at the same time
/// succeeds and changes nothing — the second earned increment is zero.
pub proof fn law_settle_idempotent(l: LedgerView, who: u64, now: u64)
    requires
        l.wf(),
        l.settle_ok(who, now),
    ensures
        l.settled(who, now).settle_result(who, now) == Ok::<LedgerView, Error>(
            l.settled(who, now),
        ),
{
    lemma_settled_wf(l, who, now);
    let l1 = l.settled(who, now);
    let stored: u128 = l1.reward_per_token_stored;
    if l1.total_staked > 0 {
        assert(l1.reward_rate * (now - l1.last_update_time) == 0) by (nonlinear_arith)
            requires
                l1.last_update_time == now,
        ;
        lemma_div_of0(l1.total_staked as int);
    }
    assert(l1.rpt_result(now) == Ok::<u128, Error>(stored));
    assert(l1.row(who).staked_balance * (stored - l1.row(who).reward_per_token_paid) == 0)
        by (nonlinear_arith)
        requires
            l1.row(who).reward_per_token_paid == stored,
    ;
    assert(l1.settle_ok(who, now));
    assert(l1.settled_record(who, now) == l1.row(who));
    assert(l1.advanced(now) =~= l1);
    crate::assoc::lemma_assoc_write(l.advanced(now).accounts, who, l.settled_record(who, now));
    lemma_assoc_write_unchanged(l1.accounts, who, l1.row(who));
    assert(l1.settled(who, now) =~= l1);
}

} // verus!
