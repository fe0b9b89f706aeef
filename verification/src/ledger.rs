//! The staking ledger: executable state and the three staking operations.
//!
//! Every operation first settles the acting account — it advances the reward
//! accumulator to the current time and folds the account's newly earned
//! reward into its accrued balance — and only then performs its own balance
//! mutation. Each operation is atomic: it either applies in full, together
//! with its token transfer, or fails leaving both the ledger and the token
//! unchanged.

use vstd::prelude::*;

use crate::assoc::{assoc_get, assoc_set};
use crate::errors::Error;
use crate::model::{
    lemma_claim_op_wf, lemma_row_paid_bound, lemma_settled_wf, lemma_stake_op_wf,
    lemma_withdraw_op_wf, AccountRecord, LedgerView,
};
use crate::token::TokenBank;

verus! {

/// The reward-accrual ledger of a token-staking program.
///
/// Participants lock up a stake asset and accrue a separate reward asset in
/// proportion to the amount and duration staked, at `reward_rate` units per
/// unit of time, shared over everything staked. Reward emitted while nothing
/// is staked is forfeited, not queued. Deposits and withdrawals of amount
/// zero are accepted as no-ops that still advance the accumulator.
pub struct StakingLedger {
    reward_rate: u128,
    total_staked: u128,
    reward_per_token_stored: u128,
    last_update_time: u64,
    custody: u64,
    accounts: Vec<(u64, AccountRecord)>,
    emitted_active: Ghost<int>,
    claimed: Ghost<int>,
}

impl View for StakingLedger {
    type V = LedgerView;

    closed spec fn view(&self) -> LedgerView {
        LedgerView {
            reward_rate: self.reward_rate,
            total_staked: self.total_staked,
            reward_per_token_stored: self.reward_per_token_stored,
            last_update_time: self.last_update_time,
            custody: self.custody,
            accounts: self.accounts@,
            emitted_active: self.emitted_active@,
            claimed: self.claimed@,
        }
    }
}

impl StakingLedger {
    /// A fresh ledger: nothing staked, accumulator at zero, clock at
    /// deployment time. `custody` is the token account that holds the staked
    /// assets and pays the rewards out.
    pub fn new(reward_rate: u128, custody: u64, deploy_time: u64) -> (ledger: StakingLedger)
        ensures
            ledger@ == LedgerView::init(reward_rate, custody, deploy_time),
            ledger@.wf(),
    {
        let ledger = StakingLedger {
            reward_rate,
            total_staked: 0,
            reward_per_token_stored: 0,
            last_update_time: deploy_time,
            custody,
            accounts: Vec::new(),
            emitted_active: Ghost(0),
            claimed: Ghost(0),
        };
        proof {
            assert(ledger@ =~= LedgerView::init(reward_rate, custody, deploy_time));
        }
        ledger
    }

    /// Rebuild a ledger from persisted parts, validating what a well-formed
    /// ledger guarantees: distinct account keys, no checkpoint ahead of the
    /// accumulator, and staked balances whose sum — recomputed here and used
    /// as the global total — fits the integer type. Returns `None` when the
    /// parts cannot form a well-formed ledger.
    pub fn from_parts(
        reward_rate: u128,
        custody: u64,
        reward_per_token_stored: u128,
        last_update_time: u64,
        rows: Vec<(u64, AccountRecord)>,
    ) -> (r: Option<StakingLedger>)
        ensures
            match r {
                Some(l) => {
                    &&& l@.wf()
                    &&& l@.reward_rate == reward_rate
                    &&& l@.custody == custody
                    &&& l@.reward_per_token_stored == reward_per_token_stored
                    &&& l@.last_update_time == last_update_time
                    &&& l@.accounts == rows@
                    &&& l@.total_staked == crate::model::sum_staked(rows@)
                    &&& l@.claimed == 0
                },
                None => !({
                    &&& crate::assoc::assoc_distinct(rows@)
                    &&& (forall|i: int| 0 <= i < rows@.len()
                        ==> rows@[i].1.reward_per_token_paid <= reward_per_token_stored)
                    &&& crate::model::sum_staked(rows@) <= u128::MAX
                }),
            },
    {
        let n: usize = rows.len();
        let mut total: u128 = 0;
        let mut i: usize = 0;
        while i < n
            invariant
                n == rows@.len(),
                0 <= i <= n,
                total == crate::model::sum_staked(rows@.take(i as int)),
                forall|a: int, b: int| 0 <= a < b < i ==> rows@[a].0 != rows@[b].0,
                forall|a: int| 0 <= a < i ==> rows@[a].1.reward_per_token_paid
                    <= reward_per_token_stored,
            decreases n - i,
        {
            let mut j: usize = 0;
            while j < i
                invariant
                    n == rows@.len(),
                    0 <= j <= i < n,
                    forall|a: int| 0 <= a < j ==> rows@[a].0 != rows@[i as int].0,
                decreases i - j,
            {
                if rows[j].0 == rows[i].0 {
                    return None;
                }
                j = j + 1;
            }
            let rec: AccountRecord = rows[i].1;
            if rec.reward_per_token_paid > reward_per_token_stored {
                return None;
            }
            proof {
                assert(rows@.take(i as int + 1) =~= rows@.take(i as int).push(rows@[i as int]));
                crate::model::lemma_sums_push(rows@.take(i as int), rows@[i as int], 0);
            }
            total = match total.checked_add(rec.staked_balance) {
                Some(t) => t,
                None => {
                    proof {
                        crate::model::lemma_sum_staked_take_le(rows@, i as int + 1);
                    }
                    return None;
                },
            };
            i = i + 1;
        }
        proof {
            assert(rows@.take(n as int) =~= rows@);
        }
        let ghost contents = rows@;
        let ledger = StakingLedger {
            reward_rate,
            total_staked: total,
            reward_per_token_stored,
            last_update_time,
            custody,
            accounts: rows,
            emitted_active: Ghost(
                crate::model::sum_accrued(contents) + crate::model::sum_owed(
                    contents,
                    reward_per_token_stored as int,
                ),
            ),
            claimed: Ghost(0),
        };
        Some(ledger)
    }

    /// The account rows, for persisting the ledger.
    pub fn accounts(&self) -> (r: &Vec<(u64, AccountRecord)>)
        ensures
            r@ == self@.accounts,
    {
        &self.accounts
    }

    pub fn reward_rate(&self) -> (r: u128)
        ensures
            r == self@.reward_rate,
    {
        self.reward_rate
    }

    pub fn total_staked(&self) -> (r: u128)
        ensures
            r == self@.total_staked,
    {
        self.total_staked
    }

    pub fn reward_per_token_stored(&self) -> (r: u128)
        ensures
            r == self@.reward_per_token_stored,
    {
        self.reward_per_token_stored
    }

    pub fn last_update_time(&self) -> (r: u64)
        ensures
            r == self@.last_update_time,
    {
        self.last_update_time
    }

    pub fn custody(&self) -> (r: u64)
        ensures
            r == self@.custody,
    {
        self.custody
    }

    /// The row of `who`, reading absent rows as all zero.
    fn get_record(&self, who: u64) -> (r: AccountRecord)
        ensures
            r == self@.row(who),
    {
        match assoc_get(&self.accounts, who) {
            Some(rec) => rec,
            None => AccountRecord { staked_balance: 0, reward_per_token_paid: 0, accrued_reward: 0 },
        }
    }

    pub fn staked_balance_of(&self, who: u64) -> (r: u128)
        ensures
            r == self@.row(who).staked_balance,
    {
        self.get_record(who).staked_balance
    }

    pub fn accrued_reward_of(&self, who: u64) -> (r: u128)
        ensures
            r == self@.row(who).accrued_reward,
    {
        self.get_record(who).accrued_reward
    }

    pub fn reward_per_token_paid_of(&self, who: u64) -> (r: u128)
        ensures
            r == self@.row(who).reward_per_token_paid,
    {
        self.get_record(who).reward_per_token_paid
    }

    /// The accumulator value advanced to `now`, without mutating anything:
    /// unchanged when nothing is staked, else grown by
    /// `reward_rate * elapsed / total_staked`, truncating.
    pub fn reward_per_token(&self, now: u64) -> (r: Result<u128, Error>)
        ensures
            r == self@.rpt_result(now),
    {
        if now < self.last_update_time {
            return Err(Error::ClockRegression);
        }
        if self.total_staked == 0 {
            return Ok(self.reward_per_token_stored);
        }
        let dt: u64 = now - self.last_update_time;
        let emitted: u128 = match self.reward_rate.checked_mul(dt as u128) {
            Some(e) => e,
            None => {
                return Err(Error::ArithmeticOverflow);
            },
        };
        let per: u128 = emitted / self.total_staked;
        match self.reward_per_token_stored.checked_add(per) {
            Some(v) => Ok(v),
            None => Err(Error::ArithmeticOverflow),
        }
    }

    /// Reward `who` has earned since its last settlement, measured against
    /// the accumulator value `current_reward_per_token`: the staked balance
    /// times the accumulator movement since the account's checkpoint.
    pub fn earned(&self, who: u64, current_reward_per_token: u128) -> (r: Result<u128, Error>)
        requires
            self@.row(who).reward_per_token_paid <= current_reward_per_token,
        ensures
            match r {
                Ok(v) => v == self@.row(who).staked_balance * (current_reward_per_token
                    - self@.row(who).reward_per_token_paid),
                Err(e) => e == Error::ArithmeticOverflow && self@.row(who).staked_balance
                    * (current_reward_per_token - self@.row(who).reward_per_token_paid)
                    > u128::MAX,
            },
    {
        let rec = self.get_record(who);
        let delta: u128 = current_reward_per_token - rec.reward_per_token_paid;
        match rec.staked_balance.checked_mul(delta) {
            Some(v) => Ok(v),
            None => Err(Error::ArithmeticOverflow),
        }
    }

    /// The settled accumulator value and row of `who` at `now`, computed
    /// without mutating anything so that a failing operation changes nothing.
    fn settle_compute(&self, who: u64, now: u64) -> (r: Result<(u128, AccountRecord), Error>)
        requires
            self@.wf(),
        ensures
            match r {
                Ok(p) => self@.settle_ok(who, now) && self@.rpt_result(now) == Ok::<u128, Error>(
                    p.0,
                ) && p.1 == self@.settled_record(who, now),
                Err(e) => !self@.settle_ok(who, now) && e == self@.settle_err(who, now),
            },
    {
        let rpt: u128 = match self.reward_per_token(now) {
            Ok(v) => v,
            Err(e) => {
                return Err(e);
            },
        };
        proof {
            lemma_row_paid_bound(self@, who);
            crate::model::lemma_advanced_wf(self@, now);
        }
        let inc: u128 = match self.earned(who, rpt) {
            Ok(v) => v,
            Err(e) => {
                return Err(e);
            },
        };
        let rec = self.get_record(who);
        match rec.accrued_reward.checked_add(inc) {
            None => Err(Error::ArithmeticOverflow),
            Some(acc) => Ok(
                (
                    rpt,
                    AccountRecord {
                        staked_balance: rec.staked_balance,
                        reward_per_token_paid: rpt,
                        accrued_reward: acc,
                    },
                ),
            ),
        }
    }

    /// Commit a computed settlement: advance the accumulator and the clock,
    /// account the emission, and write the settled row.
    fn commit_settle(&mut self, who: u64, now: u64, rpt: u128, rec: AccountRecord)
        requires
            old(self)@.settle_ok(who, now),
            old(self)@.rpt_result(now) == Ok::<u128, Error>(rpt),
            rec == old(self)@.settled_record(who, now),
        ensures
            final(self)@ == old(self)@.settled(who, now),
    {
        self.emitted_active = Ghost(self@.emitted_active + self@.emission(now));
        self.reward_per_token_stored = rpt;
        self.last_update_time = now;
        assoc_set(&mut self.accounts, who, rec);
        proof {
            assert(self@ =~= old(self)@.settled(who, now));
        }
    }

    /// Credit `amount` to `who`'s staked balance and the global total.
    /// The account must be freshly settled — its checkpoint at the current
    /// accumulator value — so that no interval is accounted against the new
    /// balance; a host shell enforces this by settling first and checking the
    /// checkpoint. Fails atomically when the total would overflow.
    pub fn credit_stake(&mut self, who: u64, amount: u128) -> (r: Result<(), Error>)
        requires
            old(self)@.wf(),
            old(self)@.row(who).reward_per_token_paid == old(self)@.reward_per_token_stored,
        ensures
            final(self)@.wf(),
            match r {
                Ok(()) => old(self)@.total_staked + amount <= u128::MAX && final(self)@ == old(
                    self,
                )@.with_stake_added(who, amount),
                Err(e) => e == Error::ArithmeticOverflow && old(self)@.total_staked + amount
                    > u128::MAX && final(self)@ == old(self)@,
            },
    {
        let new_total: u128 = match self.total_staked.checked_add(amount) {
            None => {
                return Err(Error::ArithmeticOverflow);
            },
            Some(t) => t,
        };
        proof {
            lemma_stake_op_wf(self@, who, amount);
        }
        let rec = self.get_record(who);
        let new_balance: u128 = rec.staked_balance.checked_add(amount).unwrap();
        self.total_staked = new_total;
        assoc_set(
            &mut self.accounts,
            who,
            AccountRecord {
                staked_balance: new_balance,
                reward_per_token_paid: rec.reward_per_token_paid,
                accrued_reward: rec.accrued_reward,
            },
        );
        proof {
            assert(self@ =~= old(self)@.with_stake_added(who, amount));
        }
        Ok(())
    }

    /// Debit `amount` from `who`'s staked balance and the global total.
    /// The account must be freshly settled, as for [`Self::credit_stake`].
    /// Fails atomically when less than `amount` is staked.
    pub fn debit_stake(&mut self, who: u64, amount: u128) -> (r: Result<(), Error>)
        requires
            old(self)@.wf(),
            old(self)@.row(who).reward_per_token_paid == old(self)@.reward_per_token_stored,
        ensures
            final(self)@.wf(),
            match r {
                Ok(()) => old(self)@.row(who).staked_balance >= amount && final(self)@ == old(
                    self,
                )@.with_stake_removed(who, amount),
                Err(e) => e == Error::InsufficientBalance && old(self)@.row(who).staked_balance
                    < amount && final(self)@ == old(self)@,
            },
    {
        let rec = self.get_record(who);
        if rec.staked_balance < amount {
            return Err(Error::InsufficientBalance);
        }
        proof {
            lemma_withdraw_op_wf(self@, who, amount);
        }
        let new_total: u128 = self.total_staked - amount;
        let new_balance: u128 = rec.staked_balance - amount;
        self.total_staked = new_total;
        assoc_set(
            &mut self.accounts,
            who,
            AccountRecord {
                staked_balance: new_balance,
                reward_per_token_paid: rec.reward_per_token_paid,
                accrued_reward: rec.accrued_reward,
            },
        );
        proof {
            assert(self@ =~= old(self)@.with_stake_removed(who, amount));
        }
        Ok(())
    }

    /// Capture `who`'s accrued reward and zero it, returning the captured
    /// amount: the payout a claim owes. Zeroing before the payout is issued
    /// is what makes a reentrant second claim observe zero.
    pub fn capture_reward(&mut self, who: u64) -> (r: u128)
        requires
            old(self)@.wf(),
        ensures
            final(self)@.wf(),
            r == old(self)@.row(who).accrued_reward,
            final(self)@ == old(self)@.with_reward_claimed(who),
    {
        let rec = self.get_record(who);
        proof {
            lemma_claim_op_wf(self@, who);
        }
        self.claimed = Ghost(self@.claimed + rec.accrued_reward);
        assoc_set(
            &mut self.accounts,
            who,
            AccountRecord {
                staked_balance: rec.staked_balance,
                reward_per_token_paid: rec.reward_per_token_paid,
                accrued_reward: 0,
            },
        );
        proof {
            assert(self@ =~= old(self)@.with_reward_claimed(who));
        }
        rec.accrued_reward
    }

    /// Settle `who` at `now`: advance the accumulator, fold the newly earned
    /// reward into the accrued balance, and move the checkpoint. Runs as the
    /// prefix of every operation; fails atomically on a clock regression or
    /// an arithmetic overflow.
    pub fn update_reward(&mut self, who: u64, now: u64) -> (r: Result<(), Error>)
        requires
            old(self)@.wf(),
        ensures
            final(self)@.wf(),
            match old(self)@.settle_result(who, now) {
                Ok(l) => r == Ok::<(), Error>(()) && final(self)@ == l,
                Err(e) => r == Err::<(), Error>(e) && final(self)@ == old(self)@,
            },
    {
        match self.settle_compute(who, now) {
            Err(e) => Err(e),
            Ok((rpt, rec)) => {
                proof {
                    lemma_settled_wf(self@, who, now);
                }
                self.commit_settle(who, now, rpt, rec);
                Ok(())
            },
        }
    }

    /// Deposit `amount` of the stake asset: settle, pull the amount from
    /// `who` into custody through the stake-asset token, and credit it to
    /// `who`'s staked balance and the global total. An amount of zero is a
    /// no-op that still settles. The transfer is performed before the ledger
    /// is touched, so stake that was never received is never credited; any
    /// failure leaves ledger and token unchanged.
    pub fn stake(
        &mut self,
        stake_token: &mut TokenBank,
        who: u64,
        amount: u128,
        now: u64,
    ) -> (r: Result<(), Error>)
        requires
            old(self)@.wf(),
            old(stake_token)@.wf(),
        ensures
            final(self)@.wf(),
            final(stake_token)@.wf(),
            match old(self)@.stake_result(old(stake_token)@, who, amount, now) {
                Ok(p) => r == Ok::<(), Error>(()) && final(self)@ == p.0 && final(stake_token)@
                    == p.1,
                Err(e) => r == Err::<(), Error>(e) && final(self)@ == old(self)@
                    && final(stake_token)@ == old(stake_token)@,
            },
    {
        let (rpt, rec) = match self.settle_compute(who, now) {
            Err(e) => {
                return Err(e);
            },
            Ok(p) => p,
        };
        proof {
            lemma_settled_wf(self@, who, now);
        }
        if amount == 0 {
            self.commit_settle(who, now, rpt, rec);
            return Ok(());
        }
        let new_total: u128 = match self.total_staked.checked_add(amount) {
            None => {
                return Err(Error::ArithmeticOverflow);
            },
            Some(t) => t,
        };
        match stake_token.transfer_from(who, self.custody, self.custody, amount) {
            Err(_) => {
                return Err(Error::ExternalTransferFailed);
            },
            Ok(()) => {},
        }
        self.commit_settle(who, now, rpt, rec);
        let credited = self.credit_stake(who, amount);
        proof {
            // The total was checked before the transfer was issued.
            assert(credited is Ok);
        }
        Ok(())
    }

    /// Withdraw `amount` of the stake asset: settle, debit `who`'s staked
    /// balance and the global total, and return the amount from custody to
    /// `who` through the stake-asset token. Fails with `InsufficientBalance`
    /// when `who` has less than `amount` staked; an amount of zero is a no-op
    /// that still settles; any failure leaves ledger and token unchanged.
    pub fn withdraw(
        &mut self,
        stake_token: &mut TokenBank,
        who: u64,
        amount: u128,
        now: u64,
    ) -> (r: Result<(), Error>)
        requires
            old(self)@.wf(),
            old(stake_token)@.wf(),
        ensures
            final(self)@.wf(),
            final(stake_token)@.wf(),
            match old(self)@.withdraw_result(old(stake_token)@, who, amount, now) {
                Ok(p) => r == Ok::<(), Error>(()) && final(self)@ == p.0 && final(stake_token)@
                    == p.1,
                Err(e) => r == Err::<(), Error>(e) && final(self)@ == old(self)@
                    && final(stake_token)@ == old(stake_token)@,
            },
    {
        let (rpt, rec) = match self.settle_compute(who, now) {
            Err(e) => {
                return Err(e);
            },
            Ok(p) => p,
        };
        proof {
            lemma_settled_wf(self@, who, now);
        }
        if amount == 0 {
            self.commit_settle(who, now, rpt, rec);
            return Ok(());
        }
        if rec.staked_balance < amount {
            return Err(Error::InsufficientBalance);
        }
        match stake_token.transfer(self.custody, who, amount) {
            Err(_) => {
                return Err(Error::ExternalTransferFailed);
            },
            Ok(()) => {},
        }
        self.commit_settle(who, now, rpt, rec);
        let debited = self.debit_stake(who, amount);
        proof {
            // The staked balance was checked before the transfer was issued.
            assert(debited is Ok);
        }
        Ok(())
    }

    /// Claim the accrued reward: settle, pay the whole accrued balance from
    /// custody to `who` through the reward-asset token, and zero it. Returns
    /// the amount paid; a second immediate claim therefore pays zero. The
    /// accrued balance is zeroed only once the payout went through; any
    /// failure leaves ledger and token unchanged.
    pub fn get_reward(&mut self, reward_token: &mut TokenBank, who: u64, now: u64) -> (r: Result<
        u128,
        Error,
    >)
        requires
            old(self)@.wf(),
            old(reward_token)@.wf(),
        ensures
            final(self)@.wf(),
            final(reward_token)@.wf(),
            match old(self)@.claim_result(old(reward_token)@, who, now) {
                Ok(p) => r == Ok::<u128, Error>(p.2) && final(self)@ == p.0 && final(reward_token)@
                    == p.1,
                Err(e) => r == Err::<u128, Error>(e) && final(self)@ == old(self)@
                    && final(reward_token)@ == old(reward_token)@,
            },
    {
        let (rpt, rec) = match self.settle_compute(who, now) {
            Err(e) => {
                return Err(e);
            },
            Ok(p) => p,
        };
        proof {
            lemma_settled_wf(self@, who, now);
        }
        let reward: u128 = rec.accrued_reward;
        match reward_token.transfer(self.custody, who, reward) {
            Err(_) => {
                return Err(Error::ExternalTransferFailed);
            },
            Ok(()) => {},
        }
        self.commit_settle(who, now, rpt, rec);
        let captured = self.capture_reward(who);
        proof {
            assert(captured == reward);
        }
        Ok(captured)
    }
}

} // verus!
