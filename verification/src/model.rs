//! The mathematical model of the staking ledger.
//!
//! Every operation of [`crate::ledger::StakingLedger`] is specified as a pure
//! transition on [`LedgerView`]; the executable code is proved to implement
//! these transitions exactly, and the ledger's laws are proved about them.

use vstd::arithmetic::div_mod::{
    lemma_div_pos_is_pos, lemma_fundamental_div_mod, lemma_mod_bound,
};
use vstd::arithmetic::mul::lemma_mul_nonnegative;
use vstd::prelude::*;

use crate::assoc::{
    assoc_distinct, assoc_has, assoc_index, assoc_read, assoc_write, lemma_assoc_index,
    lemma_assoc_write,
};
use crate::errors::Error;
use crate::token::BankView;

verus! {

/// One conceptual ledger row per distinct account that has ever staked.
/// Rows are created lazily (absence reads as all zero) and never deleted:
/// a row with zero balances is equivalent to absence.
#[derive(Clone, Copy, Debug, PartialEq, Eq, Structural)]
pub struct AccountRecord {
    /// Amount of the stake asset this account has locked up.
    pub staked_balance: u128,
    /// Accumulator snapshot at this account's last settlement.
    pub reward_per_token_paid: u128,
    /// Accrued-but-unclaimed reward balance.
    pub accrued_reward: u128,
}

impl AccountRecord {
    /// The implicit value of a row that was never written.
    pub open spec fn zero() -> AccountRecord {
        AccountRecord { staked_balance: 0, reward_per_token_paid: 0, accrued_reward: 0 }
    }
}

/// The account rows, as a key-value map with a zero default.
pub type Rows = Seq<(u64, AccountRecord)>;

/// The row keyed by `who`, reading absent rows as all zero.
pub open spec fn row_of(rows: Rows, who: u64) -> AccountRecord {
    match assoc_read(rows, who) {
        Some(rec) => rec,
        None => AccountRecord::zero(),
    }
}

/// Sum of all staked balances.
pub open spec fn sum_staked(rows: Rows) -> int
    decreases rows.len(),
{
    if rows.len() == 0 {
        0
    } else {
        rows[0].1.staked_balance + sum_staked(rows.drop_first())
    }
}

/// Sum of all accrued-but-unclaimed reward balances.
pub open spec fn sum_accrued(rows: Rows) -> int
    decreases rows.len(),
{
    if rows.len() == 0 {
        0
    } else {
        rows[0].1.accrued_reward + sum_accrued(rows.drop_first())
    }
}

/// Reward earned by the rows but not yet folded into their accrued balances,
/// measured against the accumulator value `stored`.
pub open spec fn sum_owed(rows: Rows, stored: int) -> int
    decreases rows.len(),
{
    if rows.len() == 0 {
        0
    } else {
        rows[0].1.staked_balance * (stored - rows[0].1.reward_per_token_paid)
            + sum_owed(rows.drop_first(), stored)
    }
}

/// Mathematical content of a `StakingLedger`.
#[verifier::ext_equal]
pub struct LedgerView {
    /// Reward units emitted per unit of time, fixed at deployment.
    pub reward_rate: u128,
    /// Global total of all staked balances.
    pub total_staked: u128,
    /// Running total of reward earned per unit of stake, integrated over time.
    pub reward_per_token_stored: u128,
    /// Timestamp the accumulator was last advanced to.
    pub last_update_time: u64,
    /// Token account holding the assets in the ledger's custody.
    pub custody: u64,
    /// Per-account rows.
    pub accounts: Rows,
    /// History bookkeeping: reward emitted while at least one unit was staked.
    pub emitted_active: int,
    /// History bookkeeping: reward paid out by claims, over all accounts.
    pub claimed: int,
}

impl LedgerView {
    /// The row keyed by `who`, reading absent rows as all zero.
    pub open spec fn row(self, who: u64) -> AccountRecord {
        row_of(self.accounts, who)
    }

    /// The state created at deployment.
    pub open spec fn init(reward_rate: u128, custody: u64, deploy_time: u64) -> LedgerView {
        LedgerView {
            reward_rate,
            total_staked: 0,
            reward_per_token_stored: 0,
            last_update_time: deploy_time,
            custody,
            accounts: Seq::empty(),
            emitted_active: 0,
            claimed: 0,
        }
    }

    /// Well-formedness, maintained by every operation:
    /// distinct account keys; the staked balances sum to the global total;
    /// no checkpoint is ahead of the accumulator; and the reward ever paid
    /// out, plus the reward still accrued or owed, never exceeds the reward
    /// emitted while somebody was staked.
    pub open spec fn wf(self) -> bool {
        &&& assoc_distinct(self.accounts)
        &&& sum_staked(self.accounts) == self.total_staked
        &&& (forall|i: int| 0 <= i < self.accounts.len()
            ==> self.accounts[i].1.reward_per_token_paid <= self.reward_per_token_stored)
        &&& 0 <= self.claimed
        &&& self.claimed + sum_accrued(self.accounts)
            + sum_owed(self.accounts, self.reward_per_token_stored as int) <= self.emitted_active
    }

    /// Reward emitted between the last update and `now`, ideally (before
    /// truncation): zero whenever nothing is staked, since such reward is
    /// forfeited rather than queued.
    pub open spec fn emission(self, now: u64) -> int {
        if self.total_staked > 0 && now >= self.last_update_time {
            self.reward_rate * (now - self.last_update_time)
        } else {
            0
        }
    }

    /// The accumulator value advanced to `now`, or the error that the
    /// advancement fails with. When nothing is staked the accumulator is left
    /// unchanged; otherwise it grows by `reward_rate * elapsed / total_staked`,
    /// truncating.
    pub open spec fn rpt_result(self, now: u64) -> Result<u128, Error> {
        if now < self.last_update_time {
            Err(Error::ClockRegression)
        } else if self.total_staked == 0 {
            Ok(self.reward_per_token_stored)
        } else if self.reward_rate * (now - self.last_update_time) > u128::MAX {
            Err(Error::ArithmeticOverflow)
        } else if self.reward_per_token_stored
            + self.reward_rate * (now - self.last_update_time) / (self.total_staked as int)
            > u128::MAX {
            Err(Error::ArithmeticOverflow)
        } else {
            Ok((self.reward_per_token_stored
                + self.reward_rate * (now - self.last_update_time) / (self.total_staked as int))
                as u128)
        }
    }

    /// The ledger after the accumulator caught up to `now`. Meaningful when
    /// `rpt_result(now)` is `Ok`.
    pub open spec fn advanced(self, now: u64) -> LedgerView {
        LedgerView {
            reward_per_token_stored: match self.rpt_result(now) {
                Ok(v) => v,
                Err(_) => self.reward_per_token_stored,
            },
            last_update_time: now,
            emitted_active: self.emitted_active + self.emission(now),
            ..self
        }
    }

    /// Whether settling `who` at `now` succeeds.
    pub open spec fn settle_ok(self, who: u64, now: u64) -> bool {
        &&& self.rpt_result(now) is Ok
        &&& {
            let rpt = self.rpt_result(now).unwrap();
            let rec = self.row(who);
            rec.accrued_reward
                + rec.staked_balance * (rpt - rec.reward_per_token_paid) <= u128::MAX
        }
    }

    /// The error settling `who` at `now` fails with. Meaningful when
    /// `settle_ok` is false.
    pub open spec fn settle_err(self, who: u64, now: u64) -> Error {
        match self.rpt_result(now) {
            Err(e) => e,
            Ok(_) => Error::ArithmeticOverflow,
        }
    }

    /// The settled row of `who`: earned reward folded in, checkpoint moved to
    /// the advanced accumulator. Meaningful when `settle_ok`.
    pub open spec fn settled_record(self, who: u64, now: u64) -> AccountRecord {
        let rpt = self.rpt_result(now).unwrap();
        let rec = self.row(who);
        AccountRecord {
            staked_balance: rec.staked_balance,
            reward_per_token_paid: rpt,
            accrued_reward: (rec.accrued_reward
                + rec.staked_balance * (rpt - rec.reward_per_token_paid)) as u128,
        }
    }

    /// The ledger after settling `who` at `now`. Meaningful when `settle_ok`.
    pub open spec fn settled(self, who: u64, now: u64) -> LedgerView {
        let adv = self.advanced(now);
        LedgerView {
            accounts: assoc_write(adv.accounts, who, self.settled_record(who, now)),
            ..adv
        }
    }

    /// Settlement as a transition: the central prefix of every operation.
    pub open spec fn settle_result(self, who: u64, now: u64) -> Result<LedgerView, Error> {
        if self.settle_ok(who, now) {
            Ok(self.settled(who, now))
        } else {
            Err(self.settle_err(who, now))
        }
    }

    /// The ledger with `amount` more staked by `who`. Meaningful when the
    /// additions fit in the integer type.
    pub open spec fn with_stake_added(self, who: u64, amount: u128) -> LedgerView {
        let rec = self.row(who);
        LedgerView {
            total_staked: (self.total_staked + amount) as u128,
            accounts: assoc_write(
                self.accounts,
                who,
                AccountRecord { staked_balance: (rec.staked_balance + amount) as u128, ..rec },
            ),
            ..self
        }
    }

    /// The ledger with `amount` less staked by `who`. Meaningful when `who`
    /// has at least `amount` staked.
    pub open spec fn with_stake_removed(self, who: u64, amount: u128) -> LedgerView {
        let rec = self.row(who);
        LedgerView {
            total_staked: (self.total_staked - amount) as u128,
            accounts: assoc_write(
                self.accounts,
                who,
                AccountRecord { staked_balance: (rec.staked_balance - amount) as u128, ..rec },
            ),
            ..self
        }
    }

    /// The ledger with `who`'s accrued reward captured and zeroed.
    pub open spec fn with_reward_claimed(self, who: u64) -> LedgerView {
        let rec = self.row(who);
        LedgerView {
            accounts: assoc_write(
                self.accounts,
                who,
                AccountRecord { accrued_reward: 0, ..rec },
            ),
            claimed: self.claimed + rec.accrued_reward,
            ..self
        }
    }

    /// Deposit: settle `who`, then — unless the amount is zero, a no-op by
    /// convention that still advances the accumulator — pull `amount` of the
    /// stake asset from `who` into custody and credit it, all or nothing.
    pub open spec fn stake_result(
        self,
        bank: BankView,
        who: u64,
        amount: u128,
        now: u64,
    ) -> Result<(LedgerView, BankView), Error> {
        match self.settle_result(who, now) {
            Err(e) => Err(e),
            Ok(l) => {
                if amount == 0 {
                    Ok((l, bank))
                } else if l.total_staked + amount > u128::MAX {
                    Err(Error::ArithmeticOverflow)
                } else {
                    match bank.transfer_from_result(who, self.custody, self.custody, amount) {
                        Err(_) => Err(Error::ExternalTransferFailed),
                        Ok(b) => Ok((l.with_stake_added(who, amount), b)),
                    }
                }
            },
        }
    }

    /// Withdrawal: settle `who`, then — unless the amount is zero — debit the
    /// stake and return it from custody to `who`, all or nothing.
    pub open spec fn withdraw_result(
        self,
        bank: BankView,
        who: u64,
        amount: u128,
        now: u64,
    ) -> Result<(LedgerView, BankView), Error> {
        match self.settle_result(who, now) {
            Err(e) => Err(e),
            Ok(l) => {
                if amount == 0 {
                    Ok((l, bank))
                } else if l.row(who).staked_balance < amount {
                    Err(Error::InsufficientBalance)
                } else {
                    match bank.transfer_result(self.custody, who, amount) {
                        Err(_) => Err(Error::ExternalTransferFailed),
                        Ok(b) => Ok((l.with_stake_removed(who, amount), b)),
                    }
                }
            },
        }
    }

    /// Claim: settle `who`, then pay the whole accrued reward out of custody
    /// and zero it, all or nothing. The paid amount is the third component.
    pub open spec fn claim_result(self, bank: BankView, who: u64, now: u64) -> Result<
        (LedgerView, BankView, u128),
        Error,
    > {
        match self.settle_result(who, now) {
            Err(e) => Err(e),
            Ok(l) => {
                let reward = l.row(who).accrued_reward;
                match bank.transfer_result(self.custody, who, reward) {
                    Err(_) => Err(Error::ExternalTransferFailed),
                    Ok(b) => Ok((l.with_reward_claimed(who), b, reward)),
                }
            },
        }
    }
}

// ----------------------------------------------------------------------------
// Facts about the sums.
// ----------------------------------------------------------------------------

pub proof fn lemma_sums_nonneg(rows: Rows)
    ensures
        sum_staked(rows) >= 0,
        sum_accrued(rows) >= 0,
    decreases rows.len(),
{
    if rows.len() > 0 {
        lemma_sums_nonneg(rows.drop_first());
    }
}

pub proof fn lemma_sum_owed_nonneg(rows: Rows, stored: int)
    requires
        forall|i: int| 0 <= i < rows.len() ==> rows[i].1.reward_per_token_paid <= stored,
    ensures
        sum_owed(rows, stored) >= 0,
    decreases rows.len(),
{
    if rows.len() > 0 {
        assert forall|i: int| 0 <= i < rows.drop_first().len() implies rows.drop_first()[i]
            .1.reward_per_token_paid <= stored by {
            assert(rows.drop_first()[i] == rows[i + 1]);
        }
        lemma_sum_owed_nonneg(rows.drop_first(), stored);
        assert(rows[0].1.reward_per_token_paid <= stored);
        lemma_mul_nonnegative(
            rows[0].1.staked_balance as int,
            stored - rows[0].1.reward_per_token_paid,
        );
    }
}

/// How updating one row moves the three sums.
pub proof fn lemma_sums_update(rows: Rows, i: int, x: (u64, AccountRecord), stored: int)
    requires
        0 <= i < rows.len(),
    ensures
        sum_staked(rows.update(i, x)) == sum_staked(rows) - rows[i].1.staked_balance
            + x.1.staked_balance,
        sum_accrued(rows.update(i, x)) == sum_accrued(rows) - rows[i].1.accrued_reward
            + x.1.accrued_reward,
        sum_owed(rows.update(i, x), stored) == sum_owed(rows, stored)
            - rows[i].1.staked_balance * (stored - rows[i].1.reward_per_token_paid)
            + x.1.staked_balance * (stored - x.1.reward_per_token_paid),
    decreases rows.len(),
{
    if i == 0 {
        assert(rows.update(0, x).drop_first() =~= rows.drop_first());
    } else {
        assert(rows.update(i, x)[0] == rows[0]);
        assert(rows.update(i, x).drop_first() =~= rows.drop_first().update(i - 1, x));
        lemma_sums_update(rows.drop_first(), i - 1, x, stored);
        assert(rows.drop_first()[i - 1] == rows[i]);
    }
}

/// How appending one row moves the three sums.
pub proof fn lemma_sums_push(rows: Rows, x: (u64, AccountRecord), stored: int)
    ensures
        sum_staked(rows.push(x)) == sum_staked(rows) + x.1.staked_balance,
        sum_accrued(rows.push(x)) == sum_accrued(rows) + x.1.accrued_reward,
        sum_owed(rows.push(x), stored) == sum_owed(rows, stored)
            + x.1.staked_balance * (stored - x.1.reward_per_token_paid),
    decreases rows.len(),
{
    if rows.len() == 0 {
        assert(rows.push(x).drop_first() =~= rows);
    } else {
        assert(rows.push(x)[0] == rows[0]);
        assert(rows.push(x).drop_first() =~= rows.drop_first().push(x));
        lemma_sums_push(rows.drop_first(), x, stored);
    }
}

/// What writing the row of `who` does to reads, distinctness, the checkpoint
/// bound, and the three sums.
pub proof fn lemma_row_write(rows: Rows, who: u64, rec: AccountRecord, stored: int)
    requires
        assoc_distinct(rows),
    ensures
        assoc_distinct(assoc_write(rows, who, rec)),
        row_of(assoc_write(rows, who, rec), who) == rec,
        forall|k: u64| k != who ==> row_of(assoc_write(rows, who, rec), k) == row_of(rows, k),
        sum_staked(assoc_write(rows, who, rec)) == sum_staked(rows)
            - row_of(rows, who).staked_balance + rec.staked_balance,
        sum_accrued(assoc_write(rows, who, rec)) == sum_accrued(rows)
            - row_of(rows, who).accrued_reward + rec.accrued_reward,
        sum_owed(assoc_write(rows, who, rec), stored) == sum_owed(rows, stored)
            - row_of(rows, who).staked_balance * (stored - row_of(rows, who).reward_per_token_paid)
            + rec.staked_balance * (stored - rec.reward_per_token_paid),
        (forall|i: int| 0 <= i < rows.len() ==> rows[i].1.reward_per_token_paid <= stored)
            && rec.reward_per_token_paid <= stored ==> (forall|i: int|
            0 <= i < assoc_write(rows, who, rec).len() ==> assoc_write(rows, who, rec)[i]
                .1.reward_per_token_paid <= stored),
{
    let w = assoc_write(rows, who, rec);
    lemma_assoc_write(rows, who, rec);
    lemma_assoc_index(rows, who);
    if assoc_has(rows, who) {
        let i = assoc_index(rows, who);
        assert(rows[i].0 == who);
        assert(rows[i].1 == row_of(rows, who));
        assert(rows[i] == (who, row_of(rows, who)));
        lemma_sums_update(rows, i, (who, rec), stored);
        if (forall|j: int| 0 <= j < rows.len() ==> rows[j].1.reward_per_token_paid <= stored)
            && rec.reward_per_token_paid <= stored {
            assert forall|j: int| 0 <= j < w.len() implies w[j].1.reward_per_token_paid
                <= stored by {
                if j != i {
                    assert(w[j] == rows[j]);
                }
            }
        }
    } else {
        assert(row_of(rows, who) == AccountRecord::zero());
        lemma_sums_push(rows, (who, rec), stored);
        if (forall|j: int| 0 <= j < rows.len() ==> rows[j].1.reward_per_token_paid <= stored)
            && rec.reward_per_token_paid <= stored {
            assert forall|j: int| 0 <= j < w.len() implies w[j].1.reward_per_token_paid
                <= stored by {
                if j < rows.len() {
                    assert(w[j] == rows[j]);
                } else {
                    assert(w[j] == (who, rec));
                }
            }
        }
    }
}

/// Re-measuring the owed reward against another accumulator value.
pub proof fn lemma_sum_owed_shift(rows: Rows, v1: int, v2: int)
    ensures
        sum_owed(rows, v2) == sum_owed(rows, v1) + (v2 - v1) * sum_staked(rows),
    decreases rows.len(),
{
    if rows.len() == 0 {
        assert((v2 - v1) * 0 == 0) by (nonlinear_arith);
    } else {
        lemma_sum_owed_shift(rows.drop_first(), v1, v2);
        let b = rows[0].1.staked_balance as int;
        let p = rows[0].1.reward_per_token_paid as int;
        let rest = sum_staked(rows.drop_first());
        assert(b * (v2 - p) == b * (v1 - p) + (v2 - v1) * b) by (nonlinear_arith);
        assert((v2 - v1) * (b + rest) == (v2 - v1) * b + (v2 - v1) * rest) by (nonlinear_arith);
    }
}

/// A prefix never stakes more than the whole.
pub proof fn lemma_sum_staked_take_le(rows: Rows, k: int)
    requires
        0 <= k <= rows.len(),
    ensures
        sum_staked(rows.take(k)) <= sum_staked(rows),
    decreases rows.len() - k,
{
    if k == rows.len() {
        assert(rows.take(k) =~= rows);
    } else {
        assert(rows.take(k + 1) =~= rows.take(k).push(rows[k]));
        lemma_sums_push(rows.take(k), rows[k], 0);
        lemma_sum_staked_take_le(rows, k + 1);
    }
}

/// In a well-formed ledger no checkpoint — read with the zero default — is
/// ahead of the accumulator.
pub proof fn lemma_row_paid_bound(v: LedgerView, who: u64)
    requires
        v.wf(),
    ensures
        v.row(who).reward_per_token_paid <= v.reward_per_token_stored,
{
    lemma_assoc_index(v.accounts, who);
    if assoc_has(v.accounts, who) {
        assert(v.accounts[assoc_index(v.accounts, who)].1.reward_per_token_paid
            <= v.reward_per_token_stored);
    }
}

// ----------------------------------------------------------------------------
// The transitions preserve well-formedness.
// ----------------------------------------------------------------------------

/// Advancing the accumulator never decreases it, and never distributes more
/// than was emitted.
pub proof fn lemma_advanced_wf(v: LedgerView, now: u64)
    requires
        v.wf(),
        v.rpt_result(now) is Ok,
    ensures
        v.advanced(now).wf(),
        v.advanced(now).reward_per_token_stored >= v.reward_per_token_stored,
        v.total_staked == 0 ==> v.advanced(now).reward_per_token_stored
            == v.reward_per_token_stored,
        v.advanced(now).reward_per_token_stored == v.rpt_result(now).unwrap(),
{
    let stored = v.reward_per_token_stored as int;
    let adv = v.advanced(now);
    if v.total_staked == 0 {
        lemma_sum_owed_shift(v.accounts, stored, adv.reward_per_token_stored as int);
    } else {
        let total = v.total_staked as int;
        let emitted = v.reward_rate * (now - v.last_update_time);
        let per = emitted / total;
        lemma_mul_nonnegative(v.reward_rate as int, now - v.last_update_time);
        lemma_div_pos_is_pos(emitted, total);
        assert(adv.reward_per_token_stored == stored + per);
        lemma_sum_owed_shift(v.accounts, stored, stored + per);
        lemma_fundamental_div_mod(emitted, total);
        lemma_mod_bound(emitted, total);
        assert(per * sum_staked(v.accounts) == total * per) by (nonlinear_arith)
            requires
                sum_staked(v.accounts) == total,
        ;
        assert(sum_owed(v.accounts, stored + per) <= sum_owed(v.accounts, stored) + emitted);
    }
}

/// Settlement preserves well-formedness; it moves value from "owed" to
/// "accrued" without creating any.
pub proof fn lemma_settled_wf(v: LedgerView, who: u64, now: u64)
    requires
        v.wf(),
        v.settle_ok(who, now),
    ensures
        v.settled(who, now).wf(),
        v.settled(who, now).reward_rate == v.reward_rate,
        v.settled(who, now).total_staked == v.total_staked,
        v.settled(who, now).custody == v.custody,
        v.settled(who, now).claimed == v.claimed,
        v.settled(who, now).last_update_time == now,
        v.settled(who, now).reward_per_token_stored == v.rpt_result(now).unwrap(),
        v.settled(who, now).reward_per_token_stored >= v.reward_per_token_stored,
        v.total_staked == 0 ==> v.settled(who, now).reward_per_token_stored
            == v.reward_per_token_stored,
        v.settled(who, now).row(who) == v.settled_record(who, now),
        v.settled(who, now).row(who).reward_per_token_paid == v.settled(
            who,
            now,
        ).reward_per_token_stored,
        v.settled(who, now).row(who).staked_balance == v.row(who).staked_balance,
        forall|k: u64| k != who ==> v.settled(who, now).row(k) == v.row(k),
{
    lemma_advanced_wf(v, now);
    let adv = v.advanced(now);
    let rpt = v.rpt_result(now).unwrap();
    let rec = v.row(who);
    let rec1 = v.settled_record(who, now);
    // The checkpoint of `who` is not ahead of the advanced accumulator.
    lemma_assoc_index(v.accounts, who);
    assert(rec.reward_per_token_paid <= rpt);
    let inc = rec.staked_balance * (rpt - rec.reward_per_token_paid);
    lemma_mul_nonnegative(rec.staked_balance as int, rpt - rec.reward_per_token_paid);
    lemma_row_write(adv.accounts, who, rec1, rpt as int);
    assert(rec1.staked_balance * ((rpt as int) - rec1.reward_per_token_paid) == 0)
        by (nonlinear_arith)
        requires
            rec1.reward_per_token_paid == rpt,
    ;
    assert(sum_owed(v.settled(who, now).accounts, rpt as int) == sum_owed(adv.accounts, rpt as int)
        - inc);
    assert(sum_accrued(v.settled(who, now).accounts) == sum_accrued(adv.accounts) + inc);
}

/// Crediting freshly settled stake moves the staked sum with the total and
/// leaves the owed reward unchanged.
pub proof fn lemma_stake_op_wf(l: LedgerView, who: u64, amount: u128)
    requires
        l.wf(),
        l.row(who).reward_per_token_paid == l.reward_per_token_stored,
        l.total_staked + amount <= u128::MAX,
    ensures
        l.row(who).staked_balance + amount <= u128::MAX,
        l.with_stake_added(who, amount).wf(),
        l.with_stake_added(who, amount).total_staked == l.total_staked + amount,
        l.with_stake_added(who, amount).row(who) == (AccountRecord {
            staked_balance: (l.row(who).staked_balance + amount) as u128,
            ..l.row(who)
        }),
        forall|k: u64| k != who ==> l.with_stake_added(who, amount).row(k) == l.row(k),
        l.with_stake_added(who, amount) == (LedgerView {
            total_staked: l.with_stake_added(who, amount).total_staked,
            accounts: l.with_stake_added(who, amount).accounts,
            ..l
        }),
{
    lemma_row_le_sum_staked(l.accounts, who);
    lemma_sums_nonneg(l.accounts);
    let rec = l.row(who);
    let rec1 = AccountRecord { staked_balance: (rec.staked_balance + amount) as u128, ..rec };
    let stored = l.reward_per_token_stored as int;
    lemma_row_write(l.accounts, who, rec1, stored);
    assert(rec.staked_balance * (stored - rec.reward_per_token_paid) == 0) by (nonlinear_arith)
        requires
            rec.reward_per_token_paid == stored,
    ;
    assert(rec1.staked_balance * (stored - rec1.reward_per_token_paid) == 0) by (nonlinear_arith)
        requires
            rec1.reward_per_token_paid == stored,
    ;
}

/// Debiting freshly settled stake moves the staked sum with the total and
/// leaves the owed reward unchanged.
pub proof fn lemma_withdraw_op_wf(l: LedgerView, who: u64, amount: u128)
    requires
        l.wf(),
        l.row(who).reward_per_token_paid == l.reward_per_token_stored,
        l.row(who).staked_balance >= amount,
    ensures
        l.total_staked >= amount,
        l.with_stake_removed(who, amount).wf(),
        l.with_stake_removed(who, amount).total_staked == l.total_staked - amount,
        l.with_stake_removed(who, amount).row(who) == (AccountRecord {
            staked_balance: (l.row(who).staked_balance - amount) as u128,
            ..l.row(who)
        }),
        forall|k: u64| k != who ==> l.with_stake_removed(who, amount).row(k) == l.row(k),
        l.with_stake_removed(who, amount) == (LedgerView {
            total_staked: l.with_stake_removed(who, amount).total_staked,
            accounts: l.with_stake_removed(who, amount).accounts,
            ..l
        }),
{
    lemma_row_le_sum_staked(l.accounts, who);
    lemma_sums_nonneg(l.accounts);
    let rec = l.row(who);
    let rec1 = AccountRecord { staked_balance: (rec.staked_balance - amount) as u128, ..rec };
    let stored = l.reward_per_token_stored as int;
    lemma_row_write(l.accounts, who, rec1, stored);
    assert(rec.staked_balance * (stored - rec.reward_per_token_paid) == 0) by (nonlinear_arith)
        requires
            rec.reward_per_token_paid == stored,
    ;
    assert(rec1.staked_balance * (stored - rec1.reward_per_token_paid) == 0) by (nonlinear_arith)
        requires
            rec1.reward_per_token_paid == stored,
    ;
}

/// Zeroing a claimed reward moves value from "accrued" to "claimed" without
/// creating any.
pub proof fn lemma_claim_op_wf(l: LedgerView, who: u64)
    requires
        l.wf(),
    ensures
        l.with_reward_claimed(who).wf(),
        l.with_reward_claimed(who).claimed == l.claimed + l.row(who).accrued_reward,
        l.with_reward_claimed(who).row(who) == (AccountRecord { accrued_reward: 0, ..l.row(who) }),
        forall|k: u64| k != who ==> l.with_reward_claimed(who).row(k) == l.row(k),
        l.with_reward_claimed(who) == (LedgerView {
            claimed: l.with_reward_claimed(who).claimed,
            accounts: l.with_reward_claimed(who).accounts,
            ..l
        }),
{
    let rec = l.row(who);
    let rec1 = AccountRecord { accrued_reward: 0, ..rec };
    let stored = l.reward_per_token_stored as int;
    lemma_assoc_index(l.accounts, who);
    if assoc_has(l.accounts, who) {
        assert(l.accounts[assoc_index(l.accounts, who)].1.reward_per_token_paid <= stored);
    }
    lemma_row_write(l.accounts, who, rec1, stored);
}

/// No single row stakes more than all rows together.
pub proof fn lemma_row_le_sum_staked(rows: Rows, who: u64)
    ensures
        row_of(rows, who).staked_balance <= sum_staked(rows),
    decreases rows.len(),
{
    lemma_sums_nonneg(rows);
    if rows.len() == 0 {
    } else if rows[0].0 == who {
        lemma_sums_nonneg(rows.drop_first());
    } else {
        lemma_row_le_sum_staked(rows.drop_first(), who);
        lemma_assoc_index(rows, who);
        lemma_assoc_index(rows.drop_first(), who);
        if assoc_has(rows, who) {
            assert(rows[assoc_index(rows, who)]
                == rows.drop_first()[assoc_index(rows.drop_first(), who)]);
        }
    }
}

} // verus!
