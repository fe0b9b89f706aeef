//! A verified stand-in for the external fungible-token collaborator.
//!
//! The staking operations move the stake and reward assets through a narrow
//! transfer / transfer-from interface of an external token. This module gives
//! that interface an exact meaning — balances, allowances, and the two
//! transfer calls with their failure cases — so that the operations composed
//! with it can be verified and tested deterministically, as an injected
//! dependency rather than an ambient service.

use vstd::prelude::*;

use crate::assoc::{
    assoc_distinct, assoc_read, assoc_write, lemma_assoc_write, pair_distinct, pair_read,
    pair_write, lemma_pair_write, assoc_get, assoc_set, pair_get, pair_set,
};

verus! {

/// A failure reported by the token collaborator.
#[derive(Clone, Copy, Debug, PartialEq, Eq, Structural)]
pub enum TokenError {
    /// The sender's balance is smaller than the transfer amount.
    InsufficientFunds,
    /// The spender's approved allowance is smaller than the transfer amount.
    InsufficientAllowance,
    /// A balance would overflow.
    Overflow,
}

/// Mathematical content of a [`TokenBank`].
#[verifier::ext_equal]
pub struct BankView {
    /// Balance held by each account.
    pub balances: Seq<(u64, u128)>,
    /// Amount each `(owner, spender)` pair has approved, spendable by
    /// `transfer_from`.
    pub allowances: Seq<((u64, u64), u128)>,
}

impl BankView {
    /// The balance of `who`, zero when never written.
    pub open spec fn bal_of(self, who: u64) -> u128 {
        match assoc_read(self.balances, who) {
            Some(b) => b,
            None => 0,
        }
    }

    /// The allowance `owner` has granted `spender`, zero when never written.
    pub open spec fn allowance_of(self, owner: u64, spender: u64) -> u128 {
        match pair_read(self.allowances, (owner, spender)) {
            Some(a) => a,
            None => 0,
        }
    }

    pub open spec fn wf(self) -> bool {
        &&& assoc_distinct(self.balances)
        &&& pair_distinct(self.allowances)
    }

    /// Moving `amount` from `from` to `to`: fails, changing nothing, when
    /// `from` cannot cover it or `to`'s balance would overflow.
    pub open spec fn transfer_result(self, from: u64, to: u64, amount: u128) -> Result<
        BankView,
        TokenError,
    > {
        if self.bal_of(from) < amount {
            Err(TokenError::InsufficientFunds)
        } else {
            let debited = BankView {
                balances: assoc_write(
                    self.balances,
                    from,
                    (self.bal_of(from) - amount) as u128,
                ),
                ..self
            };
            if debited.bal_of(to) + amount > u128::MAX {
                Err(TokenError::Overflow)
            } else {
                Ok(
                    BankView {
                        balances: assoc_write(
                            debited.balances,
                            to,
                            (debited.bal_of(to) + amount) as u128,
                        ),
                        ..self
                    },
                )
            }
        }
    }

    /// Moving `amount` from `owner` to `to` on the strength of `owner`'s prior
    /// approval of `spender`, which is reduced by the amount moved.
    pub open spec fn transfer_from_result(
        self,
        owner: u64,
        spender: u64,
        to: u64,
        amount: u128,
    ) -> Result<BankView, TokenError> {
        if self.allowance_of(owner, spender) < amount {
            Err(TokenError::InsufficientAllowance)
        } else {
            match self.transfer_result(owner, to, amount) {
                Err(e) => Err(e),
                Ok(moved) => Ok(
                    BankView {
                        allowances: pair_write(
                            moved.allowances,
                            (owner, spender),
                            (self.allowance_of(owner, spender) - amount) as u128,
                        ),
                        ..moved
                    },
                ),
            }
        }
    }

    /// Setting the allowance of `(owner, spender)` outright.
    pub open spec fn approved(self, owner: u64, spender: u64, amount: u128) -> BankView {
        BankView { allowances: pair_write(self.allowances, (owner, spender), amount), ..self }
    }

    /// Creating `amount` new units on `to`'s balance.
    pub open spec fn mint_result(self, to: u64, amount: u128) -> Result<BankView, TokenError> {
        if self.bal_of(to) + amount > u128::MAX {
            Err(TokenError::Overflow)
        } else {
            Ok(
                BankView {
                    balances: assoc_write(self.balances, to, (self.bal_of(to) + amount) as u128),
                    ..self
                },
            )
        }
    }
}

/// An in-memory fungible token: one balance per account, one allowance per
/// `(owner, spender)` pair, moved only by the operations below, each of which
/// either applies in full or fails changing nothing.
pub struct TokenBank {
    balances: Vec<(u64, u128)>,
    allowances: Vec<((u64, u64), u128)>,
}

impl View for TokenBank {
    type V = BankView;

    closed spec fn view(&self) -> BankView {
        BankView { balances: self.balances@, allowances: self.allowances@ }
    }
}

impl TokenBank {
    /// A token with no balances and no allowances.
    pub fn new() -> (bank: TokenBank)
        ensures
            bank@ == (BankView { balances: Seq::empty(), allowances: Seq::empty() }),
            bank@.wf(),
    {
        TokenBank { balances: Vec::new(), allowances: Vec::new() }
    }

    /// The balance of `who`.
    pub fn balance_of(&self, who: u64) -> (r: u128)
        ensures
            r == self@.bal_of(who),
    {
        match assoc_get(&self.balances, who) {
            Some(b) => b,
            None => 0,
        }
    }

    /// The allowance `owner` has granted `spender`.
    pub fn allowance(&self, owner: u64, spender: u64) -> (r: u128)
        ensures
            r == self@.allowance_of(owner, spender),
    {
        match pair_get(&self.allowances, (owner, spender)) {
            Some(a) => a,
            None => 0,
        }
    }

    /// Create `amount` new units on `to`'s balance.
    pub fn mint(&mut self, to: u64, amount: u128) -> (r: Result<(), TokenError>)
        requires
            old(self)@.wf(),
        ensures
            final(self)@.wf(),
            match old(self)@.mint_result(to, amount) {
                Ok(b) => r == Ok::<(), TokenError>(()) && final(self)@ == b,
                Err(e) => r == Err::<(), TokenError>(e) && final(self)@ == old(self)@,
            },
    {
        let bal: u128 = self.balance_of(to);
        match bal.checked_add(amount) {
            None => Err(TokenError::Overflow),
            Some(new_bal) => {
                assoc_set(&mut self.balances, to, new_bal);
                proof {
                    lemma_assoc_write(old(self)@.balances, to, new_bal);
                }
                Ok(())
            },
        }
    }

    /// Set the allowance of `(owner, spender)` to `amount`.
    pub fn approve(&mut self, owner: u64, spender: u64, amount: u128)
        requires
            old(self)@.wf(),
        ensures
            final(self)@.wf(),
            final(self)@ == old(self)@.approved(owner, spender, amount),
    {
        pair_set(&mut self.allowances, (owner, spender), amount);
        proof {
            lemma_pair_write(old(self)@.allowances, (owner, spender), amount);
        }
    }

    /// Move `amount` from `from` to `to`. Fails, changing nothing, when
    /// `from` cannot cover it or `to`'s balance would overflow.
    pub fn transfer(&mut self, from: u64, to: u64, amount: u128) -> (r: Result<(), TokenError>)
        requires
            old(self)@.wf(),
        ensures
            final(self)@.wf(),
            match old(self)@.transfer_result(from, to, amount) {
                Ok(b) => r == Ok::<(), TokenError>(()) && final(self)@ == b,
                Err(e) => r == Err::<(), TokenError>(e) && final(self)@ == old(self)@,
            },
    {
        let from_bal: u128 = self.balance_of(from);
        if from_bal < amount {
            return Err(TokenError::InsufficientFunds);
        }
        let debited_from: u128 = from_bal - amount;
        // The recipient's balance once the sender is debited, computed before
        // any write so that a failure changes nothing.
        let to_bal: u128 = if to == from {
            debited_from
        } else {
            self.balance_of(to)
        };
        proof {
            lemma_assoc_write(old(self)@.balances, from, debited_from);
        }
        match to_bal.checked_add(amount) {
            None => Err(TokenError::Overflow),
            Some(new_to_bal) => {
                assoc_set(&mut self.balances, from, debited_from);
                proof {
                    lemma_assoc_write(self@.balances, to, new_to_bal);
                }
                assoc_set(&mut self.balances, to, new_to_bal);
                Ok(())
            },
        }
    }

    /// Move `amount` from `owner` to `to` against `owner`'s prior approval of
    /// `spender`, reducing the allowance by the amount moved.
    pub fn transfer_from(&mut self, owner: u64, spender: u64, to: u64, amount: u128) -> (r: Result<
        (),
        TokenError,
    >)
        requires
            old(self)@.wf(),
        ensures
            final(self)@.wf(),
            match old(self)@.transfer_from_result(owner, spender, to, amount) {
                Ok(b) => r == Ok::<(), TokenError>(()) && final(self)@ == b,
                Err(e) => r == Err::<(), TokenError>(e) && final(self)@ == old(self)@,
            },
    {
        let allowed: u128 = self.allowance(owner, spender);
        if allowed < amount {
            return Err(TokenError::InsufficientAllowance);
        }
        match self.transfer(owner, to, amount) {
            Err(e) => Err(e),
            Ok(()) => {
                proof {
                    lemma_pair_write(
                        self@.allowances,
                        (owner, spender),
                        (allowed - amount) as u128,
                    );
                }
                pair_set(&mut self.allowances, (owner, spender), allowed - amount);
                Ok(())
            },
        }
    }
}

} // verus!
