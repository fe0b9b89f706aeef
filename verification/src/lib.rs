//! A reward-accrual ledger for a token-staking program.
//!
//! Participants deposit a stake asset and, in proportion to the amount and
//! duration staked, accrue a separate reward asset at a configurable emission
//! rate. The core is the accrual algorithm: a running per-unit-stake reward
//! accumulator, per-account checkpointing, and the three state-mutating
//! operations (stake, withdraw, get_reward) that stay consistent under
//! arbitrary interleavings of other accounts' actions and the passage of
//! time, using only checked integer arithmetic.

pub mod assoc;
pub mod errors;
pub mod laws;
pub mod ledger;
pub mod model;
pub mod token;

pub use errors::Error;
pub use ledger::StakingLedger;
pub use token::TokenBank;
