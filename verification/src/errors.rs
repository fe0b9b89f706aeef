use vstd::prelude::*;

verus! {

/// A failure of a staking operation. Every failure aborts the enclosing
/// operation atomically: no partial mutation of the ledger persists.
#[derive(Clone, Copy, Debug, PartialEq, Eq, Structural)]
pub enum Error {
    /// A checked addition or multiplication overflowed.
    ArithmeticOverflow,
    /// A withdrawal asked for more than the recorded staked balance.
    InsufficientBalance,
    /// The external token collaborator rejected a transfer.
    ExternalTransferFailed,
    /// The observed time is less than the stored last update time.
    ClockRegression,
}

} // verus!
