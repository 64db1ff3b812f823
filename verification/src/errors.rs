use vstd::prelude::*;

verus! {

/// Failure codes surfaced by the token ledger and the vesting engine.
/// Every failed operation returns one of these and leaves all state
/// unchanged; there is no partial commit.
#[derive(Clone, Copy, Debug, PartialEq, Eq, Structural)]
pub enum Error {
    /// A configuration record already exists; `initialize` ran twice.
    AlreadyInitialized,
    /// The caller is not the party the operation requires.
    Unauthorized,
    /// A mint, burn, transfer or schedule amount was not positive.
    InvalidAmount,
    /// The initial supply was negative or above the configured ceiling.
    InvalidSupply,
    /// A schedule's end ledger lay before its cliff ledger.
    InvalidSchedule,
    /// Minting would push the total supply past the configured ceiling.
    SupplyCeilingExceeded,
    /// The addition would leave the signed 128-bit range.
    ArithmeticOverflow,
    /// A debit asked for more than the holder's balance.
    InsufficientBalance,
    /// No vesting schedule is stored for the recipient.
    NoSchedule,
    /// A vesting schedule is already stored for the recipient.
    ScheduleExists,
    /// The schedule was already revoked.
    AlreadyRevoked,
}

} // verus!
