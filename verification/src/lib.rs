//! A fungible token ledger coupled with a vesting engine.
//!
//! The token ledger owns balances and supply and enforces admin-only
//! minting, an optional supply ceiling, and non-negative balances. The
//! vesting engine locks tokens held under its own identity and releases
//! them along cliff-plus-linear schedules measured in ledger sequence
//! numbers, with admin-controlled revocation.
//!
//! Identities are plain 64-bit values standing for addresses on the host
//! ledger; the host runtime (storage, authorization proofs, the ledger
//! clock) stays outside this crate and hands every operation the
//! authenticated caller and the current ledger sequence as arguments.

mod errors;
mod token;
mod vesting;

pub use errors::Error;
pub use token::Balance;
pub use token::TokenContract;
pub use vesting::VestingContract;
pub use vesting::VestingSchedule;
