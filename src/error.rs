//! Failures of ledger operations.
use vstd::prelude::*;

verus! {

/// Why a ledger operation was refused; every one aborts the operation and
/// leaves the ledger as it was.
#[derive(Clone, Copy, Debug, PartialEq, Eq, Structural)]
pub enum LedgerError {
    /// Issuing the amount would take the issued total past the cap.
    SupplyExceeded,
    /// The provenance tag is not among the allowed ones.
    InvalidSource,
    /// Key material could not be made or could not sign.
    SigningError,
    /// No token record is stored under the identifier.
    NotFound,
    /// The record is owned by someone other than the sender.
    NotOwner,
    /// The record holds less than the amount asked for.
    InsufficientBalance,
    /// The arithmetic result does not fit in 64 bits.
    ArithmeticOverflow,
    /// The caller is not the identity the operation acts for.
    Unauthenticated,
}

} // verus!
