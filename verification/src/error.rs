//! Typed failures of the settlement engine.

use vstd::prelude::*;

verus! {

/// Everything that can go wrong in an escrow operation. Callers receive the
/// specific kind, never a generic fault, so client code can branch on
/// "already settled" versus "not authorized" versus "unknown escrow".
#[derive(Clone, Copy, Debug, PartialEq, Eq, Structural)]
pub enum ContractError {
    /// The operation referenced an unknown escrow id.
    NotFound,
    /// A create collided with an existing id.
    AlreadyInUse,
    /// A funding or top-up credit carried only zero amounts.
    EmptyBalance,
    /// The operation was attempted on a settled (non-`Opened`) escrow.
    Locked,
    /// A tokenized top-up asset is not admitted by the whitelist.
    NotInWhitelist,
    /// The caller is not in the escrow's validator set.
    Unauthorized,
}

} // verus!
