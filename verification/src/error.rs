//! The ledger's error taxonomy.

use vstd::prelude::*;

verus! {

/// Why a ledger operation was refused.
///
/// Every mutating operation validates all of its preconditions before
/// touching any state, so an error always comes with the state unchanged.
/// None of these conditions is fatal to the ledger instance itself.
#[derive(Clone, Copy, PartialEq, Eq, Structural, Debug)]
pub enum LedgerError {
    /// A transfer or approval would move more than the source account holds.
    InsufficientBalance,
    /// A delegated transfer exceeds the remaining granted allowance.
    InsufficientAllowance,
    /// The referenced token id was never minted, or was already burned.
    NotFound,
    /// The caller is not the current holder of the referenced token.
    NotOwner,
    /// The caller is not the account approved to move the referenced token.
    NotApproved,
}

} // verus!
