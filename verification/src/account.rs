//! Account identity.

use vstd::prelude::*;

verus! {

/// An opaque, equality-comparable account identity.
///
/// The ledger never interprets the value: it is the identity that the host
/// environment asserts is performing an operation, and the ledger trusts it
/// completely.  Only equality of identities matters to the ledger's rules.
#[derive(Clone, Copy, PartialEq, Eq, Structural, Debug)]
pub struct AccountId(pub u128);

impl AccountId {
    /// Wraps a raw identity value.
    pub fn new(raw: u128) -> (a: AccountId)
        ensures
            a.0 == raw,
    {
        AccountId(raw)
    }
}

} // verus!
