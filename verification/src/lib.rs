//! An account-based token ledger engine.
//!
//! Two sibling state machines share the same account and amount primitives:
//! a fungible ledger (total supply, per-account balances, delegated spending
//! allowances) and a non-fungible ledger (unique-id ownership registry,
//! per-token approvals, mint and burn).  Every operation takes the
//! authenticated caller identity as an explicit argument, validates all of
//! its preconditions against the current state, and either applies its whole
//! effect or leaves the state untouched.  Successful mutating operations
//! return the event record describing the transition, for the host to
//! forward to whatever sink observes the ledger.

pub mod account;
pub mod error;
pub mod fungible;
pub mod nonfungible;

mod allowances;
mod balances;
mod tokens;
