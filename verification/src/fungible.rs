//! The fungible ledger: total supply, balances, and spending allowances.
//!
//! The ledger is a single-writer state machine over two maps.  Every
//! operation takes the authenticated caller identity as an explicit
//! argument, validates its preconditions against the current state, and
//! either applies its whole effect or returns an error with the state
//! untouched.  The total supply is fixed at construction and conserved by
//! every operation: the sum of all balances always equals it.

use vstd::prelude::*;

verus! {

use crate::account::AccountId;
use crate::allowances::alw_distinct;
use crate::allowances::alw_read;
use crate::allowances::alw_value;
use crate::allowances::alw_write;
use crate::balances::bal_distinct;
use crate::balances::bal_read;
use crate::balances::bal_total;
use crate::balances::bal_value;
use crate::balances::bal_write;
use crate::balances::lemma_bal_value_le_total;
use crate::error::LedgerError;

/// The event emitted once for every successful `transfer` or
/// `transfer_from`: `amount` moved from `from` to `to`.
#[derive(Clone, Copy, PartialEq, Eq, Structural, Debug)]
pub struct Transfer {
    pub from: AccountId,
    pub to: AccountId,
    pub amount: u32,
}

/// The event emitted once for every successful `allow`: `from` granted
/// `spender` the right to move up to `amount` of its balance.
#[derive(Clone, Copy, PartialEq, Eq, Structural, Debug)]
pub struct Allowance {
    pub from: AccountId,
    pub spender: AccountId,
    pub amount: u32,
}

/// An account-based fungible token ledger.
pub struct FungibleLedger {
    total_supply: u32,
    balances: Vec<(AccountId, u32)>,
    allowances: Vec<(AccountId, AccountId, u32)>,
}

impl FungibleLedger {
    /// The fixed total supply.
    pub closed spec fn spec_total_supply(self) -> u32 {
        self.total_supply
    }

    /// The balance of `a`; unknown accounts hold zero.
    pub closed spec fn spec_balance(self, a: AccountId) -> u32 {
        bal_value(self.balances@, a)
    }

    /// The allowance granted by `owner` to `spender`; unset pairs read as
    /// zero.
    pub closed spec fn spec_allowance(self, owner: AccountId, spender: AccountId) -> u32 {
        alw_value(self.allowances@, owner, spender)
    }

    /// The sum of all recorded balances.
    pub closed spec fn spec_balance_total(self) -> int {
        bal_total(self.balances@)
    }

    /// The ledger's invariant: both maps hold each key at most once, and
    /// the balances sum to the total supply.
    pub closed spec fn wf(self) -> bool {
        &&& bal_distinct(self.balances@)
        &&& alw_distinct(self.allowances@)
        &&& bal_total(self.balances@) == self.total_supply
    }

    /// Creates the ledger, crediting the entire supply to the constructing
    /// caller.  There is no failure path.
    pub fn new(caller: AccountId, total_supply: u32) -> (ledger: FungibleLedger)
        ensures
            ledger.wf(),
            ledger.spec_total_supply() == total_supply,
            forall|a: AccountId|
                ledger.spec_balance(a) == (if a == caller {
                    total_supply
                } else {
                    0u32
                }),
            forall|o: AccountId, p: AccountId| ledger.spec_allowance(o, p) == 0u32,
    {
        let mut balances: Vec<(AccountId, u32)> = Vec::new();
        balances.push((caller, total_supply));
        let allowances: Vec<(AccountId, AccountId, u32)> = Vec::new();
        let ledger = FungibleLedger { total_supply, balances, allowances };
        proof {
            let s = ledger.balances@;
            assert forall|a: AccountId|
                ledger.spec_balance(a) == (if a == caller {
                    total_supply
                } else {
                    0u32
                }) by {
                if a != caller {
                    assert(crate::balances::bal_entry_from(s, a, 1) is None);
                }
            }
            assert(crate::balances::bal_total_from(s, 1) == 0);
        }
        ledger
    }

    /// The fixed total supply.
    pub fn total_supply(&self) -> (r: u32)
        ensures
            r == self.spec_total_supply(),
    {
        self.total_supply
    }

    /// The balance of `of`; unknown accounts hold zero.  Never fails.
    pub fn get_balance(&self, of: AccountId) -> (r: u32)
        ensures
            r == self.spec_balance(of),
    {
        bal_read(&self.balances, of)
    }

    /// The calling account's own balance.
    pub fn get_my_balance(&self, caller: AccountId) -> (r: u32)
        ensures
            r == self.spec_balance(caller),
    {
        bal_read(&self.balances, caller)
    }

    /// The allowance granted by `from` to the calling account.
    pub fn allowance(&self, from: AccountId, caller: AccountId) -> (r: u32)
        ensures
            r == self.spec_allowance(from, caller),
    {
        alw_read(&self.allowances, from, caller)
    }

    /// The allowance granted by `from` to `spender`; unset pairs read as
    /// zero.  Never fails.
    pub fn allowance_of(&self, from: AccountId, spender: AccountId) -> (r: u32)
        ensures
            r == self.spec_allowance(from, spender),
    {
        alw_read(&self.allowances, from, spender)
    }

    /// Grants `spender` the right to move up to `amount` out of the
    /// caller's balance.  The grant is capped by the caller's balance at
    /// approval time (a policy choice: it is not validated again at spend
    /// time).  A caller holding less than `amount` is refused, with no
    /// state change.  The returned event is the one to forward to the
    /// host's sink.
    pub fn allow(&mut self, caller: AccountId, spender: AccountId, amount: u32) -> (r: Result<
        Allowance,
        LedgerError,
    >)
        requires
            old(self).wf(),
        ensures
            final(self).wf(),
            final(self).spec_total_supply() == old(self).spec_total_supply(),
            old(self).spec_balance(caller) < amount ==> r == Err::<Allowance, LedgerError>(
                LedgerError::InsufficientBalance,
            ) && *final(self) == *old(self),
            old(self).spec_balance(caller) >= amount ==> r == Ok::<Allowance, LedgerError>(
                Allowance { from: caller, spender, amount },
            ),
            old(self).spec_balance(caller) >= amount ==> forall|o: AccountId, p: AccountId|
                final(self).spec_allowance(o, p) == (if o == caller && p == spender {
                    amount
                } else {
                    old(self).spec_allowance(o, p)
                }),
            old(self).spec_balance(caller) >= amount ==> forall|a: AccountId|
                final(self).spec_balance(a) == old(self).spec_balance(a),
    {
        let balance_of_caller = bal_read(&self.balances, caller);
        if balance_of_caller < amount {
            return Err(LedgerError::InsufficientBalance);
        }
        alw_write(&mut self.allowances, caller, spender, amount);
        Ok(Allowance { from: caller, spender, amount })
    }

    /// Moves `amount` from the caller's balance to `to`.  A caller holding
    /// less than `amount` is refused, with no state change.  A
    /// self-transfer succeeds, changes nothing, and still yields its event.
    pub fn transfer(&mut self, caller: AccountId, to: AccountId, amount: u32) -> (r: Result<
        Transfer,
        LedgerError,
    >)
        requires
            old(self).wf(),
        ensures
            final(self).wf(),
            final(self).spec_total_supply() == old(self).spec_total_supply(),
            old(self).spec_balance(caller) < amount ==> r == Err::<Transfer, LedgerError>(
                LedgerError::InsufficientBalance,
            ) && *final(self) == *old(self),
            old(self).spec_balance(caller) >= amount ==> r == Ok::<Transfer, LedgerError>(
                Transfer { from: caller, to, amount },
            ),
            old(self).spec_balance(caller) >= amount ==> forall|a: AccountId|
                final(self).spec_balance(a) as int == (if caller == to {
                    old(self).spec_balance(a) as int
                } else if a == caller {
                    old(self).spec_balance(caller) - amount
                } else if a == to {
                    old(self).spec_balance(to) + amount
                } else {
                    old(self).spec_balance(a) as int
                }),
            old(self).spec_balance(caller) >= amount ==> forall|o: AccountId, p: AccountId|
                final(self).spec_allowance(o, p) == old(self).spec_allowance(o, p),
    {
        let balance_of_caller = bal_read(&self.balances, caller);
        if balance_of_caller < amount {
            return Err(LedgerError::InsufficientBalance);
        }
        bal_write(&mut self.balances, caller, balance_of_caller - amount);
        let balance_of_receiver = bal_read(&self.balances, to);
        proof {
            lemma_bal_value_le_total(self.balances@, to);
        }
        bal_write(&mut self.balances, to, balance_of_receiver + amount);
        Ok(Transfer { from: caller, to, amount })
    }

    /// Moves `amount` from `from` to `to` on the strength of the allowance
    /// `from` granted to the caller.  The allowance is checked before
    /// anything else; a grant below `amount` is refused with
    /// `InsufficientAllowance`, and a source balance below `amount` with
    /// `InsufficientBalance`, in both cases with no state change.  On
    /// success the allowance is reduced by `amount` and the event names
    /// `from`, not the caller, as the source.
    pub fn transfer_from(
        &mut self,
        caller: AccountId,
        from: AccountId,
        to: AccountId,
        amount: u32,
    ) -> (r: Result<Transfer, LedgerError>)
        requires
            old(self).wf(),
        ensures
            final(self).wf(),
            final(self).spec_total_supply() == old(self).spec_total_supply(),
            old(self).spec_allowance(from, caller) < amount ==> r == Err::<Transfer, LedgerError>(
                LedgerError::InsufficientAllowance,
            ) && *final(self) == *old(self),
            old(self).spec_allowance(from, caller) >= amount && old(self).spec_balance(from)
                < amount ==> r == Err::<Transfer, LedgerError>(LedgerError::InsufficientBalance)
                && *final(self) == *old(self),
            old(self).spec_allowance(from, caller) >= amount && old(self).spec_balance(from)
                >= amount ==> r == Ok::<Transfer, LedgerError>(Transfer { from, to, amount }),
            old(self).spec_allowance(from, caller) >= amount && old(self).spec_balance(from)
                >= amount ==> forall|a: AccountId|
                final(self).spec_balance(a) as int == (if from == to {
                    old(self).spec_balance(a) as int
                } else if a == from {
                    old(self).spec_balance(from) - amount
                } else if a == to {
                    old(self).spec_balance(to) + amount
                } else {
                    old(self).spec_balance(a) as int
                }),
            old(self).spec_allowance(from, caller) >= amount && old(self).spec_balance(from)
                >= amount ==> forall|o: AccountId, p: AccountId|
                final(self).spec_allowance(o, p) as int == (if o == from && p == caller {
                    old(self).spec_allowance(from, caller) - amount
                } else {
                    old(self).spec_allowance(o, p) as int
                }),
    {
        let allowance_of_caller = alw_read(&self.allowances, from, caller);
        if allowance_of_caller < amount {
            return Err(LedgerError::InsufficientAllowance);
        }
        let balance_of_from = bal_read(&self.balances, from);
        if balance_of_from < amount {
            return Err(LedgerError::InsufficientBalance);
        }
        bal_write(&mut self.balances, from, balance_of_from - amount);
        let balance_of_receiver = bal_read(&self.balances, to);
        proof {
            lemma_bal_value_le_total(self.balances@, to);
        }
        bal_write(&mut self.balances, to, balance_of_receiver + amount);
        alw_write(&mut self.allowances, from, caller, allowance_of_caller - amount);
        Ok(Transfer { from, to, amount })
    }
}

/// Conservation: under the ledger's invariant, which construction
/// establishes and every operation preserves, the sum of all balances
/// equals the fixed total supply.
pub proof fn lemma_conservation(ledger: FungibleLedger)
    requires
        ledger.wf(),
    ensures
        ledger.spec_balance_total() == ledger.spec_total_supply(),
{
}

/// No single account can hold more than the total supply.
pub proof fn lemma_balance_le_supply(ledger: FungibleLedger, a: AccountId)
    requires
        ledger.wf(),
    ensures
        ledger.spec_balance(a) <= ledger.spec_total_supply(),
{
    lemma_bal_value_le_total(ledger.balances@, a);
}

} // verus!
