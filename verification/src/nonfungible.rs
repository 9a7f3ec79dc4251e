//! The non-fungible ledger: unique-id ownership, approvals, mint and burn.
//!
//! Each token id runs through the states nonexistent, owned (by exactly one
//! account at a time), and burned; ids are allocated by a monotonic counter
//! seeded at one and are never reused.  A single approved spender may be
//! recorded per token; as a defence in depth the approval is cleared on
//! every ownership change, whether by `transfer`, `transfer_from`, or
//! `burn`.  Every operation takes the authenticated caller identity as an
//! explicit argument and either applies its whole effect or returns an
//! error with the state untouched.  The ledger keeps each account's balance
//! equal to the number of tokens it owns.

use vstd::prelude::*;

verus! {

use crate::account::AccountId;
use crate::balances::bal_distinct;
use crate::balances::bal_read;
use crate::balances::bal_value;
use crate::balances::bal_write;
use crate::error::LedgerError;
use crate::tokens::holder_count;
use crate::tokens::lemma_holder_count_bounds;
use crate::tokens::lemma_holder_count_pair;
use crate::tokens::lemma_tok_entry_some_count;
use crate::tokens::tok_distinct;
use crate::tokens::tok_entry;
use crate::tokens::tok_read;
use crate::tokens::tok_remove;
use crate::tokens::tok_write;

/// The event emitted once for every successful `transfer` or
/// `transfer_from`: `token_id` passed from `from` to `to`.
#[derive(Clone, Copy, PartialEq, Eq, Structural, Debug)]
pub struct Transfer {
    pub from: AccountId,
    pub to: AccountId,
    pub token_id: u32,
}

/// The event emitted once for every successful `approve`: `owner` allowed
/// `spender` to move `token_id`.
#[derive(Clone, Copy, PartialEq, Eq, Structural, Debug)]
pub struct Approve {
    pub owner: AccountId,
    pub spender: AccountId,
    pub token_id: u32,
}

/// An account-based non-fungible token ledger.
pub struct NonFungibleLedger {
    owners: Vec<(u32, AccountId)>,
    balances: Vec<(AccountId, u32)>,
    approved: Vec<(u32, AccountId)>,
    last_id: u32,
}

impl NonFungibleLedger {
    /// The holder of `token_id`, or `None` if the token does not exist.
    pub closed spec fn spec_owner(self, token_id: u32) -> Option<AccountId> {
        tok_entry(self.owners@, token_id)
    }

    /// The number of tokens held by `a`; unknown accounts hold zero.
    pub closed spec fn spec_balance(self, a: AccountId) -> u32 {
        bal_value(self.balances@, a)
    }

    /// The account approved to move `token_id`, if any.
    pub closed spec fn spec_approval(self, token_id: u32) -> Option<AccountId> {
        tok_entry(self.approved@, token_id)
    }

    /// The id the next mint will assign.
    pub closed spec fn spec_last_id(self) -> u32 {
        self.last_id
    }

    /// How many ownership entries record account `a`.
    pub closed spec fn spec_owned_count(self, a: AccountId) -> int {
        holder_count(self.owners@, a)
    }

    /// Whether `token_id` currently exists.
    pub open spec fn token_exists(self, token_id: u32) -> bool {
        self.spec_owner(token_id) is Some
    }

    /// Why an owner-gated operation (`approve`, `transfer`, `burn`) on
    /// `token_id` would be refused to `caller`, if it would be.
    pub open spec fn owner_error(self, caller: AccountId, token_id: u32) -> Option<LedgerError> {
        match self.spec_owner(token_id) {
            None => Some(LedgerError::NotFound),
            Some(owner) => if owner != caller {
                Some(LedgerError::NotOwner)
            } else {
                None
            },
        }
    }

    /// Why a delegated transfer of `token_id` would be refused to `caller`,
    /// if it would be.
    pub open spec fn transfer_from_error(self, caller: AccountId, token_id: u32) -> Option<
        LedgerError,
    > {
        if self.spec_owner(token_id) is None {
            Some(LedgerError::NotFound)
        } else if self.spec_approval(token_id) != Some(caller) {
            Some(LedgerError::NotApproved)
        } else {
            None
        }
    }

    /// The ledger's invariant: each registry holds a token id at most once,
    /// every existing id was allocated by the counter, every balance counts
    /// exactly the tokens owned, and approvals refer to existing tokens.
    pub closed spec fn wf(self) -> bool {
        &&& tok_distinct(self.owners@)
        &&& tok_distinct(self.approved@)
        &&& bal_distinct(self.balances@)
        &&& 1 <= self.last_id
        &&& self.owners@.len() < self.last_id
        &&& forall|t: u32| tok_entry(self.owners@, t) is Some ==> 1 <= t < self.last_id
        &&& forall|a: AccountId| bal_value(self.balances@, a) == holder_count(self.owners@, a)
        &&& forall|t: u32|
            tok_entry(self.approved@, t) is Some ==> tok_entry(self.owners@, t) is Some
    }

    /// Creates an empty ledger whose id counter starts at one.
    pub fn new() -> (ledger: NonFungibleLedger)
        ensures
            ledger.wf(),
            ledger.spec_last_id() == 1u32,
            forall|t: u32| ledger.spec_owner(t) is None,
            forall|t: u32| ledger.spec_approval(t) is None,
            forall|a: AccountId| ledger.spec_balance(a) == 0u32,
    {
        NonFungibleLedger {
            owners: Vec::new(),
            balances: Vec::new(),
            approved: Vec::new(),
            last_id: 1,
        }
    }

    /// The number of tokens held by `owner`; unknown accounts hold zero.
    /// Never fails.
    pub fn balance_of(&self, owner: AccountId) -> (r: u32)
        ensures
            r == self.spec_balance(owner),
    {
        bal_read(&self.balances, owner)
    }

    /// The holder of `token_id`, or `None` if the token does not exist.
    /// Never fails.
    pub fn owner_of(&self, token_id: u32) -> (r: Option<AccountId>)
        ensures
            r == self.spec_owner(token_id),
    {
        tok_read(&self.owners, token_id)
    }

    /// The account approved to move `token_id`, if any.  Never fails.
    pub fn approval_of(&self, token_id: u32) -> (r: Option<AccountId>)
        ensures
            r == self.spec_approval(token_id),
    {
        tok_read(&self.approved, token_id)
    }

    /// The id the next mint will assign.  Never fails.
    pub fn last_id(&self) -> (r: u32)
        ensures
            r == self.spec_last_id(),
    {
        self.last_id
    }

    /// Creates a token owned by the caller and returns its id.  Ids are
    /// assigned by the monotonic counter, so the new token cannot collide
    /// with an existing one.  Never fails while ids remain; any payment
    /// precondition belongs to the host environment, not to the ledger.
    pub fn mint(&mut self, caller: AccountId) -> (token_id: u32)
        requires
            old(self).wf(),
            old(self).spec_last_id() < u32::MAX,
        ensures
            final(self).wf(),
            token_id == old(self).spec_last_id(),
            old(self).spec_owner(token_id) is None,
            final(self).spec_last_id() == old(self).spec_last_id() + 1,
            forall|t: u32|
                final(self).spec_owner(t) == (if t == token_id {
                    Some(caller)
                } else {
                    old(self).spec_owner(t)
                }),
            forall|t: u32| final(self).spec_approval(t) == old(self).spec_approval(t),
            forall|a: AccountId|
                final(self).spec_balance(a) as int == old(self).spec_balance(a) + (if a == caller {
                    1int
                } else {
                    0
                }),
    {
        let token_id = self.last_id;
        proof {
            if tok_entry(self.owners@, token_id) is Some {
                assert(token_id < self.last_id);
            }
            lemma_holder_count_bounds(self.owners@, caller);
        }
        tok_write(&mut self.owners, token_id, caller);
        self.last_id = self.last_id + 1;
        let balance_of_caller = bal_read(&self.balances, caller);
        bal_write(&mut self.balances, caller, balance_of_caller + 1);
        token_id
    }

    /// Records `spender` as the one account approved to move `token_id`.
    /// Only the token's current owner may approve; a missing token is
    /// refused with `NotFound` and a non-owner with `NotOwner`, with no
    /// state change.  The returned event is the one to forward to the
    /// host's sink.
    pub fn approve(&mut self, caller: AccountId, spender: AccountId, token_id: u32) -> (r: Result<
        Approve,
        LedgerError,
    >)
        requires
            old(self).wf(),
        ensures
            final(self).wf(),
            final(self).spec_last_id() == old(self).spec_last_id(),
            old(self).owner_error(caller, token_id) matches Some(e) ==> r == Err::<
                Approve,
                LedgerError,
            >(e) && *final(self) == *old(self),
            old(self).owner_error(caller, token_id) is None ==> r == Ok::<Approve, LedgerError>(
                Approve { owner: caller, spender, token_id },
            ),
            old(self).owner_error(caller, token_id) is None ==> forall|t: u32|
                final(self).spec_approval(t) == (if t == token_id {
                    Some(spender)
                } else {
                    old(self).spec_approval(t)
                }),
            old(self).owner_error(caller, token_id) is None ==> forall|t: u32|
                final(self).spec_owner(t) == old(self).spec_owner(t),
            old(self).owner_error(caller, token_id) is None ==> forall|a: AccountId|
                final(self).spec_balance(a) == old(self).spec_balance(a),
    {
        let result = tok_read(&self.owners, token_id);
        match result {
            Some(owner) => {
                if caller == owner {
                    tok_write(&mut self.approved, token_id, spender);
                    Ok(Approve { owner, spender, token_id })
                } else {
                    Err(LedgerError::NotOwner)
                }
            },
            None => Err(LedgerError::NotFound),
        }
    }

    /// Passes `token_id` from the caller to `to`.  Only the current owner
    /// may transfer; a missing token is refused with `NotFound` and a
    /// non-owner with `NotOwner`, with no state change.  On success the
    /// token's approval, if any, is cleared, so a previously approved
    /// spender has no hold over the token under its new owner.
    pub fn transfer(&mut self, caller: AccountId, token_id: u32, to: AccountId) -> (r: Result<
        Transfer,
        LedgerError,
    >)
        requires
            old(self).wf(),
        ensures
            final(self).wf(),
            final(self).spec_last_id() == old(self).spec_last_id(),
            old(self).owner_error(caller, token_id) matches Some(e) ==> r == Err::<
                Transfer,
                LedgerError,
            >(e) && *final(self) == *old(self),
            old(self).owner_error(caller, token_id) is None ==> r == Ok::<Transfer, LedgerError>(
                Transfer { from: caller, to, token_id },
            ),
            old(self).owner_error(caller, token_id) is None ==> forall|t: u32|
                final(self).spec_owner(t) == (if t == token_id {
                    Some(to)
                } else {
                    old(self).spec_owner(t)
                }),
            old(self).owner_error(caller, token_id) is None ==> forall|t: u32|
                final(self).spec_approval(t) == (if t == token_id {
                    None::<AccountId>
                } else {
                    old(self).spec_approval(t)
                }),
            old(self).owner_error(caller, token_id) is None ==> forall|a: AccountId|
                final(self).spec_balance(a) as int == old(self).spec_balance(a) + (if caller == to {
                    0int
                } else if a == caller {
                    -1int
                } else if a == to {
                    1int
                } else {
                    0int
                }),
    {
        let result = tok_read(&self.owners, token_id);
        match result {
            None => Err(LedgerError::NotFound),
            Some(owner) => {
                if caller != owner {
                    return Err(LedgerError::NotOwner);
                }
                proof {
                    lemma_tok_entry_some_count(self.owners@, token_id);
                    if to != caller {
                        lemma_holder_count_pair(self.owners@, caller, to);
                    }
                }
                tok_write(&mut self.owners, token_id, to);
                tok_remove(&mut self.approved, token_id);
                let balance_of_caller = bal_read(&self.balances, caller);
                bal_write(&mut self.balances, caller, balance_of_caller - 1);
                let balance_of_receiver = bal_read(&self.balances, to);
                bal_write(&mut self.balances, to, balance_of_receiver + 1);
                Ok(Transfer { from: caller, to, token_id })
            },
        }
    }

    /// Passes `token_id` from its owner to `to` on the strength of the
    /// token's approval.  Only the approved spender may call this; a
    /// missing token is refused with `NotFound` and any other caller with
    /// `NotApproved`, with no state change.  On success the approval is
    /// cleared, so repeating the call is refused, and the event names the
    /// previous owner, not the caller, as the source.
    pub fn transfer_from(&mut self, caller: AccountId, to: AccountId, token_id: u32) -> (r: Result<
        Transfer,
        LedgerError,
    >)
        requires
            old(self).wf(),
        ensures
            final(self).wf(),
            final(self).spec_last_id() == old(self).spec_last_id(),
            old(self).transfer_from_error(caller, token_id) matches Some(e) ==> r == Err::<
                Transfer,
                LedgerError,
            >(e) && *final(self) == *old(self),
            old(self).transfer_from_error(caller, token_id) is None ==> (old(self).spec_owner(
                token_id,
            ) matches Some(prev) && r == Ok::<Transfer, LedgerError>(
                Transfer { from: prev, to, token_id },
            )),
            old(self).transfer_from_error(caller, token_id) is None ==> forall|t: u32|
                final(self).spec_owner(t) == (if t == token_id {
                    Some(to)
                } else {
                    old(self).spec_owner(t)
                }),
            old(self).transfer_from_error(caller, token_id) is None ==> forall|t: u32|
                final(self).spec_approval(t) == (if t == token_id {
                    None::<AccountId>
                } else {
                    old(self).spec_approval(t)
                }),
            old(self).transfer_from_error(caller, token_id) is None ==> forall|a: AccountId|
                final(self).spec_balance(a) as int == old(self).spec_balance(a) + ({
                    let prev = old(self).spec_owner(token_id)->Some_0;
                    if prev == to {
                        0int
                    } else if a == prev {
                        -1int
                    } else if a == to {
                        1int
                    } else {
                        0int
                    }
                }),
    {
        let owner = tok_read(&self.owners, token_id);
        match owner {
            None => Err(LedgerError::NotFound),
            Some(owner_account) => {
                let approval = tok_read(&self.approved, token_id);
                let approved_spender = match approval {
                    Some(spender) => spender,
                    None => {
                        return Err(LedgerError::NotApproved);
                    },
                };
                if approved_spender != caller {
                    return Err(LedgerError::NotApproved);
                }
                proof {
                    lemma_tok_entry_some_count(self.owners@, token_id);
                    if to != owner_account {
                        lemma_holder_count_pair(self.owners@, owner_account, to);
                    }
                }
                tok_write(&mut self.owners, token_id, to);
                tok_remove(&mut self.approved, token_id);
                let balance_of_owner = bal_read(&self.balances, owner_account);
                bal_write(&mut self.balances, owner_account, balance_of_owner - 1);
                let balance_of_receiver = bal_read(&self.balances, to);
                bal_write(&mut self.balances, to, balance_of_receiver + 1);
                Ok(Transfer { from: owner_account, to, token_id })
            },
        }
    }

    /// Destroys `token_id`.  Only the current owner may burn; a missing
    /// token is refused with `NotFound` and a non-owner with `NotOwner`,
    /// with no state change.  The ownership entry and any approval are
    /// removed and the owner's balance is decremented; the id is never
    /// reused.  No event is emitted.
    pub fn burn(&mut self, caller: AccountId, token_id: u32) -> (r: Result<(), LedgerError>)
        requires
            old(self).wf(),
        ensures
            final(self).wf(),
            final(self).spec_last_id() == old(self).spec_last_id(),
            old(self).owner_error(caller, token_id) matches Some(e) ==> r == Err::<
                (),
                LedgerError,
            >(e) && *final(self) == *old(self),
            old(self).owner_error(caller, token_id) is None ==> r == Ok::<(), LedgerError>(()),
            old(self).owner_error(caller, token_id) is None ==> forall|t: u32|
                final(self).spec_owner(t) == (if t == token_id {
                    None::<AccountId>
                } else {
                    old(self).spec_owner(t)
                }),
            old(self).owner_error(caller, token_id) is None ==> forall|t: u32|
                final(self).spec_approval(t) == (if t == token_id {
                    None::<AccountId>
                } else {
                    old(self).spec_approval(t)
                }),
            old(self).owner_error(caller, token_id) is None ==> forall|a: AccountId|
                final(self).spec_balance(a) as int == old(self).spec_balance(a) - (if a == caller {
                    1int
                } else {
                    0
                }),
    {
        let result = tok_read(&self.owners, token_id);
        match result {
            None => Err(LedgerError::NotFound),
            Some(owner) => {
                if owner != caller {
                    return Err(LedgerError::NotOwner);
                }
                proof {
                    lemma_tok_entry_some_count(self.owners@, token_id);
                }
                tok_remove(&mut self.owners, token_id);
                tok_remove(&mut self.approved, token_id);
                let balance_of_caller = bal_read(&self.balances, caller);
                bal_write(&mut self.balances, caller, balance_of_caller - 1);
                Ok(())
            },
        }
    }
}

/// Ownership uniqueness: each existing token has exactly one recorded
/// owner (the ownership registry holds each id at most once), and under
/// the ledger's invariant every account's balance equals the number of
/// ownership entries that record it.
pub proof fn lemma_ownership_uniqueness(ledger: NonFungibleLedger, a: AccountId)
    requires
        ledger.wf(),
    ensures
        ledger.spec_balance(a) == ledger.spec_owned_count(a),
{
}

/// Approval invalidation: once a token's approval is cleared — as every
/// successful ownership-changing operation clears it — no caller at all
/// can move the token by delegated transfer: the attempt is refused with
/// `NotApproved`.
pub proof fn lemma_approval_invalidation(
    ledger: NonFungibleLedger,
    caller: AccountId,
    token_id: u32,
)
    requires
        ledger.token_exists(token_id),
        ledger.spec_approval(token_id) is None,
    ensures
        ledger.transfer_from_error(caller, token_id) == Some(LedgerError::NotApproved),
{
}

} // verus!
