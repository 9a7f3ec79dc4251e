use token_ledger::account::AccountId;
use token_ledger::error::LedgerError;
use token_ledger::fungible;
use token_ledger::fungible::FungibleLedger;
use token_ledger::nonfungible;
use token_ledger::nonfungible::NonFungibleLedger;

#[test]
fn fungible_supply_scenario() {
    let a = AccountId::new(10);
    let b = AccountId::new(20);
    let mut ledger = FungibleLedger::new(a, 1000);
    assert_eq!(ledger.get_balance(a), 1000);
    assert_eq!(ledger.get_balance(b), 0);
    let moved = ledger.transfer(a, b, 60);
    assert_eq!(moved, Ok(fungible::Transfer { from: a, to: b, amount: 60 }));
    assert_eq!(ledger.get_balance(b), 60);
    assert_eq!(ledger.get_balance(a), 940);
}

#[test]
fn fungible_allowance_scenario() {
    let a = AccountId::new(10);
    let b = AccountId::new(20);
    let c = AccountId::new(30);
    let mut ledger = FungibleLedger::new(a, 1000);
    let granted = ledger.allow(a, b, 40);
    assert_eq!(granted, Ok(fungible::Allowance { from: a, spender: b, amount: 40 }));
    assert_eq!(ledger.allowance_of(a, b), 40);
    let moved = ledger.transfer_from(b, a, c, 40);
    assert_eq!(moved, Ok(fungible::Transfer { from: a, to: c, amount: 40 }));
    assert_eq!(ledger.get_balance(c), 40);
    assert_eq!(ledger.allowance_of(a, b), 0);
    let repeated = ledger.transfer_from(b, a, c, 40);
    assert_eq!(repeated, Err(LedgerError::InsufficientAllowance));
    assert_eq!(ledger.get_balance(c), 40);
}

#[test]
fn nonfungible_lifecycle_scenario() {
    let a = AccountId::new(10);
    let b = AccountId::new(20);
    let mut ledger = NonFungibleLedger::new();
    let id = ledger.mint(a);
    assert_eq!(id, 1);
    assert_eq!(ledger.owner_of(1), Some(a));
    assert_eq!(ledger.balance_of(a), 1);
    let moved = ledger.transfer(a, 1, b);
    assert_eq!(moved, Ok(nonfungible::Transfer { from: a, to: b, token_id: 1 }));
    assert_eq!(ledger.owner_of(1), Some(b));
    assert_eq!(ledger.balance_of(a), 0);
    assert_eq!(ledger.balance_of(b), 1);
    let refused = ledger.burn(a, 1);
    assert_eq!(refused, Err(LedgerError::NotOwner));
    let burned = ledger.burn(b, 1);
    assert_eq!(burned, Ok(()));
    assert_eq!(ledger.owner_of(1), None);
    assert_eq!(ledger.balance_of(b), 0);
}

#[test]
fn nonfungible_approval_scenario() {
    let a = AccountId::new(10);
    let b = AccountId::new(20);
    let c = AccountId::new(30);
    let mut ledger = NonFungibleLedger::new();
    let first = ledger.mint(a);
    assert_eq!(first, 1);
    let second = ledger.mint(a);
    assert_eq!(second, 2);
    let approved = ledger.approve(a, b, 2);
    assert_eq!(approved, Ok(nonfungible::Approve { owner: a, spender: b, token_id: 2 }));
    assert_eq!(ledger.approval_of(2), Some(b));
    let moved = ledger.transfer_from(b, c, 2);
    assert_eq!(moved, Ok(nonfungible::Transfer { from: a, to: c, token_id: 2 }));
    assert_eq!(ledger.owner_of(2), Some(c));
    assert_eq!(ledger.approval_of(2), None);
    let repeated = ledger.transfer_from(b, c, 2);
    assert_eq!(repeated, Err(LedgerError::NotApproved));
}

#[test]
fn transfer_refuses_insufficient_balance() {
    let a = AccountId::new(1);
    let b = AccountId::new(2);
    let mut ledger = FungibleLedger::new(a, 100);
    let refused = ledger.transfer(a, b, 101);
    assert_eq!(refused, Err(LedgerError::InsufficientBalance));
    assert_eq!(ledger.get_balance(a), 100);
    assert_eq!(ledger.get_balance(b), 0);
    let also_refused = ledger.transfer(b, a, 1);
    assert_eq!(also_refused, Err(LedgerError::InsufficientBalance));
}

#[test]
fn allow_refuses_insufficient_balance() {
    let a = AccountId::new(1);
    let b = AccountId::new(2);
    let mut ledger = FungibleLedger::new(a, 100);
    let refused = ledger.allow(a, b, 101);
    assert_eq!(refused, Err(LedgerError::InsufficientBalance));
    assert_eq!(ledger.allowance_of(a, b), 0);
}

#[test]
fn transfer_from_refuses_insufficient_balance() {
    let a = AccountId::new(1);
    let b = AccountId::new(2);
    let c = AccountId::new(3);
    let mut ledger = FungibleLedger::new(a, 100);
    let granted = ledger.allow(a, b, 50);
    assert!(granted.is_ok());
    let drained = ledger.transfer(a, c, 80);
    assert!(drained.is_ok());
    // the grant still stands, but the balance behind it is gone
    let refused = ledger.transfer_from(b, a, c, 50);
    assert_eq!(refused, Err(LedgerError::InsufficientBalance));
    assert_eq!(ledger.get_balance(a), 20);
    assert_eq!(ledger.get_balance(c), 80);
    assert_eq!(ledger.allowance_of(a, b), 50);
}

#[test]
fn self_transfer_succeeds_and_changes_nothing() {
    let a = AccountId::new(1);
    let mut ledger = FungibleLedger::new(a, 100);
    let moved = ledger.transfer(a, a, 30);
    assert_eq!(moved, Ok(fungible::Transfer { from: a, to: a, amount: 30 }));
    assert_eq!(ledger.get_balance(a), 100);
}

#[test]
fn operations_on_a_missing_token_are_refused() {
    let a = AccountId::new(1);
    let b = AccountId::new(2);
    let mut ledger = NonFungibleLedger::new();
    ledger.mint(a);
    assert_eq!(ledger.approve(a, b, 99), Err(LedgerError::NotFound));
    assert_eq!(ledger.transfer(a, 99, b), Err(LedgerError::NotFound));
    assert_eq!(ledger.transfer_from(a, b, 99), Err(LedgerError::NotFound));
    assert_eq!(ledger.burn(a, 99), Err(LedgerError::NotFound));
    assert_eq!(ledger.owner_of(1), Some(a));
    assert_eq!(ledger.balance_of(a), 1);
}

#[test]
fn only_the_owner_may_approve_or_transfer() {
    let a = AccountId::new(1);
    let b = AccountId::new(2);
    let mut ledger = NonFungibleLedger::new();
    ledger.mint(a);
    assert_eq!(ledger.approve(b, b, 1), Err(LedgerError::NotOwner));
    assert_eq!(ledger.transfer(b, 1, b), Err(LedgerError::NotOwner));
    assert_eq!(ledger.owner_of(1), Some(a));
    assert_eq!(ledger.approval_of(1), None);
}

#[test]
fn plain_transfer_clears_a_stale_approval() {
    let a = AccountId::new(1);
    let b = AccountId::new(2);
    let c = AccountId::new(3);
    let mut ledger = NonFungibleLedger::new();
    ledger.mint(a);
    let approved = ledger.approve(a, b, 1);
    assert!(approved.is_ok());
    let moved = ledger.transfer(a, 1, c);
    assert!(moved.is_ok());
    assert_eq!(ledger.approval_of(1), None);
    // the old spender's approval no longer authorizes anything
    let refused = ledger.transfer_from(b, b, 1);
    assert_eq!(refused, Err(LedgerError::NotApproved));
    assert_eq!(ledger.owner_of(1), Some(c));
}

#[test]
fn zero_amount_transfer_succeeds_for_anyone() {
    let a = AccountId::new(1);
    let b = AccountId::new(2);
    let mut ledger = FungibleLedger::new(a, 100);
    // b holds nothing, but moving nothing needs nothing
    let moved = ledger.transfer(b, a, 0);
    assert_eq!(moved, Ok(fungible::Transfer { from: b, to: a, amount: 0 }));
    assert_eq!(ledger.get_balance(a), 100);
    assert_eq!(ledger.get_balance(b), 0);
}

#[test]
fn allowance_may_equal_the_whole_balance() {
    let a = AccountId::new(1);
    let b = AccountId::new(2);
    let mut ledger = FungibleLedger::new(a, 100);
    let granted = ledger.allow(a, b, 100);
    assert_eq!(granted, Ok(fungible::Allowance { from: a, spender: b, amount: 100 }));
    let moved = ledger.transfer_from(b, a, b, 100);
    assert!(moved.is_ok());
    assert_eq!(ledger.get_balance(a), 0);
    assert_eq!(ledger.get_balance(b), 100);
    assert_eq!(ledger.allowance_of(a, b), 0);
}

#[test]
fn delegated_transfer_names_the_owner_as_source() {
    let a = AccountId::new(1);
    let b = AccountId::new(2);
    let c = AccountId::new(3);
    let mut ledger = FungibleLedger::new(a, 100);
    let granted = ledger.allow(a, b, 10);
    assert!(granted.is_ok());
    let moved = ledger.transfer_from(b, a, c, 10);
    assert_eq!(moved, Ok(fungible::Transfer { from: a, to: c, amount: 10 }));
}
