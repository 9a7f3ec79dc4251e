use token_ledger::account::AccountId;
use token_ledger::nonfungible::NonFungibleLedger;

#[test]
fn mint_works() {
    let caller = AccountId::new(1);
    let mut contract = NonFungibleLedger::new();
    assert_eq!(contract.owner_of(1), None);
    contract.mint(caller);
    assert_eq!(contract.owner_of(1), Some(AccountId::new(1)));
    assert_eq!(contract.balance_of(AccountId::new(1)), 1);
}

#[test]
fn erc721_transfer_works() {
    let caller = AccountId::new(1);
    let mut contract = NonFungibleLedger::new();
    assert_eq!(contract.owner_of(1), None);
    contract.mint(caller);
    assert_eq!(contract.owner_of(1), Some(AccountId::new(1)));
    assert_eq!(contract.balance_of(AccountId::new(1)), 1);
    let moved = contract.transfer(caller, 1, AccountId::new(2));
    assert!(moved.is_ok());
    assert_eq!(contract.owner_of(1), Some(AccountId::new(2)));
    assert_eq!(contract.balance_of(AccountId::new(1)), 0);
    assert_eq!(contract.balance_of(AccountId::new(2)), 1);
}

#[test]
fn approve_works() {
    let caller = AccountId::new(1);
    let mut contract = NonFungibleLedger::new();
    assert_eq!(contract.owner_of(1), None);
    let token_id = contract.mint(caller);
    assert_eq!(contract.owner_of(1), Some(AccountId::new(1)));
    assert_eq!(contract.balance_of(AccountId::new(1)), 1);
    let approved = contract.approve(caller, AccountId::new(2), token_id);
    assert!(approved.is_ok());
    assert_eq!(contract.approval_of(token_id), Some(AccountId::new(2)));
}

#[test]
fn erc721_transfer_from_works() {
    let caller = AccountId::new(1);
    let mut contract = NonFungibleLedger::new();
    assert_eq!(contract.owner_of(1), None);
    let token_id = contract.mint(caller);
    assert_eq!(contract.owner_of(1), Some(AccountId::new(1)));
    assert_eq!(contract.balance_of(AccountId::new(1)), 1);
    let approved = contract.approve(caller, AccountId::new(1), token_id);
    assert!(approved.is_ok());
    assert_eq!(contract.approval_of(token_id), Some(AccountId::new(1)));
    let moved = contract.transfer_from(caller, AccountId::new(2), token_id);
    assert!(moved.is_ok());
    assert_eq!(contract.owner_of(token_id), Some(AccountId::new(2)));
    assert_eq!(contract.balance_of(AccountId::new(1)), 0);
}

#[test]
fn burn_works() {
    let caller = AccountId::new(1);
    let mut contract = NonFungibleLedger::new();
    assert_eq!(contract.owner_of(1), None);
    contract.mint(caller);
    assert_eq!(contract.owner_of(1), Some(AccountId::new(1)));
    assert_eq!(contract.balance_of(AccountId::new(1)), 1);
    let burned = contract.burn(caller, 1);
    assert!(burned.is_ok());
    assert_eq!(contract.balance_of(AccountId::new(1)), 0);
    assert_eq!(contract.owner_of(1), None);
}

#[test]
fn ids_are_not_reused_after_burn() {
    let caller = AccountId::new(1);
    let mut contract = NonFungibleLedger::new();
    let first = contract.mint(caller);
    assert_eq!(first, 1);
    let burned = contract.burn(caller, first);
    assert!(burned.is_ok());
    let second = contract.mint(caller);
    assert_eq!(second, 2);
    assert_eq!(contract.owner_of(1), None);
    assert_eq!(contract.owner_of(2), Some(caller));
}
