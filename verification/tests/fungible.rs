use token_ledger::account::AccountId;
use token_ledger::fungible::FungibleLedger;

#[test]
fn new_works() {
    let caller = AccountId::new(1);
    let contract = FungibleLedger::new(caller, 1000);
    assert_eq!(contract.total_supply(), 1000);
}

#[test]
fn balance_works() {
    let caller = AccountId::new(1);
    let contract = FungibleLedger::new(caller, 100);
    assert_eq!(contract.get_balance(AccountId::new(1)), 100);
    assert_eq!(contract.get_balance(AccountId::new(0)), 0);
}

#[test]
fn erc20_transfer_works() {
    let caller = AccountId::new(1);
    let mut contract = FungibleLedger::new(caller, 100);
    assert_eq!(contract.get_balance(AccountId::new(1)), 100);
    let moved = contract.transfer(caller, AccountId::new(0), 60);
    assert!(moved.is_ok());
    assert_eq!(contract.get_balance(AccountId::new(0)), 60);
    assert_eq!(contract.get_balance(AccountId::new(1)), 40);
}

#[test]
fn allow_works() {
    let caller = AccountId::new(1);
    let mut contract = FungibleLedger::new(caller, 100);
    assert_eq!(contract.get_balance(AccountId::new(1)), 100);
    let granted = contract.allow(caller, AccountId::new(0), 40);
    assert!(granted.is_ok());
    assert_eq!(contract.allowance_of(AccountId::new(1), AccountId::new(0)), 40);
}

#[test]
fn erc20_transfer_from_works() {
    let caller = AccountId::new(1);
    let mut contract = FungibleLedger::new(caller, 100);
    assert_eq!(contract.get_balance(AccountId::new(1)), 100);
    let granted = contract.allow(caller, AccountId::new(1), 30);
    assert!(granted.is_ok());
    assert_eq!(contract.allowance_of(AccountId::new(1), AccountId::new(1)), 30);
    assert_eq!(contract.get_balance(AccountId::new(0)), 0);
    let moved = contract.transfer_from(caller, AccountId::new(1), AccountId::new(0), 30);
    assert!(moved.is_ok());
    assert_eq!(contract.get_balance(AccountId::new(0)), 30);
    assert_eq!(contract.allowance_of(AccountId::new(1), AccountId::new(1)), 0);
}

#[test]
fn get_my_balance_reads_the_callers_balance() {
    let caller = AccountId::new(7);
    let contract = FungibleLedger::new(caller, 250);
    assert_eq!(contract.get_my_balance(caller), 250);
    assert_eq!(contract.get_my_balance(AccountId::new(8)), 0);
}

#[test]
fn allowance_reads_the_callers_grant() {
    let owner = AccountId::new(1);
    let spender = AccountId::new(2);
    let mut contract = FungibleLedger::new(owner, 100);
    let granted = contract.allow(owner, spender, 25);
    assert!(granted.is_ok());
    assert_eq!(contract.allowance(owner, spender), 25);
    assert_eq!(contract.allowance(owner, AccountId::new(3)), 0);
}
