use liquid_staking::account::AccountId;
use liquid_staking::errors::Error;
use liquid_staking::pool::StakePool;

fn lacct(name: &str) -> AccountId {
    AccountId::new(name.to_string()).unwrap()
}

fn ltokenizer() -> AccountId {
    lacct("tokenizer.near")
}

fn lalice() -> AccountId {
    lacct("alice.near")
}

fn lbob() -> AccountId {
    lacct("bob.near")
}

fn lcarol() -> AccountId {
    lacct("carol.near")
}

#[test]
fn test_initialize_new_token() {
    let contract = StakePool::new(ltokenizer(), 4);
    let total_supply = 0u128;
    assert_eq!(contract.get_total_supply(), total_supply);
    assert_eq!(contract.get_balance(&ltokenizer()), total_supply);
}

#[test]
fn lib_test_initialize_new_token() {
    let contract = StakePool::new(ltokenizer(), 4);
    let total_supply = 0u128;
    assert_eq!(contract.get_total_supply(), total_supply);
    assert_eq!(contract.get_balance(&ltokenizer()), total_supply);
}

#[test]
fn test_transfer_to_a_different_account_works() {
    let mut contract = StakePool::new(ltokenizer(), 4);
    let mint_balance = 1_000_000_000_000_000u128;
    contract.mint_to(&ltokenizer(), mint_balance, &lcarol()).unwrap();

    let transfer_amount = mint_balance / 3;
    contract.transfer(&lcarol(), &lbob(), transfer_amount).unwrap();

    assert_eq!(contract.get_balance(&lcarol()), mint_balance - transfer_amount);
    assert_eq!(contract.get_balance(&lbob()), transfer_amount);
}

#[test]
fn lib_test_transfer_to_a_different_account_works() {
    let mut contract = StakePool::new(ltokenizer(), 4);
    let mint_balance = 1_000_000_000_000_000u128;
    contract.mint_to(&ltokenizer(), mint_balance, &lcarol()).unwrap();

    let transfer_amount = mint_balance / 3;
    contract.transfer(&lcarol(), &lbob(), transfer_amount).unwrap();

    assert_eq!(contract.get_balance(&lcarol()), mint_balance - transfer_amount);
    assert_eq!(contract.get_balance(&lbob()), transfer_amount);
}

#[test]
fn test_carol_escrows_to_bob_transfers_to_alice() {
    let mut contract = StakePool::new(ltokenizer(), 4);
    let mint_balance = 1_000_000_000_000_000u128;
    contract.mint_to(&ltokenizer(), mint_balance, &lcarol()).unwrap();

    assert_eq!(contract.get_total_supply(), mint_balance);

    let allowance = mint_balance / 3;
    let transfer_amount = allowance / 3;
    contract.approve(&lcarol(), "bob.near".to_string(), allowance).unwrap();
    assert_eq!(contract.get_allowance(&lcarol(), &lbob()), allowance);

    // Acting as bob now
    contract.transfer_from(&lbob(), &lcarol(), &lalice(), transfer_amount).unwrap();

    assert_eq!(contract.get_balance(&lcarol()), mint_balance - transfer_amount);
    assert_eq!(contract.get_balance(&lalice()), transfer_amount);
    assert_eq!(contract.get_allowance(&lcarol(), &lbob()), allowance - transfer_amount);
}

#[test]
fn test_carol_escrows_to_bob_locks_and_transfers_to_alice() {
    let mut contract = StakePool::new(ltokenizer(), 4);
    let mint_balance = 1_000_000_000_000_000u128;
    contract.mint_to(&ltokenizer(), mint_balance, &lcarol()).unwrap();

    assert_eq!(contract.get_total_supply(), mint_balance);

    let allowance = mint_balance / 3;
    let transfer_amount = allowance / 3;
    contract.approve(&lcarol(), "bob.near".to_string(), allowance).unwrap();
    assert_eq!(contract.get_allowance(&lcarol(), &lbob()), allowance);
    assert_eq!(contract.get_balance(&lcarol()), mint_balance);

    // Acting as bob now
    contract.transfer_from(&lbob(), &lcarol(), &lalice(), transfer_amount).unwrap();

    assert_eq!(contract.get_balance(&lcarol()), mint_balance - transfer_amount);
    assert_eq!(contract.get_balance(&lalice()), transfer_amount);
    assert_eq!(contract.get_allowance(&lcarol(), &lbob()), allowance - transfer_amount);
}

#[test]
fn transfer_to_self_fails() {
    let mut contract = StakePool::new(ltokenizer(), 4);
    let mint_balance = 1_000_000_000_000_000u128;
    contract.mint_to(&ltokenizer(), mint_balance, &lcarol()).unwrap();

    let transfer_amount = mint_balance / 3;
    assert_eq!(
        contract.transfer(&lcarol(), &lcarol(), transfer_amount),
        Err(Error::SameAccount)
    );
    assert_eq!(contract.get_balance(&lcarol()), mint_balance);
}

#[test]
fn approve_self_always_fails() {
    let mut contract = StakePool::new(ltokenizer(), 4);
    let mint_balance = 1_000_000_000_000_000u128;
    contract.mint_to(&ltokenizer(), mint_balance, &lcarol()).unwrap();

    assert_eq!(
        contract.approve(&lcarol(), "carol.near".to_string(), mint_balance / 2),
        Err(Error::SelfApproval)
    );
    assert_eq!(contract.approve(&lcarol(), "carol.near".to_string(), 0), Err(Error::SelfApproval));
    assert_eq!(contract.get_allowance(&lcarol(), &lcarol()), 0);
}

#[test]
fn approve_invalid_account_rejected() {
    let mut contract = StakePool::new(ltokenizer(), 4);
    assert_eq!(
        contract.approve(&lcarol(), "Not A Valid Name".to_string(), 10),
        Err(Error::InvalidAccount)
    );
    assert_eq!(contract.approve(&lcarol(), "x".to_string(), 10), Err(Error::InvalidAccount));
    assert_eq!(contract.approve(&lcarol(), "double..dot".to_string(), 10), Err(Error::InvalidAccount));
    // the same name rules decide AccountId construction
    assert!(AccountId::new("ok-name_0.near".to_string()).is_ok());
    assert!(AccountId::new("-leading.near".to_string()).is_err());
}

#[test]
fn transfer_rejections_change_nothing() {
    let mut contract = StakePool::new(ltokenizer(), 4);
    contract.mint_to(&ltokenizer(), 100, &lcarol()).unwrap();

    assert_eq!(contract.transfer(&lcarol(), &lbob(), 0), Err(Error::ZeroAmount));
    assert_eq!(contract.transfer(&lcarol(), &lbob(), 101), Err(Error::InsufficientBalance));
    // bob has no allowance from carol
    assert_eq!(
        contract.transfer_from(&lbob(), &lcarol(), &lalice(), 10),
        Err(Error::InsufficientAllowance)
    );
    assert_eq!(contract.get_balance(&lcarol()), 100);
    assert_eq!(contract.get_balance(&lbob()), 0);
}

#[test]
fn allowance_is_overwritten_not_incremented() {
    let mut contract = StakePool::new(ltokenizer(), 4);
    contract.mint_to(&ltokenizer(), 100, &lcarol()).unwrap();
    contract.approve(&lcarol(), "bob.near".to_string(), 30).unwrap();
    contract.approve(&lcarol(), "bob.near".to_string(), 20).unwrap();
    assert_eq!(contract.get_allowance(&lcarol(), &lbob()), 20);
    // an allowance of zero erases the entry
    contract.approve(&lcarol(), "bob.near".to_string(), 0).unwrap();
    assert_eq!(contract.get_allowance(&lcarol(), &lbob()), 0);
}

#[test]
fn mint_overflow_is_rejected() {
    let mut contract = StakePool::new(ltokenizer(), 4);
    contract.mint_to(&ltokenizer(), u128::MAX, &lcarol()).unwrap();
    assert_eq!(contract.mint_to(&ltokenizer(), 1, &lbob()), Err(Error::Overflow));
    assert_eq!(contract.get_total_credit(), u128::MAX);
}

#[test]
fn mint_requires_governance() {
    let mut contract = StakePool::new(ltokenizer(), 4);
    assert_eq!(contract.mint_to(&lcarol(), 100, &lcarol()), Err(Error::NotGovernance));
    assert_eq!(contract.get_total_supply(), 0);
}

#[test]
fn total_credit_equals_sum_of_balances_after_each_call() {
    let mut contract = StakePool::new(ltokenizer(), 4);
    let people = ["alice.near", "bob.near", "carol.near"];
    let sum_of = |c: &StakePool| -> u128 {
        people.iter().map(|p| c.get_credit(&AccountId::new(p.to_string()).unwrap())).sum()
    };

    contract.mint_to(&ltokenizer(), 1_000, &lalice()).unwrap();
    assert_eq!(contract.get_total_credit(), sum_of(&contract));

    contract.transfer(&lalice(), &lbob(), 400).unwrap();
    assert_eq!(contract.get_total_credit(), sum_of(&contract));

    contract.approve(&lalice(), "carol.near".to_string(), 250).unwrap();
    assert_eq!(contract.get_total_credit(), sum_of(&contract));

    contract.transfer_from(&lcarol(), &lalice(), &lcarol(), 250).unwrap();
    assert_eq!(contract.get_total_credit(), sum_of(&contract));

    contract.mint_to(&ltokenizer(), 77, &lbob()).unwrap();
    assert_eq!(contract.get_total_credit(), sum_of(&contract));

    // a failing call changes neither side
    assert_eq!(contract.transfer(&lbob(), &lalice(), 100_000), Err(Error::InsufficientBalance));
    assert_eq!(contract.get_total_credit(), sum_of(&contract));
    assert_eq!(contract.get_total_credit(), 1_077);

    // burning destroys credit on both sides of the equation
    contract.add_validator(&ltokenizer(), &lacct("validator-one.near"), 1).unwrap();
    contract.burn(&lcarol(), 50, 0).unwrap();
    assert_eq!(contract.get_total_credit(), sum_of(&contract));
    assert_eq!(contract.get_total_credit(), 1_027);
}
