use liquid_staking::account::AccountId;
use liquid_staking::errors::Error;
use liquid_staking::pool::StakePool;

fn racct(name: &str) -> AccountId {
    AccountId::new(name.to_string()).unwrap()
}

fn rgovernance() -> AccountId {
    racct("governance.near")
}

fn ralice() -> AccountId {
    racct("alice.near")
}

#[test]
fn test_initialize_new_registry() {
    let contract = StakePool::new(rgovernance(), 4);
    assert_eq!(contract.validator_count(), 0);
}

#[test]
fn test_add_validator_with_get_ratio() {
    let _ratio: u32 = 10;

    let mut contract = StakePool::new(rgovernance(), 4);
    contract.add_validator(&rgovernance(), &ralice(), _ratio).unwrap();

    assert_eq!(contract.validator_count(), 1);
    assert_eq!(contract.get_validator_ratio(&ralice()), Some(_ratio));
}

#[test]
fn test_add_validator_with_non_governance_call() {
    let _ratio: u32 = 10;

    let mut contract = StakePool::new(rgovernance(), 4);
    assert_eq!(
        contract.add_validator(&racct("deployer.near"), &ralice(), _ratio),
        Err(Error::NotGovernance)
    );
    assert_eq!(contract.validator_count(), 0);
}

#[test]
fn test_add_validator_with_get_all_validators() {
    let _ratio: u32 = 10;

    let mut contract = StakePool::new(rgovernance(), 4);
    contract.add_validator(&rgovernance(), &ralice(), _ratio).unwrap();
    assert_eq!(contract.validator_count(), 1);
    assert_eq!(contract.get_validators(), vec![(ralice(), _ratio)]);
}

#[test]
fn test_del_validator() {
    let _ratio: u32 = 10;

    let mut contract = StakePool::new(rgovernance(), 4);
    contract.add_validator(&rgovernance(), &ralice(), _ratio).unwrap();
    contract.remove_validator(&rgovernance(), &ralice()).unwrap();
    assert_eq!(contract.validator_count(), 0);
    assert_eq!(contract.get_validators(), vec![]);
}

#[test]
fn test_del_validator_with_non_governance_call() {
    let mut contract = StakePool::new(rgovernance(), 4);
    assert_eq!(
        contract.remove_validator(&racct("deployer.near"), &ralice()),
        Err(Error::NotGovernance)
    );
}

#[test]
fn test_del_validator_with_non_registred_validators() {
    let mut contract = StakePool::new(rgovernance(), 4);
    assert_eq!(
        contract.remove_validator(&rgovernance(), &ralice()),
        Err(Error::UnknownValidator)
    );
}

#[test]
fn test_update_validator() {
    let _ratio = 10u32;
    let mut contract = StakePool::new(rgovernance(), 4);

    contract.add_validator(&rgovernance(), &ralice(), _ratio).unwrap();
    contract.update_validator(&rgovernance(), &ralice(), _ratio + 11u32).unwrap();

    assert_eq!(contract.get_validator_ratio(&ralice()), Some(21u32));
}

#[test]
fn test_update_validator_with_non_governance_call() {
    let _ratio = 10u32;
    let mut contract = StakePool::new(rgovernance(), 4);
    assert_eq!(
        contract.update_validator(&racct("deployer.near"), &ralice(), _ratio + 11u32),
        Err(Error::NotGovernance)
    );
}

#[test]
fn test_update_validator_with_non_exist_validator() {
    let _ratio = 10u32;
    let mut contract = StakePool::new(rgovernance(), 4);
    assert_eq!(
        contract.update_validator(&rgovernance(), &ralice(), _ratio + 11u32),
        Err(Error::UnknownValidator)
    );
}

#[test]
fn test_get_validator_ratio_with_non_exist() {
    let contract = StakePool::new(rgovernance(), 4);
    assert_eq!(contract.get_validator_ratio(&ralice()), None);
}

#[test]
fn add_validator_twice_fails_second_time() {
    let mut contract = StakePool::new(rgovernance(), 4);
    contract.add_validator(&rgovernance(), &ralice(), 10).unwrap();
    assert_eq!(
        contract.add_validator(&rgovernance(), &ralice(), 99),
        Err(Error::DuplicateValidator)
    );
    assert_eq!(contract.get_validator_ratio(&ralice()), Some(10));
    assert_eq!(contract.total_weight(), 10);
}

#[test]
fn total_weight_follows_the_table() {
    let mut contract = StakePool::new(rgovernance(), 4);
    contract.add_validator(&rgovernance(), &racct("one.near"), 2).unwrap();
    contract.add_validator(&rgovernance(), &racct("two.near"), 3).unwrap();
    assert_eq!(contract.total_weight(), 5);
    contract.update_validator(&rgovernance(), &racct("one.near"), 7).unwrap();
    assert_eq!(contract.total_weight(), 10);
    contract.remove_validator(&rgovernance(), &racct("two.near")).unwrap();
    assert_eq!(contract.total_weight(), 7);
}
