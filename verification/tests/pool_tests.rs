use liquid_staking::account::AccountId;
use liquid_staking::distributor::OpKind;
use liquid_staking::errors::Error;
use liquid_staking::pool::StakePool;
use liquid_staking::rebase::SCALE_ONE;

fn pacct(name: &str) -> AccountId {
    AccountId::new(name.to_string()).unwrap()
}

fn pgov() -> AccountId {
    pacct("governance.near")
}

#[test]
fn proportional_split_is_exact() {
    // weights {(a,2),(b,3),(c,5)} and a deposit of 100: base shares
    // {20,30,50}, remainder 0, summing to exactly 100
    let mut contract = StakePool::new(pgov(), 4);
    contract.add_validator(&pgov(), &pacct("val-a.near"), 2).unwrap();
    contract.add_validator(&pgov(), &pacct("val-b.near"), 3).unwrap();
    contract.add_validator(&pgov(), &pacct("val-c.near"), 5).unwrap();

    let reqs = contract.deposit(&pacct("alice.near"), 100).unwrap();
    assert_eq!(reqs.len(), 3);
    let amounts: Vec<u128> = reqs.iter().map(|r| r.amount).collect();
    assert_eq!(amounts, vec![20, 30, 50]);
    assert_eq!(amounts.iter().sum::<u128>(), 100);
    for r in &reqs {
        assert!(matches!(r.kind, OpKind::Stake));
        assert_eq!(r.op_id, 0);
    }
}

#[test]
fn rounding_remainder_goes_to_the_tie_break_validator() {
    // three equal weights (total 3) and a deposit of 100: base shares
    // {33,33,33}, the remainder of 1 goes to the designated tie-break
    // validator (the earliest of the greatest weight), summing to 100
    let mut contract = StakePool::new(pgov(), 4);
    contract.add_validator(&pgov(), &pacct("val-a.near"), 1).unwrap();
    contract.add_validator(&pgov(), &pacct("val-b.near"), 1).unwrap();
    contract.add_validator(&pgov(), &pacct("val-c.near"), 1).unwrap();

    let reqs = contract.deposit(&pacct("alice.near"), 100).unwrap();
    let amounts: Vec<u128> = reqs.iter().map(|r| r.amount).collect();
    assert_eq!(amounts, vec![34, 33, 33]);
    assert_eq!(amounts.iter().sum::<u128>(), 100);
}

#[test]
fn deposit_rejections() {
    let mut contract = StakePool::new(pgov(), 4);
    assert!(matches!(contract.deposit(&pacct("alice.near"), 0), Err(Error::ZeroAmount)));
    assert!(matches!(
        contract.deposit(&pacct("alice.near"), 100),
        Err(Error::EmptyValidatorSet)
    ));
    contract.add_validator(&pgov(), &pacct("val-a.near"), 0).unwrap();
    // a registered validator with weight zero still leaves nothing to split by
    assert!(matches!(
        contract.deposit(&pacct("alice.near"), 100),
        Err(Error::EmptyValidatorSet)
    ));
}

#[test]
fn end_to_end_deposit_confirm_burn_withdraw() {
    let delay = 4u64;
    let mut contract = StakePool::new(pgov(), delay);
    let alice = pacct("alice.near");
    let v1 = pacct("val-one.near");
    let v2 = pacct("val-two.near");
    contract.add_validator(&pgov(), &v1, 1).unwrap();
    contract.add_validator(&pgov(), &v2, 1).unwrap();

    // deposit 100 with two validators weighted 1:1 -> two stake requests
    // of 50 each
    let reqs = contract.deposit(&alice, 100).unwrap();
    assert_eq!(reqs.len(), 2);
    assert_eq!(reqs[0].amount, 50);
    assert_eq!(reqs[1].amount, 50);
    assert_eq!(contract.get_balance(&alice), 0);

    // both confirm -> the ledger credits the depositor 100
    assert!(matches!(contract.on_stake_result(0, &v1, true), Ok(None)));
    let report = contract.on_stake_result(0, &v2, true).unwrap().unwrap();
    assert!(matches!(report.kind, OpKind::Stake));
    assert_eq!(report.confirmed_total, 100);
    assert!(report.failed.is_empty());
    assert_eq!(contract.get_balance(&alice), 100);
    assert_eq!(contract.get_total_supply(), 100);

    // later, burn(40) -> two unstake requests of 20 each and a claim of 40
    // unlocked delay epochs from now
    let epoch = 10u64;
    let unstakes = contract.burn(&alice, 40, epoch).unwrap();
    assert_eq!(unstakes.len(), 2);
    assert_eq!(unstakes[0].amount, 20);
    assert_eq!(unstakes[1].amount, 20);
    assert!(matches!(unstakes[0].kind, OpKind::Unstake));
    assert_eq!(contract.get_balance(&alice), 60);
    let claim = contract.get_claim(&alice);
    assert_eq!(claim.amount, 40);
    assert_eq!(claim.unlock_epoch, epoch + delay);

    // before the unlock epoch the claim cannot be released
    assert_eq!(contract.withdraw(&alice, epoch + delay - 1), Err(Error::NotYetUnlocked));
    // at the unlock epoch it is released in full, exactly once
    assert_eq!(contract.withdraw(&alice, epoch + delay), Ok(40));
    assert_eq!(contract.withdraw(&alice, epoch + delay), Err(Error::NoClaim));
    assert_eq!(contract.get_claim(&alice).amount, 0);
}

#[test]
fn claims_accumulate_and_keep_the_later_unlock() {
    // register 30 then 20 for the same owner before either unlocks:
    // one claim of 50, unlocked at the later of the two computed epochs
    let delay = 4u64;
    let mut contract = StakePool::new(pgov(), delay);
    let alice = pacct("alice.near");
    contract.add_validator(&pgov(), &pacct("val-one.near"), 1).unwrap();
    contract.mint_to(&pgov(), 100, &alice).unwrap();

    contract.burn(&alice, 30, 5).unwrap();
    contract.burn(&alice, 20, 7).unwrap();

    let claim = contract.get_claim(&alice);
    assert_eq!(claim.amount, 50);
    assert_eq!(claim.unlock_epoch, 7 + delay);

    assert_eq!(contract.withdraw(&alice, 7 + delay - 1), Err(Error::NotYetUnlocked));
    assert_eq!(contract.withdraw(&alice, 7 + delay), Ok(50));
}

#[test]
fn burn_rejections_change_nothing() {
    let mut contract = StakePool::new(pgov(), 4);
    let alice = pacct("alice.near");
    contract.add_validator(&pgov(), &pacct("val-one.near"), 1).unwrap();
    contract.mint_to(&pgov(), 100, &alice).unwrap();

    assert!(matches!(contract.burn(&alice, 0, 0), Err(Error::ZeroAmount)));
    assert!(matches!(contract.burn(&alice, 101, 0), Err(Error::InsufficientBalance)));
    // an epoch so late that the unlock would overflow is rejected up front
    assert!(matches!(contract.burn(&alice, 10, u64::MAX), Err(Error::Overflow)));
    assert_eq!(contract.get_balance(&alice), 100);
    assert_eq!(contract.get_claim(&alice).amount, 0);
}

#[test]
fn stake_results_follow_the_correlation_table() {
    let mut contract = StakePool::new(pgov(), 4);
    let v1 = pacct("val-one.near");
    let v2 = pacct("val-two.near");
    contract.add_validator(&pgov(), &v1, 1).unwrap();
    contract.add_validator(&pgov(), &v2, 1).unwrap();
    contract.deposit(&pacct("alice.near"), 100).unwrap();

    // unknown correlation id, unknown validator, double delivery
    assert!(matches!(contract.on_stake_result(7, &v1, true), Err(Error::UnknownOperation)));
    assert!(matches!(
        contract.on_stake_result(0, &pacct("nobody.near"), true),
        Err(Error::UnknownOperation)
    ));
    assert!(matches!(contract.on_stake_result(0, &v1, true), Ok(None)));
    assert!(matches!(
        contract.on_stake_result(0, &v1, true),
        Err(Error::OperationAlreadyResolved)
    ));

    // results may arrive in any order; the second terminal entry closes
    // the group
    let report = contract.on_stake_result(0, &v2, false).unwrap().unwrap();
    assert_eq!(report.confirmed_total, 50);
    assert_eq!(report.failed.len(), 1);
    assert_eq!(report.failed[0].0, v2);
    assert_eq!(report.failed[0].1, 50);
    // only the confirmed half was credited
    assert_eq!(contract.get_balance(&pacct("alice.near")), 50);
}

#[test]
fn retry_reissues_only_the_failed_part() {
    let mut contract = StakePool::new(pgov(), 4);
    let v1 = pacct("val-one.near");
    let v2 = pacct("val-two.near");
    contract.add_validator(&pgov(), &v1, 1).unwrap();
    contract.add_validator(&pgov(), &v2, 1).unwrap();
    contract.deposit(&pacct("alice.near"), 100).unwrap();

    assert!(matches!(contract.retry_failed(0), Err(Error::OperationPending)));
    contract.on_stake_result(0, &v1, true).unwrap();
    assert!(matches!(contract.retry_failed(0), Err(Error::OperationPending)));
    contract.on_stake_result(0, &v2, false).unwrap();

    let retry = contract.retry_failed(0).unwrap();
    assert_eq!(retry.len(), 1);
    assert_eq!(retry[0].validator, v2);
    assert_eq!(retry[0].amount, 50);
    assert_eq!(retry[0].op_id, 1);

    // the new dispatch is a group of its own
    assert!(matches!(contract.on_stake_result(1, &v2, true), Ok(Some(_))));
    assert_eq!(contract.get_balance(&pacct("alice.near")), 100);
}

#[test]
fn rebase_uses_the_ratio_of_extremes() {
    let mut contract = StakePool::new(pgov(), 4);
    let alice = pacct("alice.near");
    contract.mint_to(&pgov(), 100, &alice).unwrap();
    assert_eq!(contract.get_scale_factor(), SCALE_ONE);

    // the validators report less stake than the pool accounts for:
    // the factor becomes min/max = 50/100 of SCALE_ONE
    contract.on_ping(50);
    assert_eq!(contract.get_scale_factor(), SCALE_ONE / 2);
    assert_eq!(contract.get_balance(&alice), 50);

    // a zero report leaves the factor untouched
    contract.on_ping(0);
    assert_eq!(contract.get_scale_factor(), SCALE_ONE / 2);

    // the ratio of extremes discards direction: a report of double the
    // local total gives the same factor as one of half of it
    let mut other = StakePool::new(pgov(), 4);
    other.mint_to(&pgov(), 100, &alice).unwrap();
    other.on_ping(200);
    assert_eq!(other.get_scale_factor(), SCALE_ONE / 2);
}

#[test]
fn escrowed_burn_consumes_allowance() {
    let mut contract = StakePool::new(pgov(), 4);
    let alice = pacct("alice.near");
    let bob = pacct("bob.near");
    contract.add_validator(&pgov(), &pacct("val-one.near"), 1).unwrap();
    contract.mint_to(&pgov(), 100, &alice).unwrap();

    assert!(matches!(
        contract.burn_from(&bob, &alice, 30, 0),
        Err(Error::InsufficientAllowance)
    ));
    contract.approve(&alice, "bob.near".to_string(), 40).unwrap();
    contract.burn_from(&bob, &alice, 30, 0).unwrap();
    assert_eq!(contract.get_allowance(&alice, &bob), 10);
    assert_eq!(contract.get_balance(&alice), 70);
    // the claim belongs to the account whose credit was burned
    assert_eq!(contract.get_claim(&alice).amount, 30);
    assert_eq!(contract.get_claim(&bob).amount, 0);
}

#[test]
fn decimals_and_counts() {
    let contract = StakePool::new(pgov(), 4);
    assert_eq!(contract.decimals(), 18);
    assert_eq!(contract.validator_count(), 0);
    assert_eq!(contract.total_weight(), 0);
}

#[test]
fn huge_deposit_splits_exactly() {
    // amount * weight exceeds u128 here, so only a genuine double-width
    // intermediate can produce shares that still sum to the full amount
    let mut contract = StakePool::new(pgov(), 4);
    contract.add_validator(&pgov(), &pacct("val-a.near"), 2).unwrap();
    contract.add_validator(&pgov(), &pacct("val-b.near"), 3).unwrap();
    contract.add_validator(&pgov(), &pacct("val-c.near"), 5).unwrap();

    let reqs = contract.deposit(&pacct("alice.near"), u128::MAX).unwrap();
    let amounts: Vec<u128> = reqs.iter().map(|r| r.amount).collect();
    assert_eq!(amounts.len(), 3);
    // u128::MAX == 10 * q + 5, so the floored shares are 2q+1, 3q+1 and
    // 5q+2, and the remainder of 1 goes to the heaviest validator
    let q = u128::MAX / 10;
    assert_eq!(amounts[0], 2 * q + 1);
    assert_eq!(amounts[1], 3 * q + 1);
    assert_eq!(amounts[2], 5 * q + 3);
    assert_eq!(amounts.iter().sum::<u128>(), u128::MAX);
}

#[test]
fn rebase_guards_against_vanishing_ratio() {
    let mut contract = StakePool::new(pgov(), 4);
    let alice = pacct("alice.near");
    contract.mint_to(&pgov(), 1, &alice).unwrap();

    // the totals are so far apart that the rounded ratio would be zero:
    // the factor must stay usable rather than collapse
    contract.on_ping(SCALE_ONE.saturating_mul(10));
    assert_eq!(contract.get_scale_factor(), SCALE_ONE);
}
