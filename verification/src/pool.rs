use vstd::prelude::*;

use crate::account::{valid_account_seq, AccountId};
use crate::distributor::{
    confirmed_sum, dispatched_entries, dispatched_of_pairs, entry_has, entry_index,
    failed_pairs, group_complete, lemma_first_max_unique, lemma_pairs_match_sum,
    lemma_positive_parts_props, pairs_match, positive_parts, spec_split, split_amount,
    sum_pairs, EntryView, GroupReport, GroupView, OpKind, OpStatus, OpTable, ReportView,
    RequestView, StakeRequest,
};
use crate::errors::Error;
use crate::ledger::{
    allowance_of, credit_of, spec_approve, spec_burn, spec_mint, spec_transfer, AccountView,
    Ledger,
};
use crate::math::{checked_mul_div, lemma_mul_div_le};
use crate::rebase::{spec_rebase, ScaleFactor, SCALE_ONE};
use crate::registry::{
    spec_add_validator, spec_remove_validator, spec_update_validator, ValidatorRegistry,
};
use crate::withdrawal::{
    claim_or_none, spec_register_claim, spec_release, Claim, WithdrawalQueue,
};

verus! {

/// The abstract state of the whole pool: every component's abstract value,
/// plus the two configuration values fixed at construction.
#[verifier::ext_equal]
pub ghost struct PoolView {
    pub ledger: Map<Seq<char>, AccountView>,
    pub total_credit: u128,
    pub validators: Seq<(AccountId, u32)>,
    pub registry: Map<Seq<char>, u32>,
    pub total_weight: u64,
    pub factor: u128,
    pub claims: Map<Seq<char>, Claim>,
    pub ops: Seq<GroupView>,
    pub governance: Seq<char>,
    pub unlock_delay: u64,
}

/// The number of decimal places of the credit token.
pub const CREDIT_DECIMALS: u8 = 18;

/// The liquid-staking pool: the credit ledger, the weighted validator
/// registry, the exchange-rate engine, the withdrawal queue and the
/// pending-operations table, behind the entry points a host shell calls.
///
/// The pool never talks to the host itself: entry points take the caller
/// and the current epoch as arguments, and a deposit or burn hands back the
/// stake or unstake requests for the shell to dispatch, whose results come
/// back through [`StakePool::on_stake_result`].
pub struct StakePool {
    ledger: Ledger,
    registry: ValidatorRegistry,
    scale: ScaleFactor,
    queue: WithdrawalQueue,
    ops: OpTable,
    governance: AccountId,
    unlock_delay: u64,
}

impl View for StakePool {
    type V = PoolView;

    closed spec fn view(&self) -> PoolView {
        PoolView {
            ledger: self.ledger@,
            total_credit: self.ledger.spec_total(),
            validators: self.registry.spec_validators(),
            registry: self.registry@,
            total_weight: self.registry.spec_total_weight(),
            factor: self.scale.spec_factor(),
            claims: self.queue@,
            ops: self.ops@,
            governance: self.governance@,
            unlock_delay: self.unlock_delay,
        }
    }
}

/// The underlying-asset value of `credit` under `factor` (rounded down).
pub open spec fn credit_to_underlying(credit: u128, factor: u128) -> int {
    credit * factor / (SCALE_ONE as int)
}

/// The credit value of `underlying` under `factor` (rounded down); may
/// exceed `u128` when the factor is small.
pub open spec fn underlying_to_credit(underlying: u128, factor: u128) -> int {
    underlying * SCALE_ONE / (factor as int)
}

impl StakePool {
    /// The pool invariant: every component's own invariant.  In particular
    /// the ledger's credit conservation (its total equals the sum of all
    /// balances), the registry's weight sum, the scale factor's range
    /// `1 ..= SCALE_ONE`, the absence of empty claims, and the
    /// pending-table's id discipline hold after every operation.
    pub closed spec fn wf(&self) -> bool {
        &&& self.ledger.wf()
        &&& self.registry.wf()
        &&& self.scale.wf()
        &&& self.queue.wf()
        &&& self.ops.wf()
    }

    /// A fresh pool: empty ledger, registry, queue and table, a scale
    /// factor of one, and the given governance account and unlock delay.
    pub fn new(governance: AccountId, unlock_delay: u64) -> (r: StakePool)
        ensures
            r.wf(),
            r@.ledger == Map::<Seq<char>, AccountView>::empty(),
            r@.total_credit == 0,
            r@.validators == Seq::<(AccountId, u32)>::empty(),
            r@.registry == Map::<Seq<char>, u32>::empty(),
            r@.total_weight == 0,
            r@.factor == SCALE_ONE,
            r@.claims == Map::<Seq<char>, Claim>::empty(),
            r@.ops == Seq::<GroupView>::empty(),
            r@.governance == governance@,
            r@.unlock_delay == unlock_delay,
    {
        StakePool {
            ledger: Ledger::new(),
            registry: ValidatorRegistry::new(),
            scale: ScaleFactor::new(),
            queue: WithdrawalQueue::new(),
            ops: OpTable::new(),
            governance: governance,
            unlock_delay: unlock_delay,
        }
    }

    // -- read-only entry points --

    /// The decimal places of the credit token.
    pub fn decimals(&self) -> (r: u8)
        ensures
            r == CREDIT_DECIMALS,
    {
        CREDIT_DECIMALS
    }

    /// The total credit in circulation.
    pub fn get_total_credit(&self) -> (r: u128)
        ensures
            r == self@.total_credit,
    {
        self.ledger.total_credit()
    }

    /// The total supply in underlying-asset units: the total credit
    /// converted through the scale factor.
    pub fn get_total_supply(&self) -> (r: u128)
        requires
            self.wf(),
        ensures
            r == credit_to_underlying(self@.total_credit, self@.factor),
    {
        self.to_underlying(self.ledger.total_credit())
    }

    /// The raw credit balance of `owner`.
    pub fn get_credit(&self, owner: &AccountId) -> (r: u128)
        requires
            self.wf(),
        ensures
            r == credit_of(self@.ledger, owner@),
    {
        self.ledger.credit_balance(owner)
    }

    /// The balance of `owner` in underlying-asset units.
    pub fn get_balance(&self, owner: &AccountId) -> (r: u128)
        requires
            self.wf(),
        ensures
            r == credit_to_underlying(credit_of(self@.ledger, owner@), self@.factor),
    {
        self.to_underlying(self.ledger.credit_balance(owner))
    }

    /// The allowance `owner` has granted `spender`, in credit units.
    pub fn get_allowance(&self, owner: &AccountId, spender: &AccountId) -> (r: u128)
        requires
            self.wf(),
        ensures
            r == allowance_of(self@.ledger, owner@, spender@),
    {
        self.ledger.allowance(owner, spender)
    }

    /// The current scale factor (`SCALE_ONE` means one-to-one).
    pub fn get_scale_factor(&self) -> (r: u128)
        ensures
            r == self@.factor,
    {
        self.scale.factor()
    }

    /// The full `(validator, weight)` table, in an order that is stable
    /// between mutations but carries no meaning.
    pub fn get_validators(&self) -> (r: Vec<(AccountId, u32)>)
        ensures
            r@ == self@.validators,
    {
        self.registry.get_validators()
    }

    /// The weight registered for `id`, if any.
    pub fn get_validator_ratio(&self, id: &AccountId) -> (r: Option<u32>)
        requires
            self.wf(),
        ensures
            r == if self@.registry.contains_key(id@) {
                Some(self@.registry[id@])
            } else {
                None::<u32>
            },
    {
        self.registry.get_validator_ratio(id)
    }

    /// How many validators are registered.
    pub fn validator_count(&self) -> (n: usize)
        ensures
            n == self@.validators.len(),
    {
        self.registry.validator_count()
    }

    /// The sum of all validator weights.
    pub fn total_weight(&self) -> (r: u64)
        ensures
            r == self@.total_weight,
    {
        self.registry.total_weight()
    }

    /// The pending withdrawal claim of `owner` (zero when none).
    pub fn get_claim(&self, owner: &AccountId) -> (r: Claim)
        requires
            self.wf(),
        ensures
            r == claim_or_none(self@.claims, owner@),
    {
        self.queue.claim_of(owner)
    }

    /// Converts credit to underlying units under the current factor.
    fn to_underlying(&self, credit: u128) -> (r: u128)
        requires
            self.wf(),
        ensures
            r == credit_to_underlying(credit, self@.factor),
    {
        proof {
            self.lemma_wf_scale();
            lemma_mul_div_le(credit as int, self.scale.spec_factor() as int, SCALE_ONE as int);
        }
        match checked_mul_div(credit, self.scale.factor(), SCALE_ONE) {
            Some(v) => v,
            None => {
                proof {
                    assert(false);
                }
                0
            },
        }
    }

    /// Under the pool invariant the factor is a usable divisor.
    proof fn lemma_wf_scale(&self)
        requires
            self.wf(),
        ensures
            1 <= self@.factor <= SCALE_ONE,
    {
        self.scale.lemma_factor_range();
    }

    // -- governance: the registry --

    /// Registers a validator; only the governance account may.
    pub fn add_validator(&mut self, caller: &AccountId, id: &AccountId, weight: u32) -> (r: Result<
        (),
        Error,
    >)
        requires
            old(self).wf(),
        ensures
            final(self).wf(),
            caller@ != old(self)@.governance ==> r == Err::<(), Error>(Error::NotGovernance)
                && final(self)@ == old(self)@,
            caller@ == old(self)@.governance ==> ({
                let t = spec_add_validator(old(self)@.registry, old(self)@.total_weight, id@, weight);
                &&& r == t.0
                &&& final(self)@ == (PoolView {
                    registry: t.1,
                    total_weight: t.2,
                    validators: final(self)@.validators,
                    ..old(self)@
                })
                &&& r is Ok ==> final(self)@.validators == old(self)@.validators.push(
                    (*id, weight),
                )
                &&& r is Err ==> final(self)@.validators == old(self)@.validators
            }),
    {
        if !(*caller == self.governance) {
            return Err(Error::NotGovernance);
        }
        self.registry.add_validator(id, weight)
    }

    /// Unregisters a validator; only the governance account may.
    pub fn remove_validator(&mut self, caller: &AccountId, id: &AccountId) -> (r: Result<
        (),
        Error,
    >)
        requires
            old(self).wf(),
        ensures
            final(self).wf(),
            caller@ != old(self)@.governance ==> r == Err::<(), Error>(Error::NotGovernance)
                && final(self)@ == old(self)@,
            caller@ == old(self)@.governance ==> ({
                let t = spec_remove_validator(old(self)@.registry, old(self)@.total_weight, id@);
                &&& r == t.0
                &&& final(self)@ == (PoolView {
                    registry: t.1,
                    total_weight: t.2,
                    validators: final(self)@.validators,
                    ..old(self)@
                })
                &&& r is Ok ==> final(self)@.validators == old(self)@.validators.remove(
                    crate::idmap::seq_first_index(old(self)@.validators, id@),
                )
                &&& r is Err ==> final(self)@.validators == old(self)@.validators
            }),
    {
        if !(*caller == self.governance) {
            return Err(Error::NotGovernance);
        }
        self.registry.remove_validator(id)
    }

    /// Overwrites a validator's weight; only the governance account may.
    pub fn update_validator(&mut self, caller: &AccountId, id: &AccountId, weight: u32) -> (r:
        Result<(), Error>)
        requires
            old(self).wf(),
        ensures
            final(self).wf(),
            caller@ != old(self)@.governance ==> r == Err::<(), Error>(Error::NotGovernance)
                && final(self)@ == old(self)@,
            caller@ == old(self)@.governance ==> ({
                let t = spec_update_validator(
                    old(self)@.registry,
                    old(self)@.total_weight,
                    id@,
                    weight,
                );
                &&& r == t.0
                &&& final(self)@ == (PoolView {
                    registry: t.1,
                    total_weight: t.2,
                    validators: final(self)@.validators,
                    ..old(self)@
                })
                &&& r is Ok ==> final(self)@.validators == old(self)@.validators.update(
                    crate::idmap::seq_first_index(old(self)@.validators, id@),
                    (*id, weight),
                )
                &&& r is Err ==> final(self)@.validators == old(self)@.validators
            }),
    {
        if !(*caller == self.governance) {
            return Err(Error::NotGovernance);
        }
        self.registry.update_validator(id, weight)
    }

    // -- the ledger --

    /// The caller overwrites the allowance of `spender`, whose name arrives
    /// raw and is validated first; a name the host's rules reject fails
    /// with `InvalidAccount`, and approving oneself with `SelfApproval`.
    pub fn approve(&mut self, caller: &AccountId, spender: String, amount: u128) -> (r: Result<
        (),
        Error,
    >)
        requires
            old(self).wf(),
        ensures
            final(self).wf(),
            !valid_account_seq(spender@) ==> r == Err::<(), Error>(Error::InvalidAccount)
                && final(self)@ == old(self)@,
            valid_account_seq(spender@) ==> ({
                let t = spec_approve(old(self)@.ledger, caller@, spender@, amount);
                &&& r == t.0
                &&& final(self)@ == (PoolView { ledger: t.1, ..old(self)@ })
            }),
    {
        let spender = match AccountId::new(spender) {
            Ok(a) => a,
            Err(e) => {
                return Err(e);
            },
        };
        self.ledger.approve(caller, &spender, amount)
    }

    /// The caller moves `amount` credit to `to`.
    pub fn transfer(&mut self, caller: &AccountId, to: &AccountId, amount: u128) -> (r: Result<
        (),
        Error,
    >)
        requires
            old(self).wf(),
        ensures
            final(self).wf(),
            ({
                let t = spec_transfer(old(self)@.ledger, caller@, caller@, to@, amount);
                &&& r == t.0
                &&& final(self)@ == (PoolView { ledger: t.1, ..old(self)@ })
            }),
    {
        self.ledger.transfer(caller, caller, to, amount)
    }

    /// The caller moves `amount` credit from `from` to `to`, consuming its
    /// allowance when it is not `from` itself.
    pub fn transfer_from(
        &mut self,
        caller: &AccountId,
        from: &AccountId,
        to: &AccountId,
        amount: u128,
    ) -> (r: Result<(), Error>)
        requires
            old(self).wf(),
        ensures
            final(self).wf(),
            ({
                let t = spec_transfer(old(self)@.ledger, caller@, from@, to@, amount);
                &&& r == t.0
                &&& final(self)@ == (PoolView { ledger: t.1, ..old(self)@ })
            }),
    {
        self.ledger.transfer(caller, from, to, amount)
    }

    /// Creates credit worth `amount` underlying units for `target`; only
    /// the governance account may.  The minted credit is
    /// `amount * SCALE_ONE / factor`, rounded down.
    pub fn mint_to(&mut self, caller: &AccountId, amount: u128, target: &AccountId) -> (r: Result<
        (),
        Error,
    >)
        requires
            old(self).wf(),
        ensures
            final(self).wf(),
            caller@ != old(self)@.governance ==> r == Err::<(), Error>(Error::NotGovernance)
                && final(self)@ == old(self)@,
            caller@ == old(self)@.governance && underlying_to_credit(amount, old(self)@.factor)
                > u128::MAX ==> r == Err::<(), Error>(Error::Overflow) && final(self)@ == old(self)@,
            caller@ == old(self)@.governance && underlying_to_credit(amount, old(self)@.factor)
                <= u128::MAX ==> ({
                let credit = underlying_to_credit(amount, old(self)@.factor) as u128;
                let t = spec_mint(old(self)@.ledger, target@, credit, old(self)@.total_credit);
                &&& r == t.0
                &&& final(self)@ == (PoolView { ledger: t.1, total_credit: t.2, ..old(self)@ })
            }),
    {
        if !(*caller == self.governance) {
            return Err(Error::NotGovernance);
        }
        proof {
            self.lemma_wf_scale();
        }
        match checked_mul_div(amount, SCALE_ONE, self.scale.factor()) {
            None => Err(Error::Overflow),
            Some(credit) => self.ledger.mint(target, credit),
        }
    }

    // -- the rebase --

    /// Recomputes the scale factor from the reported total external stake:
    /// the pool's own total (its credit in underlying units) and the report
    /// are compared as a ratio of the smaller to the larger; see
    /// [`spec_rebase`] for the exact formula and the zero guards.
    pub fn on_ping(&mut self, reported_total: u128)
        requires
            old(self).wf(),
        ensures
            final(self).wf(),
            final(self)@ == (PoolView {
                factor: spec_rebase(
                    old(self)@.factor,
                    credit_to_underlying(old(self)@.total_credit, old(self)@.factor) as u128,
                    reported_total,
                ),
                ..old(self)@
            }),
    {
        let local = self.to_underlying(self.ledger.total_credit());
        self.scale.update(local, reported_total);
    }

    // -- asynchronous results --

    /// Records one stake/unstake result for `(op_id, validator)`.  When the
    /// result completes the group, the group's report is returned; for a
    /// completed `Stake` group the pool first credits the depositor with
    /// the confirmed value converted to credit at the current factor.  A
    /// failed entry reverses nothing by itself: the report's `failed` list
    /// is the input for an explicit retry ([`StakePool::retry_failed`]).
    /// (If minting the confirmed value would overflow the total supply the
    /// call reports `Overflow` with the result already recorded; the host
    /// is assumed to roll the whole call back, as for every fatal
    /// overflow.)
    pub fn on_stake_result(&mut self, op_id: u64, validator: &AccountId, success: bool) -> (r:
        Result<Option<GroupReport>, Error>)
        requires
            old(self).wf(),
        ensures
            final(self).wf(),
            (op_id as int) >= old(self)@.ops.len() ==> r == Err::<Option<GroupReport>, Error>(
                Error::UnknownOperation,
            ) && final(self)@ == old(self)@,
            (op_id as int) < old(self)@.ops.len() && !entry_has(
                old(self)@.ops[op_id as int].entries,
                validator@,
            ) ==> r == Err::<Option<GroupReport>, Error>(Error::UnknownOperation) && final(self)@
                == old(self)@,
            (op_id as int) < old(self)@.ops.len() && entry_has(
                old(self)@.ops[op_id as int].entries,
                validator@,
            ) && old(self)@.ops[op_id as int].entries[entry_index(
                old(self)@.ops[op_id as int].entries,
                validator@,
            )].status != OpStatus::Dispatched ==> r == Err::<Option<GroupReport>, Error>(
                Error::OperationAlreadyResolved,
            ) && final(self)@ == old(self)@,
            (op_id as int) < old(self)@.ops.len() && entry_has(
                old(self)@.ops[op_id as int].entries,
                validator@,
            ) && old(self)@.ops[op_id as int].entries[entry_index(
                old(self)@.ops[op_id as int].entries,
                validator@,
            )].status == OpStatus::Dispatched ==> ({
                let g = old(self)@.ops[op_id as int];
                let ei = entry_index(g.entries, validator@);
                let ns = if success {
                    OpStatus::Confirmed
                } else {
                    OpStatus::Failed
                };
                let g2 = (GroupView {
                    entries: g.entries.update(ei, (EntryView { status: ns, ..g.entries[ei] })),
                    ..g
                });
                let newops = old(self)@.ops.update(op_id as int, g2);
                &&& (!group_complete(g2.entries) ==> r == Ok::<Option<GroupReport>, Error>(None)
                    && final(self)@ == (PoolView { ops: newops, ..old(self)@ }))
                &&& (group_complete(g2.entries) ==> ({
                    let conf = confirmed_sum(g2.entries) as u128;
                    let rv = (ReportView {
                        kind: g.kind,
                        owner: g.owner,
                        confirmed_total: conf,
                        failed: failed_pairs(g2.entries),
                    });
                    &&& (g.kind == OpKind::Unstake ==> (r matches Ok(o) && o matches Some(rep)
                        && rep@ == rv) && final(self)@ == (PoolView { ops: newops, ..old(self)@ }))
                    &&& (g.kind == OpKind::Stake ==> ({
                        let credit = underlying_to_credit(conf, old(self)@.factor);
                        &&& (credit > u128::MAX ==> r == Err::<Option<GroupReport>, Error>(
                            Error::Overflow,
                        ) && final(self)@ == (PoolView { ops: newops, ..old(self)@ }))
                        &&& (credit <= u128::MAX ==> ({
                            let t = spec_mint(
                                old(self)@.ledger,
                                g.owner,
                                credit as u128,
                                old(self)@.total_credit,
                            );
                            &&& (t.0 is Err ==> r == Err::<Option<GroupReport>, Error>(
                                Error::Overflow,
                            ) && final(self)@ == (PoolView { ops: newops, ..old(self)@ }))
                            &&& (t.0 is Ok ==> (r matches Ok(o) && o matches Some(rep) && rep@
                                == rv) && final(self)@ == (PoolView {
                                ops: newops,
                                ledger: t.1,
                                total_credit: t.2,
                                ..old(self)@
                            }))
                        }))
                    }))
                }))
            }),
    {
        let ghost prev = *self;
        match self.ops.on_result(op_id, validator, success) {
            Err(e) => Err(e),
            Ok(None) => Ok(None),
            Ok(Some(rep)) => {
                if rep.kind == OpKind::Unstake {
                    return Ok(Some(rep));
                }
                proof {
                    self.lemma_wf_scale();
                }
                match checked_mul_div(rep.confirmed_total, SCALE_ONE, self.scale.factor()) {
                    None => Err(Error::Overflow),
                    Some(credit) => {
                        match self.ledger.mint(&rep.owner, credit) {
                            Err(e) => Err(e),
                            Ok(()) => Ok(Some(rep)),
                        }
                    },
                }
            },
        }
    }

    /// Re-issues the failed part of a completed group as a fresh group
    /// with a new correlation id; see [`OpTable::retry_failed`].  Nothing
    /// outside the pending table changes.
    pub fn retry_failed(&mut self, op_id: u64) -> (r: Result<Vec<StakeRequest>, Error>)
        requires
            old(self).wf(),
        ensures
            final(self).wf(),
            (op_id as int) >= old(self)@.ops.len() ==> r == Err::<Vec<StakeRequest>, Error>(
                Error::UnknownOperation,
            ) && final(self)@ == old(self)@,
            (op_id as int) < old(self)@.ops.len() && !group_complete(
                old(self)@.ops[op_id as int].entries,
            ) ==> r == Err::<Vec<StakeRequest>, Error>(Error::OperationPending) && final(self)@
                == old(self)@,
            (op_id as int) < old(self)@.ops.len() && group_complete(
                old(self)@.ops[op_id as int].entries,
            ) && failed_pairs(old(self)@.ops[op_id as int].entries).len() == 0 ==> (r matches Ok(
                v,
            ) && v@.len() == 0) && final(self)@ == old(self)@,
            (op_id as int) < old(self)@.ops.len() && group_complete(
                old(self)@.ops[op_id as int].entries,
            ) && failed_pairs(old(self)@.ops[op_id as int].entries).len() > 0 ==> ({
                let g = old(self)@.ops[op_id as int];
                let fp = failed_pairs(g.entries);
                &&& final(self)@ == (PoolView {
                    ops: old(self)@.ops.push(
                        (GroupView {
                            op_id: old(self)@.ops.len() as u64,
                            kind: g.kind,
                            owner: g.owner,
                            entries: dispatched_of_pairs(fp),
                        }),
                    ),
                    ..old(self)@
                })
                &&& r matches Ok(reqs)
                &&& (r matches Ok(reqs) ==> reqs@.len() == fp.len() && (forall|i: int|
                    0 <= i < fp.len() ==> (#[trigger] reqs@[i])@ == (RequestView {
                        op_id: old(self)@.ops.len() as u64,
                        validator: fp[i].0,
                        amount: fp[i].1,
                        kind: g.kind,
                    })))
            }),
    {
        self.ops.retry_failed(op_id)
    }

    // -- the withdrawal queue --

    // -- deposits and burns --

    /// Accepts a deposit of `amount` underlying units: splits it across the
    /// registered validators proportionally to weight and opens a `Stake`
    /// group in the pending table, handing back one request per validator
    /// with a positive allocation for the host shell to dispatch.  Nothing
    /// is minted yet: the depositor is credited when the group confirms,
    /// through [`StakePool::on_stake_result`].
    pub fn deposit(&mut self, caller: &AccountId, amount: u128) -> (r: Result<
        Vec<StakeRequest>,
        Error,
    >)
        requires
            old(self).wf(),
        ensures
            final(self).wf(),
            amount == 0 ==> r == Err::<Vec<StakeRequest>, Error>(Error::ZeroAmount) && final(self)@ == old(self)@,
            amount > 0 && old(self)@.total_weight == 0 ==> r == Err::<Vec<StakeRequest>, Error>(
                Error::EmptyValidatorSet,
            ) && final(self)@ == old(self)@,
            amount > 0 && old(self)@.total_weight > 0 ==> ({
                let parts = positive_parts(
                    old(self)@.validators,
                    spec_split(old(self)@.validators, amount, old(self)@.total_weight),
                );
                &&& final(self)@ == (PoolView {
                    ops: old(self)@.ops.push(
                        (GroupView {
                            op_id: old(self)@.ops.len() as u64,
                            kind: OpKind::Stake,
                            owner: caller@,
                            entries: dispatched_of_pairs(parts),
                        }),
                    ),
                    ..old(self)@
                })
                &&& r matches Ok(reqs)
                &&& (r matches Ok(reqs) ==> reqs@.len() == parts.len() && (forall|i: int|
                    0 <= i < parts.len() ==> (#[trigger] reqs@[i])@ == (RequestView {
                        op_id: old(self)@.ops.len() as u64,
                        validator: parts[i].0,
                        amount: parts[i].1,
                        kind: OpKind::Stake,
                    })))
            }),
    {
        if amount == 0 {
            return Err(Error::ZeroAmount);
        }
        let total = self.registry.total_weight();
        if total == 0 {
            return Err(Error::EmptyValidatorSet);
        }
        let ghost prev = *self;
        let (parts, ghost_pp) = self.split_positive(amount, total);
        let owner = caller.clone();
        let reqs = self.ops.create_group(OpKind::Stake, owner, &parts);
        proof {
            assert(dispatched_entries(parts@) =~= dispatched_of_pairs(ghost_pp@));
            assert(final(self)@ == (PoolView {
                ops: prev@.ops.push(
                    (GroupView {
                        op_id: prev@.ops.len() as u64,
                        kind: OpKind::Stake,
                        owner: caller@,
                        entries: dispatched_of_pairs(ghost_pp@),
                    }),
                ),
                ..prev@
            }));
        }
        Ok(reqs)
    }

    /// Splits `amount` by the registry's weights and keeps the validators
    /// with a positive allocation, as owned pairs ready for a new group.
    fn split_positive(&self, amount: u128, total: u64) -> (r: (
        Vec<(AccountId, u128)>,
        Ghost<Seq<(Seq<char>, u128)>>,
    ))
        requires
            self.wf(),
            amount > 0,
            total == self@.total_weight,
            total > 0,
        ensures
            r.1@ == positive_parts(self@.validators, spec_split(self@.validators, amount, total)),
            pairs_match(r.0@, r.1@),
            crate::distributor::pairs_unique(r.0@),
            forall|i: int| 0 <= i < r.0@.len() ==> (#[trigger] r.0@[i]).1 > 0,
            sum_pairs(r.0@) == amount,
    {
        proof {
            self.registry.lemma_total_is_sum();
            self.registry.lemma_validators_unique();
        }
        let vals = self.registry.get_validators();
        let (allocs, ri) = split_amount(amount, &vals, total);
        proof {
            lemma_first_max_unique(vals@, ri as int);
            assert(allocs@ =~= spec_split(vals@, amount, total));
        }
        let n = vals.len();
        let mut parts: Vec<(AccountId, u128)> = Vec::new();
        let mut i: usize = 0;
        while i < n
            invariant
                n == vals@.len(),
                allocs@.len() == n,
                i <= n,
                pairs_match(
                    parts@,
                    positive_parts(
                        vals@.subrange(0, i as int),
                        allocs@.subrange(0, i as int),
                    ),
                ),
            decreases n - i,
        {
            proof {
                let vp1 = vals@.subrange(0, i as int + 1);
                let ap1 = allocs@.subrange(0, i as int + 1);
                assert(vp1.drop_last() =~= vals@.subrange(0, i as int));
                assert(ap1.drop_last() =~= allocs@.subrange(0, i as int));
                assert(vp1.last() == vals@[i as int]);
                assert(ap1.last() == allocs@[i as int]);
            }
            if allocs[i] > 0 {
                parts.push((vals[i].0.clone(), allocs[i]));
            }
            i = i + 1;
        }
        proof {
            assert(vals@.subrange(0, n as int) =~= vals@);
            assert(allocs@.subrange(0, n as int) =~= allocs@);
            lemma_positive_parts_props(vals@, allocs@);
            lemma_pairs_match_sum(parts@, positive_parts(vals@, allocs@));
            let pp = positive_parts(vals@, allocs@);
            assert forall|k1: int, k2: int|
                0 <= k1 < k2 < parts@.len() implies (#[trigger] parts@[k1]).0@ != (
            #[trigger] parts@[k2]).0@ by {
                assert(parts@[k1].0@ == pp[k1].0 && parts@[k2].0@ == pp[k2].0);
            }
        }
        (parts, Ghost(positive_parts(vals@, allocs@)))
    }

    /// Burns `amount` credit of `owner` on behalf of `caller` (consuming
    /// allowance when they differ), dispatches proportional unstake
    /// requests for the burned value in underlying units, and registers a
    /// withdrawal claim for it, unlocked `unlock_delay` epochs from now.
    /// The debit, the dispatch and the claim happen together, before any
    /// result returns; a rejected call changes nothing at all.
    pub fn burn_from(
        &mut self,
        caller: &AccountId,
        owner: &AccountId,
        amount: u128,
        current_epoch: u64,
    ) -> (r: Result<Vec<StakeRequest>, Error>)
        requires
            old(self).wf(),
        ensures
            final(self).wf(),
            amount == 0 ==> r == Err::<Vec<StakeRequest>, Error>(Error::ZeroAmount) && final(self)@ == old(self)@,
            amount > 0 && old(self)@.total_weight == 0 ==> r == Err::<Vec<StakeRequest>, Error>(
                Error::EmptyValidatorSet,
            ) && final(self)@ == old(self)@,
            amount > 0 && old(self)@.total_weight > 0 ==> ({
                let u = credit_to_underlying(amount, old(self)@.factor) as u128;
                let epoch_over = current_epoch + old(self)@.unlock_delay > u64::MAX;
                let claim_over = claim_or_none(old(self)@.claims, owner@).amount + u > u128::MAX;
                &&& (u > 0 && (epoch_over || claim_over) ==> r == Err::<Vec<StakeRequest>, Error>(
                    Error::Overflow,
                ) && final(self)@ == old(self)@)
                &&& (!(u > 0 && (epoch_over || claim_over)) ==> ({
                    let t = spec_burn(
                        old(self)@.ledger,
                        caller@,
                        owner@,
                        amount,
                        old(self)@.total_credit,
                    );
                    &&& (t.0 is Err ==> r == Err::<Vec<StakeRequest>, Error>(
                        t.0->Err_0,
                    ) && final(self)@ == old(self)@)
                    &&& (t.0 is Ok && u == 0 ==> (r matches Ok(reqs) && reqs@.len() == 0 && final(self)@ == (PoolView { ledger: t.1, total_credit: t.2, ..old(self)@ })))
                    &&& (t.0 is Ok && u > 0 ==> ({
                        let parts = positive_parts(
                            old(self)@.validators,
                            spec_split(old(self)@.validators, u, old(self)@.total_weight),
                        );
                        &&& final(self)@ == (PoolView {
                            ledger: t.1,
                            total_credit: t.2,
                            claims: spec_register_claim(
                                old(self)@.claims,
                                owner@,
                                u,
                                current_epoch,
                                old(self)@.unlock_delay,
                            ).1,
                            ops: old(self)@.ops.push(
                                (GroupView {
                                    op_id: old(self)@.ops.len() as u64,
                                    kind: OpKind::Unstake,
                                    owner: owner@,
                                    entries: dispatched_of_pairs(parts),
                                }),
                            ),
                            ..old(self)@
                        })
                        &&& r matches Ok(reqs)
                        &&& (r matches Ok(reqs) ==> reqs@.len() == parts.len() && (forall|i: int|
                            0 <= i < parts.len() ==> (#[trigger] reqs@[i])@ == (RequestView {
                                op_id: old(self)@.ops.len() as u64,
                                validator: parts[i].0,
                                amount: parts[i].1,
                                kind: OpKind::Unstake,
                            })))
                    }))
                }))
            }),
    {
        if amount == 0 {
            return Err(Error::ZeroAmount);
        }
        let total = self.registry.total_weight();
        if total == 0 {
            return Err(Error::EmptyValidatorSet);
        }
        let u = self.to_underlying(amount);
        if u > 0 {
            if current_epoch.checked_add(self.unlock_delay).is_none() {
                return Err(Error::Overflow);
            }
            let existing = self.queue.claim_of(owner);
            if existing.amount.checked_add(u).is_none() {
                return Err(Error::Overflow);
            }
        }
        let ghost prev = *self;
        match self.ledger.burn(caller, owner, amount) {
            Err(e) => Err(e),
            Ok(()) => {
                if u == 0 {
                    return Ok(Vec::new());
                }
                let (parts, ghost_pp) = self.split_positive(u, total);
                let gowner = owner.clone();
                let reqs = self.ops.create_group(OpKind::Unstake, gowner, &parts);
                let rc = self.queue.register_claim(
                    owner,
                    u,
                    current_epoch,
                    self.unlock_delay,
                );
                proof {
                    assert(rc is Ok);
                    assert(dispatched_entries(parts@) =~= dispatched_of_pairs(ghost_pp@));
                }
                Ok(reqs)
            },
        }
    }

    /// The caller burns its own credit; see [`StakePool::burn_from`].
    pub fn burn(&mut self, caller: &AccountId, amount: u128, current_epoch: u64) -> (r: Result<
        Vec<StakeRequest>,
        Error,
    >)
        requires
            old(self).wf(),
        ensures
            final(self).wf(),
            amount == 0 ==> r == Err::<Vec<StakeRequest>, Error>(Error::ZeroAmount) && final(self)@ == old(self)@,
            amount > 0 && old(self)@.total_weight == 0 ==> r == Err::<Vec<StakeRequest>, Error>(
                Error::EmptyValidatorSet,
            ) && final(self)@ == old(self)@,
            amount > 0 && old(self)@.total_weight > 0 ==> ({
                let u = credit_to_underlying(amount, old(self)@.factor) as u128;
                let epoch_over = current_epoch + old(self)@.unlock_delay > u64::MAX;
                let claim_over = claim_or_none(old(self)@.claims, caller@).amount + u
                    > u128::MAX;
                &&& (u > 0 && (epoch_over || claim_over) ==> r == Err::<Vec<StakeRequest>, Error>(
                    Error::Overflow,
                ) && final(self)@ == old(self)@)
                &&& (!(u > 0 && (epoch_over || claim_over)) ==> ({
                    let t = spec_burn(
                        old(self)@.ledger,
                        caller@,
                        caller@,
                        amount,
                        old(self)@.total_credit,
                    );
                    &&& (t.0 is Err ==> r == Err::<Vec<StakeRequest>, Error>(
                        t.0->Err_0,
                    ) && final(self)@ == old(self)@)
                    &&& (t.0 is Ok && u == 0 ==> (r matches Ok(reqs) && reqs@.len() == 0 && final(self)@ == (PoolView { ledger: t.1, total_credit: t.2, ..old(self)@ })))
                    &&& (t.0 is Ok && u > 0 ==> ({
                        let parts = positive_parts(
                            old(self)@.validators,
                            spec_split(old(self)@.validators, u, old(self)@.total_weight),
                        );
                        &&& final(self)@ == (PoolView {
                            ledger: t.1,
                            total_credit: t.2,
                            claims: spec_register_claim(
                                old(self)@.claims,
                                caller@,
                                u,
                                current_epoch,
                                old(self)@.unlock_delay,
                            ).1,
                            ops: old(self)@.ops.push(
                                (GroupView {
                                    op_id: old(self)@.ops.len() as u64,
                                    kind: OpKind::Unstake,
                                    owner: caller@,
                                    entries: dispatched_of_pairs(parts),
                                }),
                            ),
                            ..old(self)@
                        })
                        &&& r matches Ok(reqs)
                        &&& (r matches Ok(reqs) ==> reqs@.len() == parts.len() && (forall|i: int|
                            0 <= i < parts.len() ==> (#[trigger] reqs@[i])@ == (RequestView {
                                op_id: old(self)@.ops.len() as u64,
                                validator: parts[i].0,
                                amount: parts[i].1,
                                kind: OpKind::Unstake,
                            })))
                    }))
                }))
            }),
    {
        self.burn_from(caller, caller, amount, current_epoch)
    }

    /// Releases the caller's full claim once its unlock epoch has been
    /// reached, removing it; the returned amount is what the host shell
    /// must pay out.
    pub fn withdraw(&mut self, caller: &AccountId, current_epoch: u64) -> (r: Result<u128, Error>)
        requires
            old(self).wf(),
        ensures
            final(self).wf(),
            ({
                let t = spec_release(old(self)@.claims, caller@, current_epoch);
                &&& r == t.0
                &&& final(self)@ == (PoolView { claims: t.1, ..old(self)@ })
            }),
    {
        self.queue.release(caller, current_epoch)
    }
}

} // verus!
