use vstd::prelude::*;

use crate::account::AccountId;
use crate::errors::Error;
use crate::idmap::IdMap;

verus! {

/// A burn-derived claim: the amount owed to an owner and the epoch from
/// which it may be released.
#[derive(Clone, Copy, Debug, PartialEq, Eq, Structural)]
pub struct Claim {
    pub amount: u128,
    pub unlock_epoch: u64,
}

/// The claim an absent queue entry stands for.
pub open spec fn no_claim() -> Claim {
    Claim { amount: 0, unlock_epoch: 0 }
}

/// The claim stored for `k`, or the empty claim when none is.
pub open spec fn claim_or_none(m: Map<Seq<char>, Claim>, k: Seq<char>) -> Claim {
    if m.contains_key(k) {
        m[k]
    } else {
        no_claim()
    }
}

/// What `register_claim` decides and does: `amount` joins the owner's
/// existing claim (a fresh one when none exists), and the unlock epoch
/// becomes the later of the existing one and `current_epoch + unlock_delay`.
/// Only arithmetic past the integer types is rejected.
pub open spec fn spec_register_claim(
    m: Map<Seq<char>, Claim>,
    owner: Seq<char>,
    amount: u128,
    current_epoch: u64,
    unlock_delay: u64,
) -> (Result<(), Error>, Map<Seq<char>, Claim>) {
    let c = claim_or_none(m, owner);
    if c.amount + amount > u128::MAX {
        (Err(Error::Overflow), m)
    } else if current_epoch + unlock_delay > u64::MAX {
        (Err(Error::Overflow), m)
    } else {
        let unlock: u64 = if c.unlock_epoch >= (current_epoch + unlock_delay) as u64 {
            c.unlock_epoch
        } else {
            (current_epoch + unlock_delay) as u64
        };
        let na = (c.amount + amount) as u128;
        if na == 0 {
            (Ok(()), m)
        } else {
            (Ok(()), m.insert(owner, Claim { amount: na, unlock_epoch: unlock }))
        }
    }
}

/// What `release` decides and does: before the unlock epoch it fails with
/// `NotYetUnlocked`; from the unlock epoch on it hands out the full claim
/// and removes it, so a second release finds no claim and fails.
pub open spec fn spec_release(m: Map<Seq<char>, Claim>, owner: Seq<char>, current_epoch: u64) -> (
    Result<u128, Error>,
    Map<Seq<char>, Claim>,
) {
    if !m.contains_key(owner) {
        (Err(Error::NoClaim), m)
    } else if current_epoch < m[owner].unlock_epoch {
        (Err(Error::NotYetUnlocked), m)
    } else {
        (Ok(m[owner].amount), m.remove(owner))
    }
}

/// The delayed-withdrawal queue: one claim per owner, accumulated across
/// burns and released in full once its unlock epoch has been reached.
pub struct WithdrawalQueue {
    claims: IdMap<Claim>,
}

impl View for WithdrawalQueue {
    type V = Map<Seq<char>, Claim>;

    closed spec fn view(&self) -> Map<Seq<char>, Claim> {
        self.claims@
    }
}

impl WithdrawalQueue {
    /// The queue invariant: owners are unique and no stored claim is empty
    /// (a claim is removed the moment its amount reaches zero).
    pub closed spec fn wf(&self) -> bool {
        &&& self.claims.wf()
        &&& forall|i: int|
            0 <= i < self.claims.kvs().len() ==> (#[trigger] self.claims.kvs()[i]).1.amount > 0
    }

    pub fn new() -> (r: WithdrawalQueue)
        ensures
            r.wf(),
            r@ == Map::<Seq<char>, Claim>::empty(),
    {
        WithdrawalQueue { claims: IdMap::new() }
    }

    /// The claim stored for `owner`, or the empty claim.
    pub fn claim_of(&self, owner: &AccountId) -> (r: Claim)
        requires
            self.wf(),
        ensures
            r == claim_or_none(self@, owner@),
    {
        match self.claims.get(owner) {
            Some(c) => *c,
            None => Claim { amount: 0, unlock_epoch: 0 },
        }
    }

    /// Adds `amount` to the owner's claim and pushes its unlock epoch to
    /// `current_epoch + unlock_delay` if that is later than it already is.
    pub fn register_claim(
        &mut self,
        owner: &AccountId,
        amount: u128,
        current_epoch: u64,
        unlock_delay: u64,
    ) -> (r: Result<(), Error>)
        requires
            old(self).wf(),
        ensures
            final(self).wf(),
            r == spec_register_claim(old(self)@, owner@, amount, current_epoch, unlock_delay).0,
            final(self)@ == spec_register_claim(
                old(self)@,
                owner@,
                amount,
                current_epoch,
                unlock_delay,
            ).1,
    {
        let c = self.claim_of(owner);
        match c.amount.checked_add(amount) {
            None => Err(Error::Overflow),
            Some(na) => {
                match current_epoch.checked_add(unlock_delay) {
                    None => Err(Error::Overflow),
                    Some(fresh_unlock) => {
                        let unlock = if c.unlock_epoch >= fresh_unlock {
                            c.unlock_epoch
                        } else {
                            fresh_unlock
                        };
                        if na == 0 {
                            return Ok(());
                        }
                        let ghost prev = *self;
                        self.claims.insert(
                            owner.clone(),
                            Claim { amount: na, unlock_epoch: unlock },
                        );
                        proof {
                            assert forall|i: int|
                                0 <= i < self.claims.kvs().len() implies (
                            #[trigger] self.claims.kvs()[i]).1.amount > 0 by {
                                if prev.claims.has_key(owner@) {
                                    let w = prev.claims.index_of(owner@);
                                    crate::idmap::lemma_seq_first_index(
                                        prev.claims.kvs(),
                                        owner@,
                                    );
                                    if i != w {
                                        assert(self.claims.kvs()[i] == prev.claims.kvs()[i]);
                                    }
                                } else {
                                    if i < prev.claims.kvs().len() {
                                        assert(self.claims.kvs()[i] == prev.claims.kvs()[i]);
                                    }
                                }
                            }
                        }
                        Ok(())
                    },
                }
            },
        }
    }

    /// Hands out the owner's full claim and removes it, once the current
    /// epoch has reached the claim's unlock epoch.
    pub fn release(&mut self, owner: &AccountId, current_epoch: u64) -> (r: Result<u128, Error>)
        requires
            old(self).wf(),
        ensures
            final(self).wf(),
            r == spec_release(old(self)@, owner@, current_epoch).0,
            final(self)@ == spec_release(old(self)@, owner@, current_epoch).1,
    {
        match self.claims.get(owner) {
            None => Err(Error::NoClaim),
            Some(c) => {
                let c = *c;
                if current_epoch < c.unlock_epoch {
                    return Err(Error::NotYetUnlocked);
                }
                let ghost prev = *self;
                let _ = self.claims.remove(owner);
                proof {
                    let w = prev.claims.index_of(owner@);
                    crate::idmap::lemma_seq_first_index(prev.claims.kvs(), owner@);
                    assert forall|i: int|
                        0 <= i < self.claims.kvs().len() implies (
                    #[trigger] self.claims.kvs()[i]).1.amount > 0 by {
                        if i < w {
                            assert(self.claims.kvs()[i] == prev.claims.kvs()[i]);
                        } else {
                            assert(self.claims.kvs()[i] == prev.claims.kvs()[i + 1]);
                        }
                    }
                }
                Ok(c.amount)
            },
        }
    }
}

/// Claims accumulate: registering `a1` and then `a2` for the same owner,
/// before anything is released, leaves one claim for their sum, unlocked at
/// the later of the two computed unlock epochs (each already no earlier
/// than any unlock the owner had before).
pub proof fn lemma_claims_accumulate(
    m: Map<Seq<char>, Claim>,
    owner: Seq<char>,
    a1: u128,
    a2: u128,
    e1: u64,
    d1: u64,
    e2: u64,
    d2: u64,
)
    requires
        a1 > 0,
        claim_or_none(m, owner).amount + a1 + a2 <= u128::MAX,
        e1 + d1 <= u64::MAX,
        e2 + d2 <= u64::MAX,
    ensures
        ({
            let first = spec_register_claim(m, owner, a1, e1, d1);
            let second = spec_register_claim(first.1, owner, a2, e2, d2);
            &&& first.0 == Ok::<(), Error>(())
            &&& second.0 == Ok::<(), Error>(())
            &&& claim_or_none(second.1, owner).amount == claim_or_none(m, owner).amount + a1 + a2
            &&& claim_or_none(second.1, owner).unlock_epoch == spec_max_u64(
                spec_max_u64(claim_or_none(m, owner).unlock_epoch, (e1 + d1) as u64),
                (e2 + d2) as u64,
            )
        }),
{
}

/// The later of two epochs.
pub open spec fn spec_max_u64(a: u64, b: u64) -> u64 {
    if a >= b {
        a
    } else {
        b
    }
}

/// A claim is released exactly once: at or after its unlock epoch the
/// release succeeds with the full amount and removes the claim, and every
/// later release for the same owner — at any epoch — fails with `NoClaim`
/// until a new claim is registered.
pub proof fn lemma_release_exactly_once(m: Map<Seq<char>, Claim>, owner: Seq<char>, epoch: u64)
    requires
        m.contains_key(owner),
        epoch >= m[owner].unlock_epoch,
    ensures
        spec_release(m, owner, epoch).0 == Ok::<u128, Error>(m[owner].amount),
        !spec_release(m, owner, epoch).1.contains_key(owner),
        forall|e2: u64|
            spec_release(spec_release(m, owner, epoch).1, owner, e2).0 == Err::<u128, Error>(
                Error::NoClaim,
            ),
{
}

/// Before the unlock epoch a release fails with `NotYetUnlocked` and the
/// claim stays exactly as it was.
pub proof fn lemma_release_too_early(m: Map<Seq<char>, Claim>, owner: Seq<char>, epoch: u64)
    requires
        m.contains_key(owner),
        epoch < m[owner].unlock_epoch,
    ensures
        spec_release(m, owner, epoch) == (Err::<u128, Error>(Error::NotYetUnlocked), m),
{
}

} // verus!
