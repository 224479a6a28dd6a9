use vstd::prelude::*;

use crate::account::AccountId;
use crate::errors::Error;
use crate::idmap::IdMap;

verus! {

// ---------------------------------------------------------------------------
// Weight sums
// ---------------------------------------------------------------------------

/// The sum of the weights stored in `s`.
pub open spec fn sum_weights(s: Seq<(AccountId, u32)>) -> int
    decreases s.len(),
{
    if s.len() == 0 {
        0
    } else {
        sum_weights(s.drop_last()) + s.last().1
    }
}

pub proof fn lemma_weights_nonneg(s: Seq<(AccountId, u32)>)
    ensures
        sum_weights(s) >= 0,
    decreases s.len(),
{
    if s.len() > 0 {
        lemma_weights_nonneg(s.drop_last());
    }
}

pub proof fn lemma_weights_push(s: Seq<(AccountId, u32)>, p: (AccountId, u32))
    ensures
        sum_weights(s.push(p)) == sum_weights(s) + p.1,
{
    assert(s.push(p).drop_last() =~= s);
    assert(s.push(p).last() == p);
}

pub proof fn lemma_weights_update(s: Seq<(AccountId, u32)>, i: int, p: (AccountId, u32))
    requires
        0 <= i < s.len(),
    ensures
        sum_weights(s.update(i, p)) == sum_weights(s) - s[i].1 + p.1,
    decreases s.len(),
{
    let t = s.update(i, p);
    if i == s.len() - 1 {
        assert(t.drop_last() =~= s.drop_last());
        assert(t.last() == p);
    } else {
        assert(t.drop_last() =~= s.drop_last().update(i, p));
        assert(t.last() == s.last());
        lemma_weights_update(s.drop_last(), i, p);
    }
}

pub proof fn lemma_weights_remove(s: Seq<(AccountId, u32)>, i: int)
    requires
        0 <= i < s.len(),
    ensures
        sum_weights(s.remove(i)) == sum_weights(s) - s[i].1,
    decreases s.len(),
{
    let t = s.remove(i);
    if i == s.len() - 1 {
        assert(t =~= s.drop_last());
    } else {
        assert(t.drop_last() =~= s.drop_last().remove(i));
        assert(t.last() == s.last());
        lemma_weights_remove(s.drop_last(), i);
    }
}

/// Each stored weight is at most the sum of all of them.
pub proof fn lemma_weights_element(s: Seq<(AccountId, u32)>, i: int)
    requires
        0 <= i < s.len(),
    ensures
        sum_weights(s) >= s[i].1,
    decreases s.len(),
{
    if i == s.len() - 1 {
        lemma_weights_nonneg(s.drop_last());
    } else {
        lemma_weights_element(s.drop_last(), i);
    }
}

// ---------------------------------------------------------------------------
// Transitions
// ---------------------------------------------------------------------------

/// What `add_validator` decides and does: a new id with its weight; adding
/// an id that is already present fails with `DuplicateValidator`, and a
/// weight that would push the total beyond its type fails with `Overflow`.
pub open spec fn spec_add_validator(
    m: Map<Seq<char>, u32>,
    total: u64,
    id: Seq<char>,
    weight: u32,
) -> (Result<(), Error>, Map<Seq<char>, u32>, u64) {
    if m.contains_key(id) {
        (Err(Error::DuplicateValidator), m, total)
    } else if total + weight > u64::MAX {
        (Err(Error::Overflow), m, total)
    } else {
        (Ok(()), m.insert(id, weight), (total + weight) as u64)
    }
}

/// What `remove_validator` decides and does: removing an id that is absent
/// fails with `UnknownValidator`.  (Under the registry invariant the removed
/// weight is part of the total, so the subtraction is exact.)
pub open spec fn spec_remove_validator(
    m: Map<Seq<char>, u32>,
    total: u64,
    id: Seq<char>,
) -> (Result<(), Error>, Map<Seq<char>, u32>, u64) {
    if !m.contains_key(id) {
        (Err(Error::UnknownValidator), m, total)
    } else {
        (Ok(()), m.remove(id), (total - m[id]) as u64)
    }
}

/// What `update_validator` decides and does: overwrites the weight of an id
/// that must already be present; the id set is untouched.
pub open spec fn spec_update_validator(
    m: Map<Seq<char>, u32>,
    total: u64,
    id: Seq<char>,
    weight: u32,
) -> (Result<(), Error>, Map<Seq<char>, u32>, u64) {
    if !m.contains_key(id) {
        (Err(Error::UnknownValidator), m, total)
    } else if total - m[id] + weight > u64::MAX {
        (Err(Error::Overflow), m, total)
    } else {
        (Ok(()), m.insert(id, weight), (total - m[id] + weight) as u64)
    }
}

// ---------------------------------------------------------------------------
// The registry
// ---------------------------------------------------------------------------

/// The weighted validator table: governance-supplied ids, each with an
/// integer weight that the distributor uses as the numerator of its
/// proportional split.  `total_weight` is kept equal to the sum of all
/// stored weights.
pub struct ValidatorRegistry {
    validators: IdMap<u32>,
    total_weight: u64,
}

impl View for ValidatorRegistry {
    type V = Map<Seq<char>, u32>;

    closed spec fn view(&self) -> Map<Seq<char>, u32> {
        self.validators@
    }
}

impl ValidatorRegistry {
    /// The stored `(id, weight)` pairs, in storage order.
    pub closed spec fn spec_validators(&self) -> Seq<(AccountId, u32)> {
        self.validators.kvs()
    }

    /// The sum of all stored weights.
    pub closed spec fn spec_total_weight(&self) -> u64 {
        self.total_weight
    }

    /// The registry invariant: ids are unique and `total_weight` is the sum
    /// of the stored weights.
    pub closed spec fn wf(&self) -> bool {
        &&& self.validators.wf()
        &&& self.total_weight == sum_weights(self.validators.kvs())
    }

    /// Under the invariant the cached total is the sum of the table.
    pub proof fn lemma_total_is_sum(&self)
        requires
            self.wf(),
        ensures
            self.spec_total_weight() as int == sum_weights(self.spec_validators()),
    {
    }

    /// Under the invariant the stored ids are pairwise distinct.
    pub proof fn lemma_validators_unique(&self)
        requires
            self.wf(),
        ensures
            forall|i: int, j: int|
                0 <= i < j < self.spec_validators().len() ==> (
                #[trigger] self.spec_validators()[i]).0@ != (
                #[trigger] self.spec_validators()[j]).0@,
    {
    }

    pub fn new() -> (r: ValidatorRegistry)
        ensures
            r.wf(),
            r@ == Map::<Seq<char>, u32>::empty(),
            r.spec_validators() == Seq::<(AccountId, u32)>::empty(),
            r.spec_total_weight() == 0,
    {
        ValidatorRegistry { validators: IdMap::new(), total_weight: 0 }
    }

    /// How many validators are registered.
    pub fn validator_count(&self) -> (n: usize)
        ensures
            n == self.spec_validators().len(),
    {
        self.validators.len()
    }

    /// The sum of all weights; a caller that wants to split by weight must
    /// treat zero as an empty validator set.
    pub fn total_weight(&self) -> (r: u64)
        ensures
            r == self.spec_total_weight(),
    {
        self.total_weight
    }

    /// The weight registered for `id`, if any.
    pub fn get_validator_ratio(&self, id: &AccountId) -> (r: Option<u32>)
        requires
            self.wf(),
        ensures
            r == if self@.contains_key(id@) {
                Some(self@[id@])
            } else {
                None::<u32>
            },
    {
        match self.validators.get(id) {
            Some(w) => Some(*w),
            None => None,
        }
    }

    /// A copy of the full `(id, weight)` table, in storage order.  The order
    /// is stable between mutations but carries no meaning.
    pub fn get_validators(&self) -> (r: Vec<(AccountId, u32)>)
        ensures
            r@ == self.spec_validators(),
    {
        let n = self.validators.len();
        let mut out: Vec<(AccountId, u32)> = Vec::new();
        let mut i: usize = 0;
        while i < n
            invariant
                n == self.spec_validators().len(),
                i <= n,
                out@.len() == i,
                forall|j: int| 0 <= j < i ==> out@[j] == self.spec_validators()[j],
            decreases n - i,
        {
            let key = self.validators.key_at(i).clone();
            let w = *self.validators.value_at(i);
            out.push((key, w));
            i = i + 1;
        }
        proof {
            assert(out@ =~= self.spec_validators());
        }
        out
    }

    /// Registers `id` with `weight`.
    pub fn add_validator(&mut self, id: &AccountId, weight: u32) -> (r: Result<(), Error>)
        requires
            old(self).wf(),
        ensures
            final(self).wf(),
            r == spec_add_validator(old(self)@, old(self).spec_total_weight(), id@, weight).0,
            final(self)@ == spec_add_validator(
                old(self)@,
                old(self).spec_total_weight(),
                id@,
                weight,
            ).1,
            final(self).spec_total_weight() == spec_add_validator(
                old(self)@,
                old(self).spec_total_weight(),
                id@,
                weight,
            ).2,
            r is Ok ==> final(self).spec_validators() == old(self).spec_validators().push(
                (*id, weight),
            ),
            r is Err ==> final(self).spec_validators() == old(self).spec_validators(),
    {
        let ghost prev = *self;
        if self.validators.contains(id) {
            return Err(Error::DuplicateValidator);
        }
        match self.total_weight.checked_add(weight as u64) {
            None => Err(Error::Overflow),
            Some(nt) => {
                let key = id.clone();
                let ghost gkey = key;
                self.validators.insert(key, weight);
                self.total_weight = nt;
                proof {
                    crate::registry::lemma_weights_push(prev.validators.kvs(), (gkey, weight));
                }
                Ok(())
            },
        }
    }

    /// Unregisters `id`.
    pub fn remove_validator(&mut self, id: &AccountId) -> (r: Result<(), Error>)
        requires
            old(self).wf(),
        ensures
            final(self).wf(),
            r == spec_remove_validator(old(self)@, old(self).spec_total_weight(), id@).0,
            final(self)@ == spec_remove_validator(
                old(self)@,
                old(self).spec_total_weight(),
                id@,
            ).1,
            final(self).spec_total_weight() == spec_remove_validator(
                old(self)@,
                old(self).spec_total_weight(),
                id@,
            ).2,
            r is Ok ==> final(self).spec_validators() == old(self).spec_validators().remove(
                crate::idmap::seq_first_index(old(self).spec_validators(), id@),
            ),
            r is Err ==> final(self).spec_validators() == old(self).spec_validators(),
    {
        let ghost prev = *self;
        match self.validators.get(id) {
            None => Err(Error::UnknownValidator),
            Some(w) => {
                let w = *w;
                proof {
                    crate::idmap::lemma_seq_first_index(prev.validators.kvs(), id@);
                    let i = prev.validators.index_of(id@);
                    prev.validators.lemma_kvs_view(i);
                    lemma_weights_element(prev.validators.kvs(), i);
                    lemma_weights_remove(prev.validators.kvs(), i);
                }
                let _ = self.validators.remove(id);
                self.total_weight = self.total_weight - (w as u64);
                Ok(())
            },
        }
    }

    /// Overwrites the weight of `id`.
    pub fn update_validator(&mut self, id: &AccountId, weight: u32) -> (r: Result<(), Error>)
        requires
            old(self).wf(),
        ensures
            final(self).wf(),
            r == spec_update_validator(old(self)@, old(self).spec_total_weight(), id@, weight).0,
            final(self)@ == spec_update_validator(
                old(self)@,
                old(self).spec_total_weight(),
                id@,
                weight,
            ).1,
            final(self).spec_total_weight() == spec_update_validator(
                old(self)@,
                old(self).spec_total_weight(),
                id@,
                weight,
            ).2,
            r is Ok ==> final(self).spec_validators() == old(self).spec_validators().update(
                crate::idmap::seq_first_index(old(self).spec_validators(), id@),
                (*id, weight),
            ),
            r is Err ==> final(self).spec_validators() == old(self).spec_validators(),
    {
        let ghost prev = *self;
        match self.validators.get(id) {
            None => Err(Error::UnknownValidator),
            Some(w0) => {
                let w0 = *w0;
                proof {
                    crate::idmap::lemma_seq_first_index(prev.validators.kvs(), id@);
                    let i = prev.validators.index_of(id@);
                    prev.validators.lemma_kvs_view(i);
                    lemma_weights_element(prev.validators.kvs(), i);
                }
                let rest = self.total_weight - (w0 as u64);
                match rest.checked_add(weight as u64) {
                    None => Err(Error::Overflow),
                    Some(nt) => {
                        let key = id.clone();
                        let ghost gkey = key;
                        self.validators.insert(key, weight);
                        self.total_weight = nt;
                        proof {
                            let i = prev.validators.index_of(id@);
                            lemma_weights_update(prev.validators.kvs(), i, (gkey, weight));
                        }
                        Ok(())
                    },
                }
            },
        }
    }
}

/// Registering the same id twice fails the second time with
/// `DuplicateValidator`, whatever either weight, and the second call changes
/// nothing.
pub proof fn lemma_duplicate_add_fails(
    m: Map<Seq<char>, u32>,
    total: u64,
    id: Seq<char>,
    w1: u32,
    w2: u32,
)
    requires
        spec_add_validator(m, total, id, w1).0 is Ok,
    ensures
        spec_add_validator(
            spec_add_validator(m, total, id, w1).1,
            spec_add_validator(m, total, id, w1).2,
            id,
            w2,
        ) == (
            Err::<(), Error>(Error::DuplicateValidator),
            spec_add_validator(m, total, id, w1).1,
            spec_add_validator(m, total, id, w1).2,
        ),
{
}

/// Unregistering an id that was never added fails with `UnknownValidator`
/// and changes nothing.
pub proof fn lemma_remove_unknown_fails(m: Map<Seq<char>, u32>, total: u64, id: Seq<char>)
    requires
        !m.contains_key(id),
    ensures
        spec_remove_validator(m, total, id) == (
            Err::<(), Error>(Error::UnknownValidator),
            m,
            total,
        ),
{
}

} // verus!
