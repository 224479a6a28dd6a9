use vstd::prelude::*;
use vstd::map::*;

use crate::account::AccountId;

verus! {

/// Some pair of `s` carries the name `k`.
pub open spec fn seq_has_key<T>(s: Seq<(AccountId, T)>, k: Seq<char>) -> bool {
    exists|i: int| 0 <= i < s.len() && (#[trigger] s[i]).0@ == k
}

/// The position of the first pair of `s` carrying the name `k`; one past the
/// end when there is none.
pub open spec fn seq_first_index<T>(s: Seq<(AccountId, T)>, k: Seq<char>) -> int
    decreases s.len(),
{
    if s.len() == 0 {
        0
    } else if s[0].0@ == k {
        0
    } else {
        1 + seq_first_index(s.drop_first(), k)
    }
}

/// When some pair carries `k`, `seq_first_index` points at the first one.
pub proof fn lemma_seq_first_index<T>(s: Seq<(AccountId, T)>, k: Seq<char>)
    requires
        seq_has_key(s, k),
    ensures
        0 <= seq_first_index(s, k) < s.len(),
        s[seq_first_index(s, k)].0@ == k,
        forall|j: int| 0 <= j < seq_first_index(s, k) ==> (#[trigger] s[j]).0@ != k,
    decreases s.len(),
{
    if s[0].0@ == k {
    } else {
        let w = choose|i: int| 0 <= i < s.len() && (#[trigger] s[i]).0@ == k;
        assert(s.drop_first()[w - 1].0@ == k);
        assert(seq_has_key(s.drop_first(), k));
        lemma_seq_first_index(s.drop_first(), k);
        assert forall|j: int| 0 <= j < seq_first_index(s, k) implies (#[trigger] s[j]).0@ != k by {
            if j > 0 {
                assert(s.drop_first()[j - 1] == s[j]);
            }
        }
    }
}

/// An association list from account names to values of type `T`, with unique
/// keys.  Every keyed table of the pool (balances, allowances, validator
/// weights, withdrawal claims) is built on it.
///
/// Its abstract value is a `Map<Seq<char>, T>`; [`IdMap::kvs`] additionally
/// exposes the stored pairs in storage order for callers that iterate or sum
/// over the entries.
pub struct IdMap<T> {
    pairs: Vec<(AccountId, T)>,
}

impl<T> View for IdMap<T> {
    type V = Map<Seq<char>, T>;

    open spec fn view(&self) -> Map<Seq<char>, T> {
        Map::new(|k: Seq<char>| self.has_key(k), |k: Seq<char>| self.kvs()[self.index_of(k)].1)
    }
}

impl<T> IdMap<T> {
    /// The stored pairs, in storage order.
    pub closed spec fn kvs(&self) -> Seq<(AccountId, T)> {
        self.pairs@
    }

    /// No two stored pairs carry the same account name.
    pub open spec fn wf(&self) -> bool {
        forall|i: int, j: int|
            0 <= i < j < self.kvs().len() ==> (#[trigger] self.kvs()[i]).0@ != (
            #[trigger] self.kvs()[j]).0@
    }

    /// Some stored pair carries the name `k`.
    pub open spec fn has_key(&self, k: Seq<char>) -> bool {
        seq_has_key(self.kvs(), k)
    }

    /// The position of the first pair carrying `k`; meaningful only when
    /// `has_key(k)` holds.
    pub open spec fn index_of(&self, k: Seq<char>) -> int {
        seq_first_index(self.kvs(), k)
    }

    /// Under `wf`, the pair at any position is the one `index_of` finds for
    /// its own name, and it is what the map view stores for that name.
    pub proof fn lemma_kvs_view(&self, i: int)
        requires
            self.wf(),
            0 <= i < self.kvs().len(),
        ensures
            self.has_key(self.kvs()[i].0@),
            self.index_of(self.kvs()[i].0@) == i,
            self@.contains_key(self.kvs()[i].0@),
            self@[self.kvs()[i].0@] == self.kvs()[i].1,
    {
        let k = self.kvs()[i].0@;
        assert(self.has_key(k));
        lemma_seq_first_index(self.kvs(), k);
        let j = self.index_of(k);
        if i != j {
            assert(self.kvs()[i].0@ != self.kvs()[j].0@);
        }
    }

    /// Two maps with the same stored pairs have the same abstract value.
    pub proof fn lemma_same_kvs_same_view(&self, other: &Self)
        requires
            self.kvs() == other.kvs(),
        ensures
            self@ == other@,
    {
        assert_maps_equal!(self@, other@, key => {});
    }

    pub fn new() -> (r: Self)
        ensures
            r.wf(),
            r.kvs() == Seq::<(AccountId, T)>::empty(),
            r@ == Map::<Seq<char>, T>::empty(),
    {
        let r = IdMap { pairs: Vec::new() };
        proof {
            assert_maps_equal!(r@, Map::<Seq<char>, T>::empty(), key => {});
        }
        r
    }

    pub fn len(&self) -> (n: usize)
        ensures
            n == self.kvs().len(),
    {
        self.pairs.len()
    }

    /// The name stored at position `i`.
    pub fn key_at(&self, i: usize) -> (r: &AccountId)
        requires
            i < self.kvs().len(),
        ensures
            *r == self.kvs()[i as int].0,
    {
        &self.pairs[i].0
    }

    /// The value stored at position `i`.
    pub fn value_at(&self, i: usize) -> (r: &T)
        requires
            i < self.kvs().len(),
        ensures
            *r == self.kvs()[i as int].1,
    {
        &self.pairs[i].1
    }

    /// The position of the pair carrying `k`, if any.
    fn find(&self, k: &AccountId) -> (r: Option<usize>)
        ensures
            match r {
                Some(i) => i < self.kvs().len() && self.kvs()[i as int].0@ == k@,
                None => !self.has_key(k@),
            },
    {
        let n = self.pairs.len();
        let mut i: usize = 0;
        while i < n
            invariant
                n == self.kvs().len(),
                i <= n,
                forall|j: int| 0 <= j < i ==> (#[trigger] self.kvs()[j]).0@ != k@,
            decreases n - i,
        {
            if self.pairs[i].0 == *k {
                return Some(i);
            }
            i = i + 1;
        }
        None
    }

    pub fn contains(&self, k: &AccountId) -> (r: bool)
        requires
            self.wf(),
        ensures
            r == self@.contains_key(k@),
    {
        match self.find(k) {
            Some(i) => {
                proof {
                    self.lemma_kvs_view(i as int);
                }
                true
            },
            None => false,
        }
    }

    pub fn get(&self, k: &AccountId) -> (r: Option<&T>)
        requires
            self.wf(),
        ensures
            match r {
                Some(v) => self@.contains_key(k@) && *v == self@[k@],
                None => !self@.contains_key(k@),
            },
    {
        match self.find(k) {
            Some(i) => {
                proof {
                    self.lemma_kvs_view(i as int);
                }
                Some(&self.pairs[i].1)
            },
            None => None,
        }
    }

    /// Stores `v` under the name of `k`, replacing in place any pair that
    /// already carries that name and appending a pair otherwise.
    pub fn insert(&mut self, k: AccountId, v: T)
        requires
            old(self).wf(),
        ensures
            final(self).wf(),
            final(self)@ == old(self)@.insert(k@, v),
            old(self).has_key(k@) ==> final(self).kvs() == old(self).kvs().update(
                old(self).index_of(k@),
                (k, v),
            ),
            !old(self).has_key(k@) ==> final(self).kvs() == old(self).kvs().push((k, v)),
    {
        let ghost prev = *self;
        match self.find(&k) {
            Some(i) => {
                proof {
                    prev.lemma_kvs_view(i as int);
                }
                self.pairs[i] = (k, v);
                proof {
                    self.lemma_insert_update(prev, i as int);
                }
            },
            None => {
                self.pairs.push((k, v));
                proof {
                    self.lemma_insert_push(prev);
                }
            },
        }
    }

    /// Removes the pair carrying the name of `k`, if any, and returns its
    /// value.
    pub fn remove(&mut self, k: &AccountId) -> (r: Option<T>)
        requires
            old(self).wf(),
        ensures
            final(self).wf(),
            final(self)@ == old(self)@.remove(k@),
            match r {
                Some(v) => old(self).has_key(k@) && v == old(self)@[k@] && final(self).kvs()
                    == old(self).kvs().remove(old(self).index_of(k@)),
                None => !old(self).has_key(k@) && final(self).kvs() == old(self).kvs(),
            },
    {
        let ghost prev = *self;
        match self.find(k) {
            Some(i) => {
                proof {
                    prev.lemma_kvs_view(i as int);
                }
                let (_, v) = self.pairs.remove(i);
                proof {
                    self.lemma_remove_at(prev, i as int);
                }
                Some(v)
            },
            None => {
                proof {
                    assert_maps_equal!(self@, prev@.remove(k@), key => {
                        assert(self.has_key(key) == prev.has_key(key));
                    });
                }
                None
            },
        }
    }

    /// After replacing the pair at `i` by one with the same name, the map
    /// view is the insertion of the new value.
    proof fn lemma_insert_update(&self, prev: Self, i: int)
        requires
            prev.wf(),
            0 <= i < prev.kvs().len(),
            self.kvs() == prev.kvs().update(i, (self.kvs()[i].0, self.kvs()[i].1)),
            self.kvs()[i].0@ == prev.kvs()[i].0@,
        ensures
            self.wf(),
            self@ == prev@.insert(self.kvs()[i].0@, self.kvs()[i].1),
    {
        let k = self.kvs()[i].0@;
        let v = self.kvs()[i].1;
        assert(forall|j: int|
            0 <= j < self.kvs().len() ==> (#[trigger] self.kvs()[j]).0@ == prev.kvs()[j].0@);
        assert(self.wf());
        assert_maps_equal!(self@, prev@.insert(k, v), key => {
            if self.has_key(key) {
                let w = choose|n: int|
                    0 <= n < self.kvs().len() && (#[trigger] self.kvs()[n]).0@ == key;
                assert(prev.kvs()[w].0@ == key);
                assert(prev.has_key(key));
                self.lemma_kvs_view(w);
                prev.lemma_kvs_view(w);
            }
            if prev.has_key(key) {
                let w = choose|n: int|
                    0 <= n < prev.kvs().len() && (#[trigger] prev.kvs()[n]).0@ == key;
                assert(self.kvs()[w].0@ == key);
                assert(self.has_key(key));
            }
        });
    }

    /// After appending a pair with a fresh name, the map view is the
    /// insertion of that pair.
    proof fn lemma_insert_push(&self, prev: Self)
        requires
            prev.wf(),
            self.kvs().len() == prev.kvs().len() + 1,
            self.kvs() == prev.kvs().push(self.kvs().last()),
            !prev.has_key(self.kvs().last().0@),
        ensures
            self.wf(),
            self@ == prev@.insert(self.kvs().last().0@, self.kvs().last().1),
    {
        let n = prev.kvs().len() as int;
        let k = self.kvs().last().0@;
        let v = self.kvs().last().1;
        assert(forall|j: int| 0 <= j < n ==> (#[trigger] self.kvs()[j]) == prev.kvs()[j]);
        assert forall|i: int, j: int| 0 <= i < j < self.kvs().len() implies (
        #[trigger] self.kvs()[i]).0@ != (#[trigger] self.kvs()[j]).0@ by {
            if j == n {
                assert(self.kvs()[i].0@ == prev.kvs()[i].0@);
            }
        }
        assert_maps_equal!(self@, prev@.insert(k, v), key => {
            if self.has_key(key) {
                let w = choose|m: int|
                    0 <= m < self.kvs().len() && (#[trigger] self.kvs()[m]).0@ == key;
                self.lemma_kvs_view(w);
                if w < n {
                    assert(prev.kvs()[w].0@ == key);
                    assert(prev.has_key(key));
                    prev.lemma_kvs_view(w);
                }
            }
            if prev.has_key(key) {
                let w = choose|m: int|
                    0 <= m < prev.kvs().len() && (#[trigger] prev.kvs()[m]).0@ == key;
                assert(self.kvs()[w].0@ == key);
                assert(self.has_key(key));
            }
        });
    }

    /// After removing the pair at `i`, the map view is the removal of its
    /// name.
    proof fn lemma_remove_at(&self, prev: Self, i: int)
        requires
            prev.wf(),
            0 <= i < prev.kvs().len(),
            self.kvs() == prev.kvs().remove(i),
        ensures
            self.wf(),
            self@ == prev@.remove(prev.kvs()[i].0@),
    {
        let k = prev.kvs()[i].0@;
        assert(forall|j: int|
            0 <= j < i ==> (#[trigger] self.kvs()[j]) == prev.kvs()[j]);
        assert(forall|j: int|
            i <= j < self.kvs().len() ==> (#[trigger] self.kvs()[j]) == prev.kvs()[j + 1]);
        assert forall|a: int, b: int| 0 <= a < b < self.kvs().len() implies (
        #[trigger] self.kvs()[a]).0@ != (#[trigger] self.kvs()[b]).0@ by {
            let pa = if a < i { a } else { a + 1 };
            let pb = if b < i { b } else { b + 1 };
            assert(self.kvs()[a] == prev.kvs()[pa]);
            assert(self.kvs()[b] == prev.kvs()[pb]);
        }
        assert_maps_equal!(self@, prev@.remove(k), key => {
            if self.has_key(key) {
                let w = choose|m: int|
                    0 <= m < self.kvs().len() && (#[trigger] self.kvs()[m]).0@ == key;
                self.lemma_kvs_view(w);
                let pw = if w < i { w } else { w + 1 };
                assert(prev.kvs()[pw].0@ == key);
                assert(prev.has_key(key));
                prev.lemma_kvs_view(pw);
                if key == k {
                    assert(pw != i);
                    assert(prev.kvs()[i].0@ == k);
                }
            }
            if prev.has_key(key) && key != k {
                let pw = choose|m: int|
                    0 <= m < prev.kvs().len() && (#[trigger] prev.kvs()[m]).0@ == key;
                assert(pw != i);
                let w = if pw < i { pw } else { pw - 1 };
                assert(self.kvs()[w].0@ == key);
                assert(self.has_key(key));
            }
        });
    }
}

impl<T: Copy> Clone for IdMap<T> {
    /// A deep copy: the stored pairs, and with them the abstract value, are
    /// kept exactly.
    fn clone(&self) -> (r: Self)
        ensures
            r.kvs() == self.kvs(),
            r@ == self@,
    {
        let n = self.pairs.len();
        let mut out: Vec<(AccountId, T)> = Vec::new();
        let mut i: usize = 0;
        while i < n
            invariant
                n == self.kvs().len(),
                i <= n,
                out@.len() == i,
                forall|j: int| 0 <= j < i ==> out@[j] == self.kvs()[j],
            decreases n - i,
        {
            out.push((self.pairs[i].0.clone(), self.pairs[i].1));
            i = i + 1;
        }
        let r = IdMap { pairs: out };
        proof {
            assert(r.kvs() =~= self.kvs());
            r.lemma_same_kvs_same_view(self);
        }
        r
    }
}

} // verus!
