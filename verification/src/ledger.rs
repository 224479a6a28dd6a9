use vstd::prelude::*;
use vstd::map::*;

use crate::account::AccountId;
use crate::errors::Error;
use crate::idmap::IdMap;

verus! {

// ---------------------------------------------------------------------------
// Abstract values
// ---------------------------------------------------------------------------

/// The abstract value of one account: its credit balance and the allowances
/// it has granted, keyed by the spender's name.
#[verifier::ext_equal]
pub ghost struct AccountView {
    pub credit: u128,
    pub allowances: Map<Seq<char>, u128>,
}

/// The account an absent ledger entry stands for.
pub open spec fn empty_account() -> AccountView {
    AccountView { credit: 0, allowances: Map::empty() }
}

/// An account that holds nothing; the ledger never stores one (it removes
/// the entry instead).
pub open spec fn is_empty_account(a: AccountView) -> bool {
    a.credit == 0 && a.allowances.dom() == Set::<Seq<char>>::empty()
}

/// The account stored under `k`, or the empty account when none is.
pub open spec fn account_or_empty(m: Map<Seq<char>, AccountView>, k: Seq<char>) -> AccountView {
    if m.contains_key(k) {
        m[k]
    } else {
        empty_account()
    }
}

/// The credit balance of `k`.
pub open spec fn credit_of(m: Map<Seq<char>, AccountView>, k: Seq<char>) -> u128 {
    account_or_empty(m, k).credit
}

/// The allowance `owner` has granted `spender` (zero when no entry exists).
pub open spec fn allowance_of(
    m: Map<Seq<char>, AccountView>,
    owner: Seq<char>,
    spender: Seq<char>,
) -> u128 {
    let a = account_or_empty(m, owner).allowances;
    if a.contains_key(spender) {
        a[spender]
    } else {
        0
    }
}

/// Stores `a` under `k`, removing the entry instead when `a` holds nothing:
/// an account lives in the ledger exactly while its credit or some allowance
/// is positive.
pub open spec fn store_account(
    m: Map<Seq<char>, AccountView>,
    k: Seq<char>,
    a: AccountView,
) -> Map<Seq<char>, AccountView> {
    if is_empty_account(a) {
        m.remove(k)
    } else {
        m.insert(k, a)
    }
}

/// `owner`'s allowance table after granting `spender` exactly `amount`:
/// an allowance of zero is not stored but erased.
pub open spec fn set_allowance(
    a: Map<Seq<char>, u128>,
    spender: Seq<char>,
    amount: u128,
) -> Map<Seq<char>, u128> {
    if amount > 0 {
        a.insert(spender, amount)
    } else {
        a.remove(spender)
    }
}

// ---------------------------------------------------------------------------
// Transitions
// ---------------------------------------------------------------------------

/// What `approve` decides and does: `owner` overwrites (never increments)
/// the allowance of `spender`.  Approving oneself always fails, whatever the
/// amount.
pub open spec fn spec_approve(
    m: Map<Seq<char>, AccountView>,
    owner: Seq<char>,
    spender: Seq<char>,
    amount: u128,
) -> (Result<(), Error>, Map<Seq<char>, AccountView>) {
    if owner == spender {
        (Err(Error::SelfApproval), m)
    } else {
        let acc = account_or_empty(m, owner);
        let acc2 = AccountView {
            allowances: set_allowance(acc.allowances, spender, amount),
            ..acc
        };
        (Ok(()), store_account(m, owner, acc2))
    }
}

/// What `transfer` decides and does.  The checks run in this order: a zero
/// amount, a self-transfer, the owner's balance, then — only when the caller
/// is not the owner — the caller's allowance, which the transfer consumes.
/// (Under the ledger invariant the credited balance can never overflow; the
/// final branch writes the exact sums.)
pub open spec fn spec_transfer(
    m: Map<Seq<char>, AccountView>,
    caller: Seq<char>,
    from: Seq<char>,
    to: Seq<char>,
    amount: u128,
) -> (Result<(), Error>, Map<Seq<char>, AccountView>) {
    if amount == 0 {
        (Err(Error::ZeroAmount), m)
    } else if from == to {
        (Err(Error::SameAccount), m)
    } else if credit_of(m, from) < amount {
        (Err(Error::InsufficientBalance), m)
    } else if caller != from && allowance_of(m, from, caller) < amount {
        (Err(Error::InsufficientAllowance), m)
    } else {
        let facc = account_or_empty(m, from);
        let facc2 = AccountView {
            credit: (facc.credit - amount) as u128,
            allowances: if caller != from {
                set_allowance(
                    facc.allowances,
                    caller,
                    (allowance_of(m, from, caller) - amount) as u128,
                )
            } else {
                facc.allowances
            },
        };
        let m1 = store_account(m, from, facc2);
        let tacc = account_or_empty(m1, to);
        let tacc2 = AccountView { credit: (tacc.credit + amount) as u128, ..tacc };
        (Ok(()), store_account(m1, to, tacc2))
    }
}

/// What `mint` decides and does: new credit for `to`, counted into the total
/// supply, rejected only when the total would overflow.  (Under the ledger
/// invariant each balance is at most the total, so the account sum is exact
/// whenever the total sum is.)
pub open spec fn spec_mint(
    m: Map<Seq<char>, AccountView>,
    to: Seq<char>,
    amount: u128,
    total: u128,
) -> (Result<(), Error>, Map<Seq<char>, AccountView>, u128) {
    if total + amount > u128::MAX {
        (Err(Error::Overflow), m, total)
    } else {
        let acc = account_or_empty(m, to);
        let acc2 = AccountView { credit: (acc.credit + amount) as u128, ..acc };
        (Ok(()), store_account(m, to, acc2), (total + amount) as u128)
    }
}

/// What `burn` decides and does: destroys credit of `from` and takes it out
/// of the total supply; a caller other than `from` consumes allowance
/// exactly as in a transfer.  (Under the ledger invariant the total is the
/// sum of all balances, so the subtraction from the total is exact.)
pub open spec fn spec_burn(
    m: Map<Seq<char>, AccountView>,
    caller: Seq<char>,
    from: Seq<char>,
    amount: u128,
    total: u128,
) -> (Result<(), Error>, Map<Seq<char>, AccountView>, u128) {
    if amount == 0 {
        (Err(Error::ZeroAmount), m, total)
    } else if credit_of(m, from) < amount {
        (Err(Error::InsufficientBalance), m, total)
    } else if caller != from && allowance_of(m, from, caller) < amount {
        (Err(Error::InsufficientAllowance), m, total)
    } else {
        let facc = account_or_empty(m, from);
        let facc2 = AccountView {
            credit: (facc.credit - amount) as u128,
            allowances: if caller != from {
                set_allowance(
                    facc.allowances,
                    caller,
                    (allowance_of(m, from, caller) - amount) as u128,
                )
            } else {
                facc.allowances
            },
        };
        (Ok(()), store_account(m, from, facc2), (total - amount) as u128)
    }
}

// ---------------------------------------------------------------------------
// Credit sums
// ---------------------------------------------------------------------------

/// The sum of the credit balances stored in `s`.
pub open spec fn sum_credits(s: Seq<(AccountId, Account)>) -> int
    decreases s.len(),
{
    if s.len() == 0 {
        0
    } else {
        sum_credits(s.drop_last()) + s.last().1.credit
    }
}

pub proof fn lemma_sum_nonneg(s: Seq<(AccountId, Account)>)
    ensures
        sum_credits(s) >= 0,
    decreases s.len(),
{
    if s.len() > 0 {
        lemma_sum_nonneg(s.drop_last());
    }
}

pub proof fn lemma_sum_push(s: Seq<(AccountId, Account)>, p: (AccountId, Account))
    ensures
        sum_credits(s.push(p)) == sum_credits(s) + p.1.credit,
{
    assert(s.push(p).drop_last() =~= s);
    assert(s.push(p).last() == p);
}

pub proof fn lemma_sum_update(s: Seq<(AccountId, Account)>, i: int, p: (AccountId, Account))
    requires
        0 <= i < s.len(),
    ensures
        sum_credits(s.update(i, p)) == sum_credits(s) - s[i].1.credit + p.1.credit,
    decreases s.len(),
{
    let t = s.update(i, p);
    if i == s.len() - 1 {
        assert(t.drop_last() =~= s.drop_last());
        assert(t.last() == p);
    } else {
        assert(t.drop_last() =~= s.drop_last().update(i, p));
        assert(t.last() == s.last());
        lemma_sum_update(s.drop_last(), i, p);
    }
}

pub proof fn lemma_sum_remove(s: Seq<(AccountId, Account)>, i: int)
    requires
        0 <= i < s.len(),
    ensures
        sum_credits(s.remove(i)) == sum_credits(s) - s[i].1.credit,
    decreases s.len(),
{
    let t = s.remove(i);
    if i == s.len() - 1 {
        assert(t =~= s.drop_last());
    } else {
        assert(t.drop_last() =~= s.drop_last().remove(i));
        assert(t.last() == s.last());
        lemma_sum_remove(s.drop_last(), i);
    }
}

/// Each stored balance is at most the sum of all of them.
pub proof fn lemma_sum_element(s: Seq<(AccountId, Account)>, i: int)
    requires
        0 <= i < s.len(),
    ensures
        sum_credits(s) >= s[i].1.credit,
    decreases s.len(),
{
    if i == s.len() - 1 {
        lemma_sum_nonneg(s.drop_last());
    } else {
        lemma_sum_element(s.drop_last(), i);
    }
}

/// Two distinct stored balances fit into the sum together.
pub proof fn lemma_sum_two_elements(s: Seq<(AccountId, Account)>, i: int, j: int)
    requires
        0 <= i < s.len(),
        0 <= j < s.len(),
        i != j,
    ensures
        sum_credits(s) >= s[i].1.credit + s[j].1.credit,
    decreases s.len(),
{
    let a = if i < j {
        i
    } else {
        j
    };
    let b = if i < j {
        j
    } else {
        i
    };
    if b == s.len() - 1 {
        lemma_sum_element(s.drop_last(), a);
    } else {
        lemma_sum_two_elements(s.drop_last(), a, b);
    }
}

// ---------------------------------------------------------------------------
// The stored account
// ---------------------------------------------------------------------------

/// One stored account: a credit balance and the allowances granted by this
/// account's owner.
pub struct Account {
    pub credit: u128,
    pub allowances: IdMap<u128>,
}

impl View for Account {
    type V = AccountView;

    open spec fn view(&self) -> AccountView {
        AccountView { credit: self.credit, allowances: self.allowances@ }
    }
}

impl Account {
    pub fn new() -> (r: Account)
        ensures
            r@ == empty_account(),
            r.allowances.wf(),
            r.allowances.kvs().len() == 0,
    {
        let r = Account { credit: 0, allowances: IdMap::new() } ;
        proof {
            assert(r@ =~= empty_account());
        }
        r
    }
}

impl Clone for Account {
    /// A deep copy that keeps the abstract value, the stored pairs and their
    /// uniqueness exactly.
    fn clone(&self) -> (r: Self)
        ensures
            r@ == self@,
            r.credit == self.credit,
            r.allowances.kvs() == self.allowances.kvs(),
    {
        Account { credit: self.credit, allowances: self.allowances.clone() }
    }
}

// ---------------------------------------------------------------------------
// The ledger
// ---------------------------------------------------------------------------

/// The token ledger: every account's credit and allowances, and the total
/// credit in circulation.
///
/// Its invariant [`Ledger::wf`] carries the conservation law: after every
/// operation, the sum of all stored balances equals `total_credit` — credit
/// is created by `mint` and destroyed by `burn`, and by nothing else.
pub struct Ledger {
    accounts: IdMap<Account>,
    total_credit: u128,
}

impl View for Ledger {
    type V = Map<Seq<char>, AccountView>;

    closed spec fn view(&self) -> Map<Seq<char>, AccountView> {
        Map::new(
            |k: Seq<char>| self.accounts@.contains_key(k),
            |k: Seq<char>| self.accounts@[k]@,
        )
    }
}

impl Ledger {
    /// The total credit in circulation.
    pub closed spec fn spec_total(&self) -> u128 {
        self.total_credit
    }

    /// The ledger invariant:
    /// * account names are unique, and so are the spender names within each
    ///   allowance table;
    /// * no stored account is empty (an account whose credit and allowances
    ///   are gone is removed);
    /// * no account carries an allowance for its own owner;
    /// * `total_credit` is exactly the sum of all stored balances.
    pub closed spec fn wf(&self) -> bool {
        &&& self.accounts.wf()
        &&& forall|i: int|
            0 <= i < self.accounts.kvs().len() ==> (
            #[trigger] self.accounts.kvs()[i]).1.allowances.wf()
        &&& forall|i: int|
            0 <= i < self.accounts.kvs().len() ==> ((#[trigger] self.accounts.kvs()[i]).1.credit
                > 0 || self.accounts.kvs()[i].1.allowances.kvs().len() > 0)
        &&& forall|i: int|
            0 <= i < self.accounts.kvs().len() ==> !(
            #[trigger] self.accounts.kvs()[i]).1.allowances@.contains_key(
                self.accounts.kvs()[i].0@,
            )
        &&& self.total_credit == sum_credits(self.accounts.kvs())
    }

    pub fn new() -> (r: Ledger)
        ensures
            r.wf(),
            r@ == Map::<Seq<char>, AccountView>::empty(),
            r.spec_total() == 0,
    {
        let r = Ledger { accounts: IdMap::new(), total_credit: 0 };
        proof {
            assert_maps_equal!(r@, Map::<Seq<char>, AccountView>::empty(), key => {});
        }
        r
    }

    /// The total credit in circulation.
    pub fn total_credit(&self) -> (r: u128)
        ensures
            r == self.spec_total(),
    {
        self.total_credit
    }

    /// The credit balance of `k`; zero for an account the ledger does not
    /// store.
    pub fn credit_balance(&self, k: &AccountId) -> (r: u128)
        requires
            self.wf(),
        ensures
            r == credit_of(self@, k@),
    {
        match self.accounts.get(k) {
            Some(a) => a.credit,
            None => 0,
        }
    }

    /// The allowance `owner` has granted `spender`; zero when none was set.
    pub fn allowance(&self, owner: &AccountId, spender: &AccountId) -> (r: u128)
        requires
            self.wf(),
        ensures
            r == allowance_of(self@, owner@, spender@),
    {
        match self.accounts.get(owner) {
            Some(a) => {
                proof {
                    crate::idmap::lemma_seq_first_index(self.accounts.kvs(), owner@);
                    self.accounts.lemma_kvs_view(self.accounts.index_of(owner@));
                }
                match a.allowances.get(spender) {
                    Some(v) => *v,
                    None => 0,
                }
            },
            None => 0,
        }
    }

    /// Loads a copy of the account stored under `k`, or a fresh empty one.
    fn load_account(&self, k: &AccountId) -> (r: Account)
        requires
            self.wf_except_sum(),
        ensures
            r@ == account_or_empty(self@, k@),
            r.allowances.wf(),
            !r.allowances@.contains_key(k@),
    {
        match self.accounts.get(k) {
            Some(a) => {
                proof {
                    crate::idmap::lemma_seq_first_index(self.accounts.kvs(), k@);
                    self.accounts.lemma_kvs_view(self.accounts.index_of(k@));
                }
                a.clone()
            },
            None => Account::new(),
        }
    }

    /// Stores `acc` under `k`, dropping the entry instead when the account
    /// holds nothing, and restores the invariant pieces that do not depend
    /// on the caller's context.
    fn store_account_exec(&mut self, k: &AccountId, acc: Account)
        requires
            old(self).wf_except_sum(),
            acc.allowances.wf(),
            !acc.allowances@.contains_key(k@),
        ensures
            final(self).wf_except_sum(),
            final(self)@ == store_account(old(self)@, k@, acc@),
            final(self).spec_total() == old(self).spec_total(),
            sum_credits(final(self).accounts.kvs()) == sum_credits(old(self).accounts.kvs())
                - credit_of(old(self)@, k@) + acc@.credit,
    {
        let ghost prev = *self;
        let ghost av = acc@;
        let is_empty = acc.credit == 0 && acc.allowances.len() == 0;
        if is_empty {
            proof {
                assert(acc.allowances@.dom() =~= Set::<Seq<char>>::empty());
                assert(is_empty_account(av));
            }
            let _ = self.accounts.remove(k);
            proof {
                self.lemma_store_removed(prev, k@, av);
            }
        } else {
            proof {
                if acc.allowances.kvs().len() > 0 {
                    acc.allowances.lemma_kvs_view(0);
                }
                assert(!is_empty_account(av));
            }
            let key = k.clone();
            let ghost gkey = key;
            let ghost gval = acc;
            self.accounts.insert(key, acc);
            proof {
                self.lemma_store_inserted(prev, k@, gkey, gval);
            }
        }
    }

    /// Everything in [`Ledger::wf`] except the sum equation; the operations
    /// re-establish the sum at their end.
    pub closed spec fn wf_except_sum(&self) -> bool {
        &&& self.accounts.wf()
        &&& forall|i: int|
            0 <= i < self.accounts.kvs().len() ==> (
            #[trigger] self.accounts.kvs()[i]).1.allowances.wf()
        &&& forall|i: int|
            0 <= i < self.accounts.kvs().len() ==> ((#[trigger] self.accounts.kvs()[i]).1.credit
                > 0 || self.accounts.kvs()[i].1.allowances.kvs().len() > 0)
        &&& forall|i: int|
            0 <= i < self.accounts.kvs().len() ==> !(
            #[trigger] self.accounts.kvs()[i]).1.allowances@.contains_key(
                self.accounts.kvs()[i].0@,
            )
    }

    proof fn lemma_wf_parts(&self)
        ensures
            self.wf() == (self.wf_except_sum() && self.total_credit
                == sum_credits(self.accounts.kvs())),
    {
    }

    /// After `accounts.remove(k)` of an account that `acc` (an empty view)
    /// replaces, the ledger view is `store_account(prev@, k, acc)`.
    proof fn lemma_store_removed(&self, prev: Self, k: Seq<char>, acc: AccountView)
        requires
            prev.wf_except_sum(),
            is_empty_account(acc),
            self.accounts@ == prev.accounts@.remove(k),
            self.accounts.wf(),
            prev.accounts.has_key(k) ==> self.accounts.kvs() == prev.accounts.kvs().remove(
                prev.accounts.index_of(k),
            ),
            !prev.accounts.has_key(k) ==> self.accounts.kvs() == prev.accounts.kvs(),
            self.total_credit == prev.total_credit,
        ensures
            self.wf_except_sum(),
            self@ == store_account(prev@, k, acc),
            sum_credits(self.accounts.kvs()) == sum_credits(prev.accounts.kvs()) - credit_of(
                prev@,
                k,
            ),
    {
        if prev.accounts.has_key(k) {
            crate::idmap::lemma_seq_first_index(prev.accounts.kvs(), k);
            let i = prev.accounts.index_of(k);
            prev.accounts.lemma_kvs_view(i);
            lemma_sum_remove(prev.accounts.kvs(), i);
            assert forall|j: int| 0 <= j < self.accounts.kvs().len() implies (
            #[trigger] self.accounts.kvs()[j]) == prev.accounts.kvs()[
                if j < i {
                    j
                } else {
                    j + 1
                }
            ] by {}
        } else {
            assert(!prev@.contains_key(k));
        }
        assert_maps_equal!(self@, store_account(prev@, k, acc), key => {});
    }

    /// After `accounts.insert(k, val)` of a non-empty account, the ledger
    /// view is `store_account(prev@, k, val@)`.
    proof fn lemma_store_inserted(&self, prev: Self, k: Seq<char>, kid: AccountId, val: Account)
        requires
            prev.wf_except_sum(),
            kid@ == k,
            val.allowances.wf(),
            !val@.allowances.contains_key(k),
            val@.credit > 0 || val.allowances.kvs().len() > 0,
            self.accounts@ == prev.accounts@.insert(k, val),
            self.accounts.wf(),
            prev.accounts.has_key(k) ==> self.accounts.kvs() == prev.accounts.kvs().update(
                prev.accounts.index_of(k),
                (kid, val),
            ),
            !prev.accounts.has_key(k) ==> self.accounts.kvs() == prev.accounts.kvs().push(
                (kid, val),
            ),
            self.total_credit == prev.total_credit,
        ensures
            self.wf_except_sum(),
            self@ == store_account(prev@, k, val@),
            sum_credits(self.accounts.kvs()) == sum_credits(prev.accounts.kvs()) - credit_of(
                prev@,
                k,
            ) + val@.credit,
    {
        if val.allowances.kvs().len() > 0 {
            val.allowances.lemma_kvs_view(0);
        }
        assert(!is_empty_account(val@));
        if prev.accounts.has_key(k) {
            crate::idmap::lemma_seq_first_index(prev.accounts.kvs(), k);
            let i = prev.accounts.index_of(k);
            prev.accounts.lemma_kvs_view(i);
            lemma_sum_update(prev.accounts.kvs(), i, (kid, val));
            assert forall|j: int|
                0 <= j < self.accounts.kvs().len() && j != i implies (
            #[trigger] self.accounts.kvs()[j]) == prev.accounts.kvs()[j] by {}
        } else {
            assert(!prev@.contains_key(k));
            lemma_sum_push(prev.accounts.kvs(), (kid, val));
            assert forall|j: int|
                0 <= j < prev.accounts.kvs().len() implies (#[trigger] self.accounts.kvs()[j])
                == prev.accounts.kvs()[j] by {}
        }
        assert_maps_equal!(self@, store_account(prev@, k, val@), key => {});
    }

    /// Overwrites (never increments) the allowance `owner` grants `spender`.
    ///
    /// An owner can never grant itself an allowance: when `owner` and
    /// `spender` are the same account the call fails with `SelfApproval`,
    /// whatever the amount, and the ledger is untouched.
    pub fn approve(&mut self, owner: &AccountId, spender: &AccountId, amount: u128) -> (r: Result<
        (),
        Error,
    >)
        requires
            old(self).wf(),
        ensures
            final(self).wf(),
            r == spec_approve(old(self)@, owner@, spender@, amount).0,
            final(self)@ == spec_approve(old(self)@, owner@, spender@, amount).1,
            final(self).spec_total() == old(self).spec_total(),
    {
        proof {
            self.lemma_wf_parts();
        }
        if *owner == *spender {
            return Err(Error::SelfApproval);
        }
        let ghost prev = *self;
        let mut acc = self.load_account(owner);
        if amount > 0 {
            acc.allowances.insert(spender.clone(), amount);
        } else {
            let _ = acc.allowances.remove(spender);
        }
        proof {
            assert(acc@.allowances == set_allowance(
                account_or_empty(prev@, owner@).allowances,
                spender@,
                amount,
            ));
        }
        self.store_account_exec(owner, acc);
        proof {
            self.lemma_wf_parts();
            assert(self@ == spec_approve(prev@, owner@, spender@, amount).1);
        }
        Ok(())
    }

    /// Moves `amount` credit from `from` to `to`.
    ///
    /// When the caller is not `from`, the transfer is escrowed: it requires
    /// and consumes the caller's allowance from `from`.  A rejected call —
    /// a zero amount, a self-transfer, a short balance or a short allowance —
    /// changes nothing; a successful one moves exactly `amount`, so the
    /// total supply is untouched either way.
    pub fn transfer(
        &mut self,
        caller: &AccountId,
        from: &AccountId,
        to: &AccountId,
        amount: u128,
    ) -> (r: Result<(), Error>)
        requires
            old(self).wf(),
        ensures
            final(self).wf(),
            r == spec_transfer(old(self)@, caller@, from@, to@, amount).0,
            final(self)@ == spec_transfer(old(self)@, caller@, from@, to@, amount).1,
            final(self).spec_total() == old(self).spec_total(),
    {
        proof {
            self.lemma_wf_parts();
        }
        if amount == 0 {
            return Err(Error::ZeroAmount);
        }
        if *from == *to {
            return Err(Error::SameAccount);
        }
        let ghost prev = *self;
        let mut facc = self.load_account(from);
        if facc.credit < amount {
            return Err(Error::InsufficientBalance);
        }
        if *caller != *from {
            let al = match facc.allowances.get(caller) {
                Some(v) => *v,
                None => 0,
            };
            if al < amount {
                return Err(Error::InsufficientAllowance);
            }
            let na = al - amount;
            if na > 0 {
                facc.allowances.insert(caller.clone(), na);
            } else {
                let _ = facc.allowances.remove(caller);
            }
        }
        facc.credit = facc.credit - amount;
        proof {
            // `to`'s balance plus `amount` fits in the total supply: `from`
            // and `to` are two distinct entries of the same sum.
            if prev@.contains_key(to@) {
                crate::idmap::lemma_seq_first_index(prev.accounts.kvs(), from@);
                crate::idmap::lemma_seq_first_index(prev.accounts.kvs(), to@);
                let fi = prev.accounts.index_of(from@);
                let ti = prev.accounts.index_of(to@);
                prev.accounts.lemma_kvs_view(fi);
                prev.accounts.lemma_kvs_view(ti);
                lemma_sum_two_elements(prev.accounts.kvs(), fi, ti);
            }
        }
        let ghost fav = facc@;
        self.store_account_exec(from, facc);
        let mut tacc = self.load_account(to);
        proof {
            assert(tacc@ == account_or_empty(prev@, to@));
            assert(tacc.credit + amount <= u128::MAX);
        }
        tacc.credit = tacc.credit + amount;
        self.store_account_exec(to, tacc);
        proof {
            self.lemma_wf_parts();
            assert(self@ == spec_transfer(prev@, caller@, from@, to@, amount).1);
        }
        Ok(())
    }

    /// Creates `amount` new credit for `to` and counts it into the total
    /// supply; fails with `Overflow` — changing nothing — when the total
    /// would exceed its type.
    pub fn mint(&mut self, to: &AccountId, amount: u128) -> (r: Result<(), Error>)
        requires
            old(self).wf(),
        ensures
            final(self).wf(),
            r == spec_mint(old(self)@, to@, amount, old(self).spec_total()).0,
            final(self)@ == spec_mint(old(self)@, to@, amount, old(self).spec_total()).1,
            final(self).spec_total() == spec_mint(
                old(self)@,
                to@,
                amount,
                old(self).spec_total(),
            ).2,
    {
        proof {
            self.lemma_wf_parts();
        }
        let ghost prev = *self;
        match self.total_credit.checked_add(amount) {
            None => Err(Error::Overflow),
            Some(nt) => {
                let mut acc = self.load_account(to);
                proof {
                    // The account's balance is part of the sum, so it grows
                    // within `u128` whenever the total does.
                    if prev@.contains_key(to@) {
                        crate::idmap::lemma_seq_first_index(prev.accounts.kvs(), to@);
                        let i = prev.accounts.index_of(to@);
                        prev.accounts.lemma_kvs_view(i);
                        lemma_sum_element(prev.accounts.kvs(), i);
                    }
                    assert(acc.credit + amount <= u128::MAX);
                }
                acc.credit = acc.credit + amount;
                self.total_credit = nt;
                self.store_account_exec(to, acc);
                proof {
                    self.lemma_wf_parts();
                    assert(self@ == spec_mint(prev@, to@, amount, prev.spec_total()).1);
                }
                Ok(())
            },
        }
    }

    /// Destroys `amount` credit of `from` and takes it out of the total
    /// supply.  When the caller is not `from`, the burn is escrowed and
    /// consumes the caller's allowance exactly as a transfer does.  A
    /// rejected call changes nothing.
    pub fn burn(&mut self, caller: &AccountId, from: &AccountId, amount: u128) -> (r: Result<
        (),
        Error,
    >)
        requires
            old(self).wf(),
        ensures
            final(self).wf(),
            r == spec_burn(old(self)@, caller@, from@, amount, old(self).spec_total()).0,
            final(self)@ == spec_burn(old(self)@, caller@, from@, amount, old(self).spec_total()).1,
            final(self).spec_total() == spec_burn(
                old(self)@,
                caller@,
                from@,
                amount,
                old(self).spec_total(),
            ).2,
    {
        proof {
            self.lemma_wf_parts();
        }
        if amount == 0 {
            return Err(Error::ZeroAmount);
        }
        let ghost prev = *self;
        let mut facc = self.load_account(from);
        if facc.credit < amount {
            return Err(Error::InsufficientBalance);
        }
        if *caller != *from {
            let al = match facc.allowances.get(caller) {
                Some(v) => *v,
                None => 0,
            };
            if al < amount {
                return Err(Error::InsufficientAllowance);
            }
            let na = al - amount;
            if na > 0 {
                facc.allowances.insert(caller.clone(), na);
            } else {
                let _ = facc.allowances.remove(caller);
            }
        }
        facc.credit = facc.credit - amount;
        proof {
            // The burned balance is part of the sum, so the total cannot go
            // below zero.
            crate::idmap::lemma_seq_first_index(prev.accounts.kvs(), from@);
            let i = prev.accounts.index_of(from@);
            prev.accounts.lemma_kvs_view(i);
            lemma_sum_element(prev.accounts.kvs(), i);
        }
        self.total_credit = self.total_credit - amount;
        self.store_account_exec(from, facc);
        proof {
            self.lemma_wf_parts();
            assert(self@ == spec_burn(prev@, caller@, from@, amount, prev.spec_total()).1);
        }
        Ok(())
    }

    /// The sum of every stored balance.
    pub closed spec fn spec_sum(&self) -> int {
        sum_credits(self.accounts.kvs())
    }

    /// Credit conservation: in a well-formed ledger the total supply equals
    /// the sum of every stored balance.  Each operation above keeps `wf` and
    /// pins its effect on the total (`transfer` and `approve` leave it as it
    /// was, `mint` adds exactly `amount`, `burn` removes exactly `amount`),
    /// so the equation holds after every sequence of calls.
    pub proof fn lemma_credit_conservation(&self)
        requires
            self.wf(),
        ensures
            self.spec_total() == self.spec_sum(),
    {
    }
}

/// An owner can never approve itself: for every ledger state and every
/// amount, setting an allowance whose owner and spender are the same account
/// fails with `SelfApproval` and leaves the ledger untouched.
pub proof fn lemma_self_approval_always_fails(
    m: Map<Seq<char>, AccountView>,
    owner: Seq<char>,
    amount: u128,
)
    ensures
        spec_approve(m, owner, owner, amount) == (Err::<(), Error>(Error::SelfApproval), m),
{
}

} // verus!
