use vstd::prelude::*;

use crate::account::AccountId;
use crate::errors::Error;
use crate::math::{checked_mul_div, lemma_div_add_le, lemma_mul_div_le};
use crate::registry::{
    lemma_weights_element, lemma_weights_nonneg, lemma_weights_push, sum_weights,
};
use vstd::arithmetic::div_mod::lemma_div_pos_is_pos;
use vstd::arithmetic::mul::{lemma_mul_is_distributive_add, lemma_mul_nonnegative};

verus! {

// ---------------------------------------------------------------------------
// Allocation sums
// ---------------------------------------------------------------------------

/// The sum of a sequence of allocations.
pub open spec fn sum_allocs(s: Seq<u128>) -> int
    decreases s.len(),
{
    if s.len() == 0 {
        0
    } else {
        sum_allocs(s.drop_last()) + s.last()
    }
}

pub proof fn lemma_allocs_nonneg(s: Seq<u128>)
    ensures
        sum_allocs(s) >= 0,
    decreases s.len(),
{
    if s.len() > 0 {
        lemma_allocs_nonneg(s.drop_last());
    }
}

pub proof fn lemma_allocs_push(s: Seq<u128>, v: u128)
    ensures
        sum_allocs(s.push(v)) == sum_allocs(s) + v,
{
    assert(s.push(v).drop_last() =~= s);
    assert(s.push(v).last() == v);
}

pub proof fn lemma_allocs_update(s: Seq<u128>, i: int, v: u128)
    requires
        0 <= i < s.len(),
    ensures
        sum_allocs(s.update(i, v)) == sum_allocs(s) - s[i] + v,
    decreases s.len(),
{
    let t = s.update(i, v);
    if i == s.len() - 1 {
        assert(t.drop_last() =~= s.drop_last());
        assert(t.last() == v);
    } else {
        assert(t.drop_last() =~= s.drop_last().update(i, v));
        assert(t.last() == s.last());
        lemma_allocs_update(s.drop_last(), i, v);
    }
}

/// Each allocation is at most the sum of all of them.
pub proof fn lemma_allocs_element(s: Seq<u128>, i: int)
    requires
        0 <= i < s.len(),
    ensures
        sum_allocs(s) >= s[i],
    decreases s.len(),
{
    if i == s.len() - 1 {
        lemma_allocs_nonneg(s.drop_last());
    } else {
        lemma_allocs_element(s.drop_last(), i);
    }
}

// ---------------------------------------------------------------------------
// The proportional split
// ---------------------------------------------------------------------------

/// The floored proportional share of `amount` for one weight `w` out of
/// `total`.
pub open spec fn spec_share(amount: u128, w: u32, total: u64) -> int {
    amount * w / (total as int)
}

/// The sum of the floored shares of every validator in `s`.
pub open spec fn spec_share_sum(s: Seq<(AccountId, u32)>, amount: u128, total: u64) -> int
    decreases s.len(),
{
    if s.len() == 0 {
        0
    } else {
        spec_share_sum(s.drop_last(), amount, total) + spec_share(amount, s.last().1, total)
    }
}

/// `i` is the position of the greatest weight in `s`, earliest position
/// winning ties: the deterministically chosen carrier of the rounding
/// remainder.
pub open spec fn is_first_max(s: Seq<(AccountId, u32)>, i: int) -> bool {
    &&& 0 <= i < s.len()
    &&& forall|j: int| 0 <= j < s.len() ==> (#[trigger] s[j]).1 <= s[i].1
    &&& forall|j: int| 0 <= j < i ==> (#[trigger] s[j]).1 < s[i].1
}

/// The floored shares of a prefix never exceed the share of the prefix's
/// weight, and hence never exceed `amount` itself.
pub proof fn lemma_share_sum_bound(s: Seq<(AccountId, u32)>, amount: u128, total: u64)
    requires
        total > 0,
    ensures
        0 <= spec_share_sum(s, amount, total),
        spec_share_sum(s, amount, total) <= amount * sum_weights(s) / (total as int),
    decreases s.len(),
{
    if s.len() == 0 {
        assert(amount * 0 == 0);
    } else {
        let t = s.drop_last();
        let w = s.last().1;
        lemma_share_sum_bound(t, amount, total);
        lemma_weights_nonneg(t);
        lemma_mul_nonnegative(amount as int, sum_weights(t));
        lemma_mul_nonnegative(amount as int, w as int);
        lemma_div_pos_is_pos(amount * w, total as int);
        lemma_div_add_le(amount * sum_weights(t), amount * (w as int), total as int);
        lemma_mul_is_distributive_add(amount as int, sum_weights(t), w as int);
    }
}

/// Splits `amount` across `validators` proportionally to weight: every
/// position gets its floored share `amount * w_i / total`, and the rounding
/// remainder goes to the validator with the greatest weight (the earliest
/// one on a tie), so the allocations sum to exactly `amount`.
///
/// Returns the allocations (one per validator, in the same order) and the
/// position that carries the remainder.
pub fn split_amount(amount: u128, validators: &Vec<(AccountId, u32)>, total: u64) -> (r: (
    Vec<u128>,
    usize,
))
    requires
        total as int == sum_weights(validators@),
        total > 0,
    ensures
        r.0@.len() == validators@.len(),
        is_first_max(validators@, r.1 as int),
        forall|i: int|
            0 <= i < validators@.len() && i != r.1 ==> r.0@[i] == spec_share(
                amount,
                validators@[i].1,
                total,
            ),
        r.0@[r.1 as int] == spec_share(amount, validators@[r.1 as int].1, total) + (amount
            - spec_share_sum(validators@, amount, total)),
        sum_allocs(r.0@) == amount,
{
    let n = validators.len();
    proof {
        if n == 0 {
            lemma_weights_nonneg(validators@);
            assert(sum_weights(validators@) == 0);
        }
    }
    let mut out: Vec<u128> = Vec::new();
    let mut acc: u128 = 0;
    let mut i: usize = 0;
    while i < n
        invariant
            n == validators@.len(),
            total as int == sum_weights(validators@),
            total > 0,
            i <= n,
            out@.len() == i,
            forall|j: int| 0 <= j < i ==> out@[j] == spec_share(amount, validators@[j].1, total),
            acc == sum_allocs(out@),
            sum_allocs(out@) == spec_share_sum(validators@.subrange(0, i as int), amount, total),
            sum_allocs(out@) <= amount,
        decreases n - i,
    {
        let w = validators[i].1;
        proof {
            lemma_weights_element(validators@, i as int);
            lemma_mul_div_le(amount as int, w as int, total as int);
            lemma_mul_nonnegative(amount as int, w as int);
            lemma_div_pos_is_pos(amount * w, total as int);
        }
        let share = match checked_mul_div(amount, w as u128, total as u128) {
            Some(v) => v,
            None => {
                proof {
                    assert(false);
                }
                0
            },
        };
        proof {
            lemma_allocs_push(out@, share);
            let pre = validators@.subrange(0, i as int);
            let pre1 = validators@.subrange(0, i as int + 1);
            assert(pre1.drop_last() =~= pre);
            assert(pre1.last() == validators@[i as int]);
            lemma_share_sum_bound(pre1, amount, total);
            lemma_weights_prefix(validators@, i as int + 1);
            lemma_weights_nonneg(pre1);
            lemma_mul_div_le(amount as int, sum_weights(pre1), total as int);
        }
        acc = acc + share;
        out.push(share);
        i = i + 1;
    }
    proof {
        assert(validators@.subrange(0, n as int) =~= validators@);
    }
    let remainder = amount - acc;
    let mut best: usize = 0;
    let mut j: usize = 1;
    while j < n
        invariant
            n == validators@.len(),
            n > 0,
            best < j,
            j <= n,
            forall|k: int| 0 <= k < j ==> (#[trigger] validators@[k]).1 <= validators@[
                best as int].1,
            forall|k: int| 0 <= k < best ==> (#[trigger] validators@[k]).1 < validators@[
                best as int].1,
        decreases n - j,
    {
        if validators[j].1 > validators[best].1 {
            best = j;
        }
        j = j + 1;
    }
    proof {
        lemma_allocs_element(out@, best as int);
    }
    let bumped = out[best] + remainder;
    let ghost before = out@;
    out[best] = bumped;
    proof {
        lemma_allocs_update(before, best as int, bumped);
    }
    (out, best)
}

/// Prefix weights never exceed the whole table's weight.
pub proof fn lemma_weights_prefix(s: Seq<(AccountId, u32)>, i: int)
    requires
        0 <= i <= s.len(),
    ensures
        sum_weights(s.subrange(0, i)) <= sum_weights(s),
    decreases s.len() - i,
{
    if i == s.len() {
        assert(s.subrange(0, i) =~= s);
    } else {
        assert(s.subrange(0, i + 1) =~= s.subrange(0, i).push(s[i]));
        lemma_weights_push(s.subrange(0, i), s[i]);
        lemma_weights_prefix(s, i + 1);
    }
}


/// The position [`split_amount`] picks for the remainder, as a function of
/// the table alone: the earliest position of the greatest weight.
pub open spec fn first_max_index(s: Seq<(AccountId, u32)>) -> int
    decreases s.len(),
{
    if s.len() <= 1 {
        0
    } else {
        let r = first_max_index(s.drop_last());
        if s.last().1 > s[r].1 {
            s.len() - 1
        } else {
            r
        }
    }
}

pub proof fn lemma_first_max_index(s: Seq<(AccountId, u32)>)
    requires
        s.len() > 0,
    ensures
        is_first_max(s, first_max_index(s)),
    decreases s.len(),
{
    if s.len() > 1 {
        lemma_first_max_index(s.drop_last());
        let r = first_max_index(s.drop_last());
        assert(forall|j: int| 0 <= j < s.len() - 1 ==> (#[trigger] s[j]) == s.drop_last()[j]);
    }
}

/// Only one position is the earliest maximum.
pub proof fn lemma_first_max_unique(s: Seq<(AccountId, u32)>, i: int)
    requires
        is_first_max(s, i),
    ensures
        i == first_max_index(s),
{
    lemma_first_max_index(s);
    let f = first_max_index(s);
    if i < f {
        assert(s[i].1 < s[f].1);
        assert(s[f].1 <= s[i].1);
    } else if f < i {
        assert(s[f].1 < s[i].1);
        assert(s[i].1 <= s[f].1);
    }
}

/// What [`split_amount`] returns, as a function of its inputs: the floored
/// share everywhere, except that the earliest greatest weight also carries
/// the rounding remainder.
pub open spec fn spec_split(vals: Seq<(AccountId, u32)>, amount: u128, total: u64) -> Seq<u128> {
    Seq::new(
        vals.len(),
        |i: int|
            if i == first_max_index(vals) {
                (spec_share(amount, vals[i].1, total) + amount - spec_share_sum(
                    vals,
                    amount,
                    total,
                )) as u128
            } else {
                spec_share(amount, vals[i].1, total) as u128
            },
    )
}

/// The validators with a positive allocation, each paired with it, in table
/// order: exactly the requests a deposit or burn dispatches.
pub open spec fn positive_parts(vals: Seq<(AccountId, u32)>, allocs: Seq<u128>) -> Seq<
    (Seq<char>, u128),
>
    decreases vals.len(),
{
    if vals.len() == 0 || allocs.len() == 0 {
        Seq::empty()
    } else {
        let t = positive_parts(vals.drop_last(), allocs.drop_last());
        if allocs.last() > 0 {
            t.push((vals.last().0@, allocs.last()))
        } else {
            t
        }
    }
}

/// The positive allocations of a table with pairwise distinct names are
/// pairwise distinct, positive, drawn from the table, and carry the whole
/// sum (the dropped allocations are zero).
pub proof fn lemma_positive_parts_props(vals: Seq<(AccountId, u32)>, allocs: Seq<u128>)
    requires
        vals.len() == allocs.len(),
        forall|i: int, j: int|
            0 <= i < j < vals.len() ==> (#[trigger] vals[i]).0@ != (#[trigger] vals[j]).0@,
    ensures
        forall|k: int|
            0 <= k < positive_parts(vals, allocs).len() ==> exists|i: int|
                0 <= i < vals.len() && (#[trigger] positive_parts(vals, allocs)[k]) == (
                vals[i].0@,
                allocs[i],
            ) && allocs[i] > 0,
        forall|k1: int, k2: int|
            0 <= k1 < k2 < positive_parts(vals, allocs).len() ==> (#[trigger] positive_parts(
                vals,
                allocs,
            )[k1]).0 != (#[trigger] positive_parts(vals, allocs)[k2]).0,
        forall|k: int|
            0 <= k < positive_parts(vals, allocs).len() ==> (#[trigger] positive_parts(
                vals,
                allocs,
            )[k]).1 > 0,
        sum_pairs_of(positive_parts(vals, allocs)) == sum_allocs(allocs),
    decreases vals.len(),
{
    if vals.len() > 0 {
        let vt = vals.drop_last();
        let at = allocs.drop_last();
        assert(forall|i: int, j: int|
            0 <= i < j < vt.len() ==> (#[trigger] vt[i]).0@ != (#[trigger] vt[j]).0@);
        lemma_positive_parts_props(vt, at);
        let p = positive_parts(vals, allocs);
        let pt = positive_parts(vt, at);
        assert(forall|i: int| 0 <= i < vt.len() ==> (#[trigger] vt[i]) == vals[i]);
        assert(forall|i: int| 0 <= i < at.len() ==> (#[trigger] at[i]) == allocs[i]);
        if allocs.last() > 0 {
            assert(p.drop_last() =~= pt);
            assert(p.last() == (vals.last().0@, allocs.last()));
            assert(vals.last() == vals[vals.len() - 1]);
            assert(allocs.last() == allocs[allocs.len() - 1]);
            assert forall|k: int| 0 <= k < p.len() implies exists|i: int|
                0 <= i < vals.len() && (#[trigger] p[k]) == (vals[i].0@, allocs[i]) && allocs[i]
                > 0 by {
                if k < pt.len() {
                    let i = choose|i: int|
                        0 <= i < vt.len() && (#[trigger] pt[k]) == (vt[i].0@, at[i]) && at[i] > 0;
                    assert(p[k] == pt[k]);
                    assert(p[k] == (vals[i].0@, allocs[i]) && allocs[i] > 0);
                } else {
                    assert(p[k] == (vals[vals.len() - 1].0@, allocs[allocs.len() - 1]));
                }
            }
            assert forall|k1: int, k2: int| 0 <= k1 < k2 < p.len() implies (
            #[trigger] p[k1]).0 != (#[trigger] p[k2]).0 by {
                if k2 == p.len() - 1 {
                    let i = choose|i: int|
                        0 <= i < vt.len() && (#[trigger] pt[k1]) == (vt[i].0@, at[i]) && at[i]
                            > 0;
                    assert(p[k1] == pt[k1]);
                    assert(vals[i].0@ != vals[vals.len() - 1].0@);
                } else {
                    assert(p[k1] == pt[k1] && p[k2] == pt[k2]);
                }
            }
        } else {
            assert(p == pt);
            assert forall|k: int| 0 <= k < p.len() implies exists|i: int|
                0 <= i < vals.len() && (#[trigger] p[k]) == (vals[i].0@, allocs[i]) && allocs[i]
                > 0 by {
                let i = choose|i: int|
                    0 <= i < vt.len() && (#[trigger] pt[k]) == (vt[i].0@, at[i]) && at[i] > 0;
                assert(p[k] == (vals[i].0@, allocs[i]) && allocs[i] > 0);
            }
        }
    }
}


// ---------------------------------------------------------------------------
// The pending-operations table
// ---------------------------------------------------------------------------

/// Whether an operation group stakes a deposit or unstakes a burn.
#[derive(Clone, Copy, Debug, PartialEq, Eq, Structural)]
pub enum OpKind {
    Stake,
    Unstake,
}

/// The life of one dispatched request: `Dispatched` until its asynchronous
/// result arrives, then `Confirmed` or `Failed` — both terminal.  There are
/// no automatic retries; a retry is a new dispatch under a new correlation
/// id.
#[derive(Clone, Copy, Debug, PartialEq, Eq, Structural)]
pub enum OpStatus {
    Dispatched,
    Confirmed,
    Failed,
}

/// One dispatched request of a group: which validator, how much, and how
/// far along it is.
pub struct OpEntry {
    pub validator: AccountId,
    pub amount: u128,
    pub status: OpStatus,
}

/// The abstract value of an [`OpEntry`].
#[verifier::ext_equal]
pub ghost struct EntryView {
    pub validator: Seq<char>,
    pub amount: u128,
    pub status: OpStatus,
}

impl View for OpEntry {
    type V = EntryView;

    open spec fn view(&self) -> EntryView {
        EntryView { validator: self.validator@, amount: self.amount, status: self.status }
    }
}

/// One operation group: every request dispatched for a single deposit or
/// burn, keyed by a correlation id shared by the whole group.
pub struct OpGroup {
    pub op_id: u64,
    pub kind: OpKind,
    pub owner: AccountId,
    pub entries: Vec<OpEntry>,
}

/// The abstract value of an [`OpGroup`].
#[verifier::ext_equal]
pub ghost struct GroupView {
    pub op_id: u64,
    pub kind: OpKind,
    pub owner: Seq<char>,
    pub entries: Seq<EntryView>,
}

/// The abstract values of a sequence of entries.
pub open spec fn entries_view(es: Seq<OpEntry>) -> Seq<EntryView> {
    Seq::new(es.len(), |i: int| es[i]@)
}

impl View for OpGroup {
    type V = GroupView;

    open spec fn view(&self) -> GroupView {
        GroupView {
            op_id: self.op_id,
            kind: self.kind,
            owner: self.owner@,
            entries: entries_view(self.entries@),
        }
    }
}

/// One request the pool asks its host shell to dispatch: the correlation id
/// to report back with, the validator to call, and the amount to stake or
/// unstake.
pub struct StakeRequest {
    pub op_id: u64,
    pub validator: AccountId,
    pub amount: u128,
    pub kind: OpKind,
}

/// The abstract value of a [`StakeRequest`].
#[verifier::ext_equal]
pub ghost struct RequestView {
    pub op_id: u64,
    pub validator: Seq<char>,
    pub amount: u128,
    pub kind: OpKind,
}

impl View for StakeRequest {
    type V = RequestView;

    open spec fn view(&self) -> RequestView {
        RequestView {
            op_id: self.op_id,
            validator: self.validator@,
            amount: self.amount,
            kind: self.kind,
        }
    }
}

/// What a completed group reports: the group's kind and owner, how much of
/// it the validators confirmed, and the validators (with their amounts)
/// whose requests failed — surfaced as a list, never as a single boolean,
/// so the caller can drive an explicit compensation for exactly the failed
/// part.
pub struct GroupReport {
    pub kind: OpKind,
    pub owner: AccountId,
    pub confirmed_total: u128,
    pub failed: Vec<(AccountId, u128)>,
}

/// The abstract value of a [`GroupReport`].
#[verifier::ext_equal]
pub ghost struct ReportView {
    pub kind: OpKind,
    pub owner: Seq<char>,
    pub confirmed_total: u128,
    pub failed: Seq<(Seq<char>, u128)>,
}

impl View for GroupReport {
    type V = ReportView;

    open spec fn view(&self) -> ReportView {
        ReportView {
            kind: self.kind,
            owner: self.owner@,
            confirmed_total: self.confirmed_total,
            failed: Seq::new(self.failed@.len(), |i: int| (self.failed@[i].0@, self.failed@[i].1)),
        }
    }
}

// --- spec helpers over entry sequences ---

/// The sum of all amounts of `es`.
pub open spec fn sum_amounts(es: Seq<EntryView>) -> int
    decreases es.len(),
{
    if es.len() == 0 {
        0
    } else {
        sum_amounts(es.drop_last()) + es.last().amount
    }
}

/// The sum of the amounts of the confirmed entries of `es`.
pub open spec fn confirmed_sum(es: Seq<EntryView>) -> int
    decreases es.len(),
{
    if es.len() == 0 {
        0
    } else {
        confirmed_sum(es.drop_last()) + if es.last().status == OpStatus::Confirmed {
            es.last().amount as int
        } else {
            0
        }
    }
}

/// The `(validator, amount)` pairs of the failed entries of `es`, in order.
pub open spec fn failed_pairs(es: Seq<EntryView>) -> Seq<(Seq<char>, u128)>
    decreases es.len(),
{
    if es.len() == 0 {
        Seq::empty()
    } else if es.last().status == OpStatus::Failed {
        failed_pairs(es.drop_last()).push((es.last().validator, es.last().amount))
    } else {
        failed_pairs(es.drop_last())
    }
}

/// Some entry of `es` belongs to validator `v`.
pub open spec fn entry_has(es: Seq<EntryView>, v: Seq<char>) -> bool {
    exists|i: int| 0 <= i < es.len() && (#[trigger] es[i]).validator == v
}

/// The position of the first entry of `es` belonging to `v`.
pub open spec fn entry_index(es: Seq<EntryView>, v: Seq<char>) -> int
    decreases es.len(),
{
    if es.len() == 0 {
        0
    } else if es[0].validator == v {
        0
    } else {
        1 + entry_index(es.drop_first(), v)
    }
}

/// Every entry of `es` has reached a terminal status.
pub open spec fn group_complete(es: Seq<EntryView>) -> bool {
    forall|i: int| 0 <= i < es.len() ==> (#[trigger] es[i]).status != OpStatus::Dispatched
}

/// The entries a fresh dispatch of `parts` creates.
pub open spec fn dispatched_entries(parts: Seq<(AccountId, u128)>) -> Seq<EntryView> {
    Seq::new(
        parts.len(),
        |i: int| EntryView {
            validator: parts[i].0@,
            amount: parts[i].1,
            status: OpStatus::Dispatched,
        },
    )
}

/// The sum of the amounts of `parts`.
pub open spec fn sum_pairs(parts: Seq<(AccountId, u128)>) -> int
    decreases parts.len(),
{
    if parts.len() == 0 {
        0
    } else {
        sum_pairs(parts.drop_last()) + parts.last().1
    }
}

/// No two of `parts` name the same validator.
pub open spec fn pairs_unique(parts: Seq<(AccountId, u128)>) -> bool {
    forall|i: int, j: int|
        0 <= i < j < parts.len() ==> (#[trigger] parts[i]).0@ != (#[trigger] parts[j]).0@
}

/// A well-formed group: its entries name pairwise distinct validators, every
/// amount is positive, and the amounts sum within `u128`.
pub open spec fn group_wf(g: GroupView) -> bool {
    &&& forall|i: int, j: int|
        0 <= i < j < g.entries.len() ==> (#[trigger] g.entries[i]).validator != (
        #[trigger] g.entries[j]).validator
    &&& forall|i: int| 0 <= i < g.entries.len() ==> (#[trigger] g.entries[i]).amount > 0
    &&& sum_amounts(g.entries) <= u128::MAX
}

pub proof fn lemma_entry_index(es: Seq<EntryView>, v: Seq<char>)
    requires
        entry_has(es, v),
    ensures
        0 <= entry_index(es, v) < es.len(),
        es[entry_index(es, v)].validator == v,
    decreases es.len(),
{
    if es[0].validator == v {
    } else {
        let w = choose|i: int| 0 <= i < es.len() && (#[trigger] es[i]).validator == v;
        assert(es.drop_first()[w - 1].validator == v);
        assert(entry_has(es.drop_first(), v));
        lemma_entry_index(es.drop_first(), v);
    }
}

pub proof fn lemma_amounts_nonneg(es: Seq<EntryView>)
    ensures
        sum_amounts(es) >= 0,
    decreases es.len(),
{
    if es.len() > 0 {
        lemma_amounts_nonneg(es.drop_last());
    }
}

/// The confirmed part never exceeds the whole.
pub proof fn lemma_confirmed_le_sum(es: Seq<EntryView>)
    ensures
        0 <= confirmed_sum(es),
        confirmed_sum(es) <= sum_amounts(es),
    decreases es.len(),
{
    if es.len() > 0 {
        lemma_confirmed_le_sum(es.drop_last());
    }
}

/// Prefix amounts never exceed the whole.
pub proof fn lemma_amounts_prefix(es: Seq<EntryView>, i: int)
    requires
        0 <= i <= es.len(),
    ensures
        sum_amounts(es.subrange(0, i)) <= sum_amounts(es),
    decreases es.len() - i,
{
    if i == es.len() {
        assert(es.subrange(0, i) =~= es);
    } else {
        assert(es.subrange(0, i + 1) =~= es.subrange(0, i).push(es[i]));
        assert(es.subrange(0, i + 1).drop_last() =~= es.subrange(0, i));
        lemma_amounts_prefix(es, i + 1);
    }
}

/// The failed pairs of a well-formed group are themselves unique, positive
/// and within the group's sum.
pub proof fn lemma_failed_pairs_props(es: Seq<EntryView>)
    ensures
        failed_pairs(es).len() <= es.len(),
        forall|k: int|
            0 <= k < failed_pairs(es).len() ==> exists|i: int|
                0 <= i < es.len() && (#[trigger] failed_pairs(es)[k]) == (
                es[i].validator,
                es[i].amount,
            ) && es[i].status == OpStatus::Failed,
        sum_pairs_of(failed_pairs(es)) <= sum_amounts(es),
        sum_pairs_of(failed_pairs(es)) >= 0,
    decreases es.len(),
{
    if es.len() > 0 {
        lemma_failed_pairs_props(es.drop_last());
        lemma_amounts_nonneg(es.drop_last());
        let fp = failed_pairs(es);
        let fpt = failed_pairs(es.drop_last());
        if es.last().status == OpStatus::Failed {
            assert(fp.drop_last() =~= fpt);
            assert(fp.last() == (es.last().validator, es.last().amount));
        }
        assert forall|k: int| 0 <= k < fp.len() implies exists|i: int|
            0 <= i < es.len() && (#[trigger] fp[k]) == (es[i].validator, es[i].amount)
                && es[i].status == OpStatus::Failed by {
            if k < fpt.len() {
                let i = choose|i: int|
                    0 <= i < es.drop_last().len() && (#[trigger] fpt[k]) == (
                    es.drop_last()[i].validator,
                    es.drop_last()[i].amount,
                ) && es.drop_last()[i].status == OpStatus::Failed;
                assert(es[i] == es.drop_last()[i]);
                assert(fp[k] == fpt[k]);
            } else {
                assert(es.last().status == OpStatus::Failed && fp[k] == (
                    es.last().validator,
                    es.last().amount,
                ));
                assert(es[es.len() - 1] == es.last());
            }
        }
    }
}

/// The sum of the amounts of a sequence of name/amount pairs.
pub open spec fn sum_pairs_of(parts: Seq<(Seq<char>, u128)>) -> int
    decreases parts.len(),
{
    if parts.len() == 0 {
        0
    } else {
        sum_pairs_of(parts.drop_last()) + parts.last().1
    }
}


/// The `(validator, amount)` pairs of `a` read the same as the name/amount
/// pairs of `b`.
pub open spec fn pairs_match(a: Seq<(AccountId, u128)>, b: Seq<(Seq<char>, u128)>) -> bool {
    &&& a.len() == b.len()
    &&& forall|i: int|
        0 <= i < a.len() ==> (#[trigger] a[i]).0@ == b[i].0 && a[i].1 == b[i].1
}

/// The entries a fresh dispatch of already-abstract pairs creates.
pub open spec fn dispatched_of_pairs(parts: Seq<(Seq<char>, u128)>) -> Seq<EntryView> {
    Seq::new(
        parts.len(),
        |i: int| EntryView {
            validator: parts[i].0,
            amount: parts[i].1,
            status: OpStatus::Dispatched,
        },
    )
}

/// Dispatching stores exactly the pairs' amounts.
pub proof fn lemma_dispatched_sum(parts: Seq<(AccountId, u128)>)
    ensures
        sum_amounts(dispatched_entries(parts)) == sum_pairs(parts),
    decreases parts.len(),
{
    if parts.len() > 0 {
        lemma_dispatched_sum(parts.drop_last());
        assert(dispatched_entries(parts).drop_last() =~= dispatched_entries(parts.drop_last()));
    }
}

/// Matching pair sequences carry the same amounts.
pub proof fn lemma_pairs_match_sum(a: Seq<(AccountId, u128)>, b: Seq<(Seq<char>, u128)>)
    requires
        pairs_match(a, b),
    ensures
        sum_pairs(a) == sum_pairs_of(b),
    decreases a.len(),
{
    if a.len() > 0 {
        assert(pairs_match(a.drop_last(), b.drop_last()));
        lemma_pairs_match_sum(a.drop_last(), b.drop_last());
    }
}

/// The failed pairs of entries with pairwise distinct validators are
/// themselves pairwise distinct.
pub proof fn lemma_failed_pairs_unique(es: Seq<EntryView>)
    requires
        forall|i: int, j: int|
            0 <= i < j < es.len() ==> (#[trigger] es[i]).validator != (#[trigger] es[j]).validator,
    ensures
        forall|k1: int, k2: int|
            0 <= k1 < k2 < failed_pairs(es).len() ==> (#[trigger] failed_pairs(es)[k1]).0 != (
            #[trigger] failed_pairs(es)[k2]).0,
    decreases es.len(),
{
    if es.len() > 0 {
        let t = es.drop_last();
        assert(forall|i: int, j: int|
            0 <= i < j < t.len() ==> (#[trigger] t[i]).validator != (#[trigger] t[j]).validator);
        lemma_failed_pairs_unique(t);
        lemma_failed_pairs_props(t);
        let fp = failed_pairs(es);
        let fpt = failed_pairs(t);
        if es.last().status == OpStatus::Failed {
            assert(fp.drop_last() =~= fpt);
            assert(fp.last() == (es.last().validator, es.last().amount));
            assert forall|k1: int, k2: int|
                0 <= k1 < k2 < fp.len() implies (#[trigger] fp[k1]).0 != (#[trigger] fp[k2]).0 by {
                if k2 == fp.len() - 1 {
                    let i = choose|i: int|
                        0 <= i < t.len() && (#[trigger] fpt[k1]) == (t[i].validator, t[i].amount)
                            && t[i].status == OpStatus::Failed;
                    assert(es[i] == t[i]);
                    assert(es[i].validator != es[es.len() - 1].validator);
                    assert(fp[k1] == fpt[k1]);
                } else {
                    assert(fp[k1] == fpt[k1] && fp[k2] == fpt[k2]);
                }
            }
        }
    }
}

/// The pending-operations table: every group ever dispatched, the group's
/// correlation id being its position, so ids are never reused.  Terminal
/// groups stay as a record of what was confirmed and what failed.
pub struct OpTable {
    groups: Vec<OpGroup>,
}

impl View for OpTable {
    type V = Seq<GroupView>;

    closed spec fn view(&self) -> Seq<GroupView> {
        Seq::new(self.groups@.len(), |i: int| self.groups@[i]@)
    }
}

impl OpTable {
    /// The table invariant: each group's id is its position, and each group
    /// is well-formed ([`group_wf`]).
    pub open spec fn wf(&self) -> bool {
        &&& forall|i: int| 0 <= i < self@.len() ==> (#[trigger] self@[i]).op_id == i as u64
        &&& forall|i: int| 0 <= i < self@.len() ==> group_wf(#[trigger] self@[i])
    }

    pub fn new() -> (r: OpTable)
        ensures
            r.wf(),
            r@ == Seq::<GroupView>::empty(),
    {
        let r = OpTable { groups: Vec::new() };
        proof {
            assert(r@ =~= Seq::<GroupView>::empty());
        }
        r
    }

    /// How many groups were ever dispatched (also: the next correlation id).
    pub fn group_count(&self) -> (n: usize)
        ensures
            n == self@.len(),
    {
        self.groups.len()
    }

    /// Opens a new group: one `Dispatched` entry and one returned request
    /// per part, all under the next correlation id.
    pub fn create_group(&mut self, kind: OpKind, owner: AccountId, parts: &Vec<(AccountId, u128)>)
        -> (r: Vec<StakeRequest>)
        requires
            old(self).wf(),
            pairs_unique(parts@),
            forall|i: int| 0 <= i < parts@.len() ==> (#[trigger] parts@[i]).1 > 0,
            sum_pairs(parts@) <= u128::MAX,
        ensures
            final(self).wf(),
            final(self)@ == old(self)@.push(
                (GroupView {
                    op_id: old(self)@.len() as u64,
                    kind: kind,
                    owner: owner@,
                    entries: dispatched_entries(parts@),
                }),
            ),
            r@.len() == parts@.len(),
            forall|i: int|
                0 <= i < parts@.len() ==> (#[trigger] r@[i])@ == (RequestView {
                    op_id: old(self)@.len() as u64,
                    validator: parts@[i].0@,
                    amount: parts@[i].1,
                    kind: kind,
                }),
    {
        let op_id = self.groups.len() as u64;
        let n = parts.len();
        let mut entries: Vec<OpEntry> = Vec::new();
        let mut reqs: Vec<StakeRequest> = Vec::new();
        let mut i: usize = 0;
        while i < n
            invariant
                n == parts@.len(),
                i <= n,
                entries@.len() == i,
                reqs@.len() == i,
                forall|j: int|
                    0 <= j < i ==> (#[trigger] entries@[j])@ == dispatched_entries(parts@)[j],
                forall|j: int|
                    0 <= j < i ==> (#[trigger] reqs@[j])@ == (RequestView {
                        op_id: op_id,
                        validator: parts@[j].0@,
                        amount: parts@[j].1,
                        kind: kind,
                    }),
            decreases n - i,
        {
            let v1 = parts[i].0.clone();
            let v2 = parts[i].0.clone();
            let amt = parts[i].1;
            entries.push(OpEntry { validator: v1, amount: amt, status: OpStatus::Dispatched });
            reqs.push(StakeRequest { op_id: op_id, validator: v2, amount: amt, kind: kind });
            i = i + 1;
        }
        let ghost prev = *self;
        let g = OpGroup { op_id: op_id, kind: kind, owner: owner, entries: entries };
        let ghost gv = g@;
        self.groups.push(g);
        proof {
            assert(gv.entries =~= dispatched_entries(parts@));
            lemma_dispatched_sum(parts@);
            assert(self@ =~= prev@.push(gv));
        }
        reqs
    }

    /// The position of the entry of `entries` that belongs to `v`, if any.
    fn find_entry(entries: &Vec<OpEntry>, v: &AccountId) -> (r: Option<usize>)
        ensures
            match r {
                Some(i) => i < entries@.len() && entries_view(entries@)[i as int].validator == v@,
                None => !entry_has(entries_view(entries@), v@),
            },
    {
        let n = entries.len();
        let mut i: usize = 0;
        while i < n
            invariant
                n == entries@.len(),
                i <= n,
                forall|j: int|
                    0 <= j < i ==> (#[trigger] entries_view(entries@)[j]).validator != v@,
            decreases n - i,
        {
            if entries[i].validator == *v {
                return Some(i);
            }
            proof {
                assert(entries_view(entries@)[i as int].validator == entries@[i as int].validator@);
            }
            i = i + 1;
        }
        None
    }

    /// Records one asynchronous result: the entry for `(op_id, validator)`
    /// moves from `Dispatched` to `Confirmed` or `Failed`.  When that was
    /// the group's last outstanding entry, the completed group's report is
    /// returned; partial failure is surfaced there as the list of failed
    /// validators, never as a single boolean.
    pub fn on_result(&mut self, op_id: u64, validator: &AccountId, success: bool) -> (r: Result<
        Option<GroupReport>,
        Error,
    >)
        requires
            old(self).wf(),
        ensures
            final(self).wf(),
            (op_id as int) >= old(self)@.len() ==> r == Err::<Option<GroupReport>, Error>(
                Error::UnknownOperation,
            ) && final(self)@ == old(self)@,
            (op_id as int) < old(self)@.len() && !entry_has(
                old(self)@[op_id as int].entries,
                validator@,
            ) ==> r == Err::<Option<GroupReport>, Error>(Error::UnknownOperation) && final(self)@
                == old(self)@,
            (op_id as int) < old(self)@.len() && entry_has(
                old(self)@[op_id as int].entries,
                validator@,
            ) && old(self)@[op_id as int].entries[entry_index(
                old(self)@[op_id as int].entries,
                validator@,
            )].status != OpStatus::Dispatched ==> r == Err::<Option<GroupReport>, Error>(
                Error::OperationAlreadyResolved,
            ) && final(self)@ == old(self)@,
            (op_id as int) < old(self)@.len() && entry_has(
                old(self)@[op_id as int].entries,
                validator@,
            ) && old(self)@[op_id as int].entries[entry_index(
                old(self)@[op_id as int].entries,
                validator@,
            )].status == OpStatus::Dispatched ==> ({
                let g = old(self)@[op_id as int];
                let ei = entry_index(g.entries, validator@);
                let ns = if success {
                    OpStatus::Confirmed
                } else {
                    OpStatus::Failed
                };
                let g2 = (GroupView {
                    entries: g.entries.update(ei, (EntryView { status: ns, ..g.entries[ei] })),
                    ..g
                });
                &&& final(self)@ == old(self)@.update(op_id as int, g2)
                &&& (group_complete(g2.entries) ==> (r matches Ok(o) && o matches Some(rep)
                    && rep@ == (ReportView {
                    kind: g.kind,
                    owner: g.owner,
                    confirmed_total: confirmed_sum(g2.entries) as u128,
                    failed: failed_pairs(g2.entries),
                })))
                &&& (!group_complete(g2.entries) ==> r == Ok::<Option<GroupReport>, Error>(None))
            }),
    {
        let ghost prev = *self;
        let nlen = self.groups.len();
        if op_id >= nlen as u64 {
            return Err(Error::UnknownOperation);
        }
        let gi = op_id as usize;
        match Self::find_entry(&self.groups[gi].entries, validator) {
            None => Err(Error::UnknownOperation),
            Some(ei) => {
                proof {
                    lemma_entry_index(prev@[gi as int].entries, validator@);
                    let w = entry_index(prev@[gi as int].entries, validator@);
                    if w != ei as int {
                        assert(prev@[gi as int].entries[w].validator == prev@[gi as int].entries[
                            ei as int].validator);
                    }
                }
                let st = self.groups[gi].entries[ei].status;
                if st != OpStatus::Dispatched {
                    return Err(Error::OperationAlreadyResolved);
                }
                let ns = if success {
                    OpStatus::Confirmed
                } else {
                    OpStatus::Failed
                };
                let vcl = self.groups[gi].entries[ei].validator.clone();
                let amt = self.groups[gi].entries[ei].amount;
                self.groups[gi].entries[ei] = OpEntry { validator: vcl, amount: amt, status: ns };
                proof {
                    let g = prev@[gi as int];
                    let ei_ = ei as int;
                    let e2 = (EntryView { status: ns, ..g.entries[ei_] });
                    let g2 = (GroupView { entries: g.entries.update(ei_, e2), ..g });
                    assert(entries_view(self.groups@[gi as int].entries@) =~= g2.entries);
                    assert(self@[gi as int] == g2);
                    assert(self@ =~= prev@.update(gi as int, g2));
                    lemma_amounts_same(g.entries, g2.entries);
                }
                self.scan_group(gi)
            },
        }
    }

    /// Scans the group at `gi`: if every entry is terminal, builds its
    /// report.
    fn scan_group(&self, gi: usize) -> (r: Result<
        Option<GroupReport>,
        Error,
    >)
        requires
            self.wf(),
            gi < self@.len(),
        ensures
            group_complete(self@[gi as int].entries) ==> (r matches Ok(o) && o matches Some(rep)
                && rep@ == (ReportView {
                kind: self@[gi as int].kind,
                owner: self@[gi as int].owner,
                confirmed_total: confirmed_sum(self@[gi as int].entries) as u128,
                failed: failed_pairs(self@[gi as int].entries),
            })),
            !group_complete(self@[gi as int].entries) ==> r == Ok::<Option<GroupReport>, Error>(
                None,
            ),
    {
        let ghost es = self@[gi as int].entries;
        let m = self.groups[gi].entries.len();
        let mut complete = true;
        let mut conf: u128 = 0;
        let mut failed: Vec<(AccountId, u128)> = Vec::new();
        let mut k: usize = 0;
        proof {
            lemma_confirmed_le_sum(es);
        }
        while k < m
            invariant
                self.wf(),
                gi < self@.len(),
                es == self@[gi as int].entries,
                m == es.len(),
                k <= m,
                complete == group_complete(es.subrange(0, k as int)),
                conf == confirmed_sum(es.subrange(0, k as int)),
                pairs_match(failed@, failed_pairs(es.subrange(0, k as int))),
            decreases m - k,
        {
            proof {
                assert(es.subrange(0, k as int + 1).drop_last() =~= es.subrange(0, k as int));
                assert(es.subrange(0, k as int + 1).last() == es[k as int]);
                lemma_confirmed_le_sum(es.subrange(0, k as int + 1));
                lemma_amounts_prefix(es, k as int + 1);
                assert(es[k as int] == entries_view(self.groups@[gi as int].entries@)[k as int]);
            }
            let st = self.groups[gi].entries[k].status;
            if st == OpStatus::Dispatched {
                complete = false;
            } else if st == OpStatus::Confirmed {
                conf = conf + self.groups[gi].entries[k].amount;
            } else {
                let nm = self.groups[gi].entries[k].validator.clone();
                let am = self.groups[gi].entries[k].amount;
                failed.push((nm, am));
            }
            proof {
                let p1 = es.subrange(0, k as int + 1);
                if es[k as int].status == OpStatus::Failed {
                    assert(failed_pairs(p1) == failed_pairs(es.subrange(0, k as int)).push(
                        (es[k as int].validator, es[k as int].amount),
                    ));
                }
            }
            k = k + 1;
        }
        proof {
            assert(es.subrange(0, m as int) =~= es);
        }
        if complete {
            let rep = GroupReport {
                kind: self.groups[gi].kind,
                owner: self.groups[gi].owner.clone(),
                confirmed_total: conf,
                failed: failed,
            };
            proof {
                assert(rep@.failed =~= failed_pairs(es));
            }
            Ok(Some(rep))
        } else {
            Ok(None)
        }
    }

    /// Re-issues the failed part of a completed group as a fresh group with
    /// a new correlation id: the explicit compensation path for partial
    /// failure.  Nothing is retried automatically, and the original group's
    /// record is left as it is; a group that still has results outstanding
    /// cannot be retried, and a fully confirmed group yields no requests
    /// and no new group.
    pub fn retry_failed(&mut self, op_id: u64) -> (r: Result<Vec<StakeRequest>, Error>)
        requires
            old(self).wf(),
        ensures
            final(self).wf(),
            (op_id as int) >= old(self)@.len() ==> r == Err::<Vec<StakeRequest>, Error>(
                Error::UnknownOperation,
            ) && final(self)@ == old(self)@,
            (op_id as int) < old(self)@.len() && !group_complete(
                old(self)@[op_id as int].entries,
            ) ==> r == Err::<Vec<StakeRequest>, Error>(Error::OperationPending) && final(self)@
                == old(self)@,
            (op_id as int) < old(self)@.len() && group_complete(old(self)@[op_id as int].entries)
                && failed_pairs(old(self)@[op_id as int].entries).len() == 0 ==> (r matches Ok(v)
                && v@.len() == 0) && final(self)@ == old(self)@,
            (op_id as int) < old(self)@.len() && group_complete(old(self)@[op_id as int].entries)
                && failed_pairs(old(self)@[op_id as int].entries).len() > 0 ==> ({
                let g = old(self)@[op_id as int];
                let fp = failed_pairs(g.entries);
                &&& final(self)@ == old(self)@.push(
                    (GroupView {
                        op_id: old(self)@.len() as u64,
                        kind: g.kind,
                        owner: g.owner,
                        entries: dispatched_of_pairs(fp),
                    }),
                )
                &&& r matches Ok(reqs)
                &&& (r matches Ok(reqs) ==> reqs@.len() == fp.len() && (forall|i: int|
                    0 <= i < fp.len() ==> (#[trigger] reqs@[i])@ == (RequestView {
                        op_id: old(self)@.len() as u64,
                        validator: fp[i].0,
                        amount: fp[i].1,
                        kind: g.kind,
                    })))
            }),
    {
        let ghost prev = *self;
        let nlen = self.groups.len();
        if op_id >= nlen as u64 {
            return Err(Error::UnknownOperation);
        }
        let gi = op_id as usize;
        let ghost es = self@[gi as int].entries;
        let m = self.groups[gi].entries.len();
        let mut complete = true;
        let mut failed: Vec<(AccountId, u128)> = Vec::new();
        let mut k: usize = 0;
        while k < m
            invariant
                *self == prev,
                self.wf(),
                gi < self@.len(),
                es == self@[gi as int].entries,
                m == es.len(),
                k <= m,
                complete == group_complete(es.subrange(0, k as int)),
                pairs_match(failed@, failed_pairs(es.subrange(0, k as int))),
            decreases m - k,
        {
            proof {
                assert(es.subrange(0, k as int + 1).drop_last() =~= es.subrange(0, k as int));
                assert(es.subrange(0, k as int + 1).last() == es[k as int]);
                assert(es[k as int] == entries_view(self.groups@[gi as int].entries@)[k as int]);
            }
            let st = self.groups[gi].entries[k].status;
            if st == OpStatus::Dispatched {
                complete = false;
            } else if st == OpStatus::Failed {
                let nm = self.groups[gi].entries[k].validator.clone();
                let am = self.groups[gi].entries[k].amount;
                failed.push((nm, am));
            }
            k = k + 1;
        }
        proof {
            assert(es.subrange(0, m as int) =~= es);
        }
        if !complete {
            return Err(Error::OperationPending);
        }
        if failed.len() == 0 {
            return Ok(Vec::new());
        }
        proof {
            let fp = failed_pairs(es);
            lemma_failed_pairs_unique(es);
            lemma_failed_pairs_props(es);
            lemma_pairs_match_sum(failed@, fp);
            assert forall|i0: int| 0 <= i0 < failed@.len() implies (#[trigger] failed@[i0]).1
                > 0 by {
                let w = choose|w: int|
                    0 <= w < es.len() && (#[trigger] fp[i0]) == (es[w].validator, es[w].amount)
                        && es[w].status == OpStatus::Failed;
                assert(failed@[i0].1 == fp[i0].1);
            }
            assert(pairs_unique(failed@));
            lemma_amounts_nonneg(es);
        }
        let owner2 = self.groups[gi].owner.clone();
        let kind2 = self.groups[gi].kind;
        let reqs = self.create_group(kind2, owner2, &failed);
        proof {
            let fp = failed_pairs(es);
            assert(dispatched_entries(failed@) =~= dispatched_of_pairs(fp));
        }
        Ok(reqs)
    }
}

/// Entries that differ only in status carry the same amounts.
pub proof fn lemma_amounts_same(a: Seq<EntryView>, b: Seq<EntryView>)
    requires
        a.len() == b.len(),
        forall|i: int| 0 <= i < a.len() ==> (#[trigger] b[i]).amount == a[i].amount,
    ensures
        sum_amounts(a) == sum_amounts(b),
    decreases a.len(),
{
    if a.len() > 0 {
        assert(forall|i: int|
            0 <= i < a.drop_last().len() ==> (#[trigger] b.drop_last()[i]).amount
                == a.drop_last()[i].amount);
        lemma_amounts_same(a.drop_last(), b.drop_last());
    }
}

} // verus!
