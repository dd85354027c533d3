//! Sums over sequences of quantities, by which the colony's books are kept.

use vstd::prelude::*;

verus! {

/// The sum of the entries of `amounts`.
pub open spec fn total(amounts: Seq<nat>) -> nat
    decreases amounts.len(),
{
    if amounts.len() == 0 {
        0
    } else {
        total(amounts.drop_last()) + amounts.last()
    }
}

/// One more entry adds its amount.
pub proof fn lemma_total_push(amounts: Seq<nat>, amount: nat)
    ensures
        total(amounts.push(amount)) == total(amounts) + amount,
{
    assert(amounts.push(amount).drop_last() =~= amounts);
}

/// Replacing one entry changes the sum by the difference of the two.
pub proof fn lemma_total_update(amounts: Seq<nat>, index: int, amount: nat)
    requires
        0 <= index < amounts.len(),
    ensures
        total(amounts.update(index, amount)) + amounts[index] == total(amounts) + amount,
    decreases amounts.len(),
{
    let updated = amounts.update(index, amount);
    if index == amounts.len() - 1 {
        assert(updated.drop_last() =~= amounts.drop_last());
    } else {
        lemma_total_update(amounts.drop_last(), index, amount);
        assert(updated.drop_last() =~= amounts.drop_last().update(index, amount));
    }
}

/// Where every entry of `whole` is the sum of the entries of `left` and
/// `right` at the same place, so are the three sums.
pub proof fn lemma_total_split(whole: Seq<nat>, left: Seq<nat>, right: Seq<nat>)
    requires
        whole.len() == left.len(),
        whole.len() == right.len(),
        forall|i: int| 0 <= i < whole.len() ==> whole[i] == left[i] + right[i],
    ensures
        total(whole) == total(left) + total(right),
    decreases whole.len(),
{
    if whole.len() > 0 {
        lemma_total_split(whole.drop_last(), left.drop_last(), right.drop_last());
    }
}

/// A sequence that is nowhere above another has no larger a sum.
pub proof fn lemma_total_below(lower: Seq<nat>, upper: Seq<nat>)
    requires
        lower.len() == upper.len(),
        forall|i: int| 0 <= i < lower.len() ==> lower[i] <= upper[i],
    ensures
        total(lower) <= total(upper),
    decreases lower.len(),
{
    if lower.len() > 0 {
        lemma_total_below(lower.drop_last(), upper.drop_last());
    }
}

/// The sum of the first `count` entries is no more than the whole sum.
pub proof fn lemma_total_prefix(amounts: Seq<nat>, count: int)
    requires
        0 <= count <= amounts.len(),
    ensures
        total(amounts.take(count)) <= total(amounts),
    decreases amounts.len(),
{
    if count < amounts.len() {
        lemma_total_prefix(amounts.drop_last(), count);
        assert(amounts.drop_last().take(count) =~= amounts.take(count));
    } else {
        assert(amounts.take(count) =~= amounts);
    }
}

/// Entries that are all zero sum to zero.
pub proof fn lemma_total_zero(amounts: Seq<nat>)
    requires
        forall|i: int| 0 <= i < amounts.len() ==> amounts[i] == 0,
    ensures
        total(amounts) == 0,
    decreases amounts.len(),
{
    if amounts.len() > 0 {
        lemma_total_zero(amounts.drop_last());
    }
}

/// Entries that are each at most `bound` sum to at most `bound` times their
/// number.
pub proof fn lemma_total_bounded(amounts: Seq<nat>, bound: nat)
    requires
        forall|i: int| 0 <= i < amounts.len() ==> amounts[i] <= bound,
    ensures
        total(amounts) <= bound * amounts.len(),
    decreases amounts.len(),
{
    if amounts.len() > 0 {
        lemma_total_bounded(amounts.drop_last(), bound);
        assert(bound * amounts.len() == bound * (amounts.len() - 1) + bound) by (nonlinear_arith);
    }
}

/// The sum of two sequences laid end to end is the sum of their sums.
pub proof fn lemma_total_concat(front: Seq<nat>, back: Seq<nat>)
    ensures
        total(front + back) == total(front) + total(back),
    decreases back.len(),
{
    if back.len() == 0 {
        assert(front + back =~= front);
    } else {
        lemma_total_concat(front, back.drop_last());
        assert((front + back).drop_last() =~= front + back.drop_last());
    }
}

/// No entry is more than the sum.
pub proof fn lemma_total_entry(amounts: Seq<nat>, index: int)
    requires
        0 <= index < amounts.len(),
    ensures
        amounts[index] <= total(amounts),
{
    lemma_total_update(amounts, index, 0);
}

} // verus!
