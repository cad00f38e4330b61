//! Rearrangements of a range of a sequence.
//!
//! The sorting routines work on a range of a slice and leave the rest alone.
//! [`rearranged_within`] says so: the range holds the same values as before,
//! each as often as before, and nothing outside it has changed.

use crate::order::{lemma_sorted_rearrangement_unique, sorted, SortKey};
use vstd::prelude::*;
use vstd::seq_lib::{lemma_multiset_commutative, to_multiset_contains, to_multiset_update};

verus! {

/// `after` is `before` with the values at the positions `lo..hi` rearranged
/// among themselves.
pub open spec fn rearranged_within<T>(before: Seq<T>, after: Seq<T>, lo: int, hi: int) -> bool
    recommends
        0 <= lo <= hi <= before.len(),
{
    &&& after.len() == before.len()
    &&& after.subrange(lo, hi).to_multiset() == before.subrange(lo, hi).to_multiset()
    &&& forall|k: int| 0 <= k < before.len() && !(lo <= k < hi) ==> after[k] == before[k]
}

/// `s` with the values at `i` and `j` exchanged.
pub open spec fn swapped<T>(s: Seq<T>, i: int, j: int) -> Seq<T>
    recommends
        0 <= i < s.len(),
        0 <= j < s.len(),
{
    s.update(i, s[j]).update(j, s[i])
}

/// Exchanges the values at `i` and `j`.
pub fn swap<T: Copy>(slice: &mut [T], i: usize, j: usize)
    requires
        i < old(slice)@.len(),
        j < old(slice)@.len(),
    ensures
        final(slice)@ == swapped(old(slice)@, i as int, j as int),
{
    let at_i = slice[i];
    let at_j = slice[j];
    slice[i] = at_j;
    slice[j] = at_i;
}

/// Exchanging two values of a range rearranges that range.
pub proof fn lemma_swap_rearranges<T>(s: Seq<T>, i: int, j: int, lo: int, hi: int)
    requires
        0 <= lo <= i < hi <= s.len(),
        lo <= j < hi,
    ensures
        rearranged_within(s, swapped(s, i, j), lo, hi),
{
    let part = s.subrange(lo, hi);
    let half = part.update(i - lo, s[j]);
    assert(swapped(s, i, j).subrange(lo, hi) =~= half.update(j - lo, s[i]));
    to_multiset_update(part, i - lo, s[j]);
    to_multiset_update(half, j - lo, s[i]);
    to_multiset_contains(part, s[i]);
    to_multiset_contains(part, s[j]);
    assert(part[i - lo] == s[i] && part[j - lo] == s[j]);
    assert(half.update(j - lo, s[i]).to_multiset() =~= part.to_multiset());
}

/// A rearrangement of a range is one of every range that holds it.
pub proof fn lemma_rearranged_widen<T>(
    before: Seq<T>,
    after: Seq<T>,
    lo: int,
    hi: int,
    wide_lo: int,
    wide_hi: int,
)
    requires
        0 <= wide_lo <= lo <= hi <= wide_hi <= before.len(),
        rearranged_within(before, after, lo, hi),
    ensures
        rearranged_within(before, after, wide_lo, wide_hi),
{
    let head = before.subrange(wide_lo, lo);
    let tail = before.subrange(hi, wide_hi);
    assert(after.subrange(wide_lo, lo) =~= head);
    assert(after.subrange(hi, wide_hi) =~= tail);
    assert(before.subrange(wide_lo, wide_hi) =~= (head + before.subrange(lo, hi)) + tail);
    assert(after.subrange(wide_lo, wide_hi) =~= (head + after.subrange(lo, hi)) + tail);
    lemma_multiset_commutative(head, before.subrange(lo, hi));
    lemma_multiset_commutative(head, after.subrange(lo, hi));
    lemma_multiset_commutative(head + before.subrange(lo, hi), tail);
    lemma_multiset_commutative(head + after.subrange(lo, hi), tail);
}

/// Rearranging twice within one range is rearranging once.
pub proof fn lemma_rearranged_twice<T>(
    first: Seq<T>,
    second: Seq<T>,
    third: Seq<T>,
    lo: int,
    hi: int,
)
    requires
        rearranged_within(first, second, lo, hi),
        rearranged_within(second, third, lo, hi),
    ensures
        rearranged_within(first, third, lo, hi),
{
}

/// A rearrangement of the whole sequence keeps its multiset of values.
pub proof fn lemma_rearranged_whole<T>(before: Seq<T>, after: Seq<T>)
    requires
        rearranged_within(before, after, 0, before.len() as int),
    ensures
        after.to_multiset() == before.to_multiset(),
{
    assert(before.subrange(0, before.len() as int) =~= before);
    assert(after.subrange(0, after.len() as int) =~= after);
}

/// A sequence whose whole range was sorted is sorted, holds what it held
/// before, and has not changed at all if it was sorted before.
pub proof fn lemma_whole_range_sorted<T: SortKey>(before: Seq<T>, after: Seq<T>)
    requires
        rearranged_within(before, after, 0, before.len() as int),
        sorted(after.subrange(0, before.len() as int)),
    ensures
        sorted(after),
        after.to_multiset() == before.to_multiset(),
        sorted(before) ==> after == before,
{
    lemma_rearranged_whole(before, after);
    assert(after.subrange(0, before.len() as int) =~= after);
    if sorted(before) {
        lemma_sorted_rearrangement_unique(after, before);
    }
}

/// Every value found in a rearranged range was in that range before.
pub proof fn lemma_rearranged_member<T>(before: Seq<T>, after: Seq<T>, lo: int, hi: int, k: int)
    requires
        0 <= lo <= k < hi <= before.len(),
        rearranged_within(before, after, lo, hi),
    ensures
        exists|m: int| lo <= m < hi && before[m] == after[k],
{
    let old_part = before.subrange(lo, hi);
    let new_part = after.subrange(lo, hi);
    assert(new_part[k - lo] == after[k]);
    assert(new_part.contains(after[k]));
    to_multiset_contains(new_part, after[k]);
    to_multiset_contains(old_part, after[k]);
    let m = choose|m: int| 0 <= m < old_part.len() && old_part[m] == after[k];
    assert(before[m + lo] == after[k]);
}

} // verus!
