//! Quicksort with a median-of-three pivot and a two-cursor partition.

use crate::insertion_sort::insertion_sort_range;
use crate::order::{sorted, SortKey};
use crate::permutation::{
    lemma_rearranged_member, lemma_rearranged_twice, lemma_rearranged_widen,
    lemma_swap_rearranges, lemma_whole_range_sorted, rearranged_within, swap, swapped,
};
use crate::INSERTION_SIZE;
use vstd::prelude::*;

verus! {

/// The position halfway between `left` and `right`, rounded down.
pub open spec fn midpoint(left: int, right: int) -> int {
    left + (right - left) / 2
}

/// The middle one of three integers: the one that is neither below nor
/// above both others.
pub open spec fn median(a: int, b: int, c: int) -> int {
    if (a <= b && b <= c) || (c <= b && b <= a) {
        b
    } else if (b <= a && a <= c) || (c <= a && a <= b) {
        a
    } else {
        c
    }
}

/// The key that a partition of `left..=right` pivots on: the median of the
/// keys at the two ends and at the midpoint.
pub open spec fn pivot_key<T: SortKey>(s: Seq<T>, left: int, right: int) -> int
    recommends
        0 <= left <= right < s.len(),
{
    median(s[left].key(), s[midpoint(left, right)].key(), s[right].key())
}

/// The positions `lo..hi` of `s` are split at `p`: nothing before `p` goes
/// after the value at `p`, and nothing behind `p` goes before it.
pub open spec fn partitioned_at<T: SortKey>(s: Seq<T>, lo: int, hi: int, p: int) -> bool
    recommends
        0 <= lo <= hi <= s.len(),
{
    &&& lo <= p < hi
    &&& forall|k: int| lo <= k < p ==> (#[trigger] s[k]).key() <= s[p].key()
    &&& forall|k: int| p < k < hi ==> s[p].key() <= (#[trigger] s[k]).key()
}

/// Picks the pivot of `left..=right`: of the two ends and the midpoint, the
/// position whose key is the median of the three.
pub fn median_of_three<T: SortKey>(slice: &[T], left: usize, right: usize) -> (m: usize)
    requires
        left <= right < slice@.len(),
    ensures
        m == left || m == midpoint(left as int, right as int) || m == right,
        slice@[m as int].key() == pivot_key(slice@, left as int, right as int),
{
    let mid: usize = left + (right - left) / 2;
    let first = slice[left];
    let middle = slice[mid];
    let last = slice[right];
    if first.less_or_equal(&middle) {
        if middle.less_or_equal(&last) {
            mid
        } else if first.less_or_equal(&last) {
            right
        } else {
            left
        }
    } else if first.less_or_equal(&last) {
        left
    } else if middle.less_or_equal(&last) {
        right
    } else {
        mid
    }
}

/// Partitions `left..=right` around its median-of-three pivot and returns
/// the position where the pivot comes to rest.
///
/// Two cursors close in from the ends. The right one passes every value
/// that goes after the pivot, the left one every value that goes before it;
/// the two values they stop at are exchanged, and when one of them is the
/// pivot itself the pivot position follows it. Each exchange moves a cursor,
/// so a range of equal keys is walked once, and the cursors meet on the
/// pivot.
pub fn partition<T: SortKey>(slice: &mut [T], left: usize, right: usize) -> (p: usize)
    requires
        left <= right < old(slice)@.len(),
    ensures
        rearranged_within(old(slice)@, final(slice)@, left as int, right + 1),
        partitioned_at(final(slice)@, left as int, right + 1, p as int),
        final(slice)@[p as int].key() == pivot_key(old(slice)@, left as int, right as int),
{
    let ghost before = slice@;
    let mut p: usize = median_of_three(slice, left, right);
    let pivot = slice[p];
    let mut l: usize = left;
    let mut r: usize = right;
    assert(slice@.len() == slice.len());
    while l < r
        invariant
            left <= l <= p <= r <= right < slice@.len() <= usize::MAX,
            slice@[p as int] == pivot,
            rearranged_within(before, slice@, left as int, right + 1),
            forall|k: int| left <= k < l ==> (#[trigger] slice@[k]).key() <= pivot.key(),
            forall|k: int| r < k <= right ==> pivot.key() <= (#[trigger] slice@[k]).key(),
        decreases r - l,
    {
        let ghost r_start = r;
        let ghost l_start = l;
        while slice[r].greater_than(&pivot)
            invariant
                p <= r <= r_start,
                r <= right < slice@.len(),
                slice@[p as int] == pivot,
                forall|k: int| r < k <= right ==> pivot.key() <= (#[trigger] slice@[k]).key(),
            decreases r,
        {
            r -= 1;
        }
        while pivot.greater_than(&slice[l])
            invariant
                l_start <= l,
                left <= l <= p < slice@.len(),
                slice@[p as int] == pivot,
                forall|k: int| left <= k < l ==> (#[trigger] slice@[k]).key() <= pivot.key(),
            decreases p - l,
        {
            l += 1;
        }
        if l < r {
            proof {
                lemma_swap_rearranges(slice@, l as int, r as int, left as int, right + 1);
                lemma_rearranged_twice(
                    before,
                    slice@,
                    swapped(slice@, l as int, r as int),
                    left as int,
                    right + 1,
                );
            }
            swap(slice, l, r);
            if l == p {
                p = r;
                l += 1;
            } else if r == p {
                p = l;
                r -= 1;
            } else {
                l += 1;
                r -= 1;
            }
        }
    }
    p
}

/// Sorts the positions `left..=right` of `slice` and leaves the rest alone.
///
/// A range of at most [`INSERTION_SIZE`] values is sorted by insertion. A
/// longer one is partitioned, and the parts on either side of the pivot are
/// sorted in turn, each only if it is not empty. The calls nest as deep as
/// the pivots split unevenly: about as deep as the logarithm of the length
/// where they split it in halves, and never deeper than the range is long.
pub fn quicksort_range<T: SortKey>(slice: &mut [T], left: usize, right: usize)
    requires
        left <= right < old(slice)@.len(),
    ensures
        rearranged_within(old(slice)@, final(slice)@, left as int, right + 1),
        sorted(final(slice)@.subrange(left as int, right + 1)),
    decreases right - left,
{
    if left == right {
        assert(slice@.subrange(left as int, right + 1).len() == 1);
        return ;
    }
    if right - left < INSERTION_SIZE {
        insertion_sort_range(slice, left, right);
        return ;
    }
    let ghost before = slice@;
    let p = partition(slice, left, right);
    let ghost split = slice@;
    if p > left {
        quicksort_range(slice, left, p - 1);
    }
    let ghost lower = slice@;
    if p < right {
        quicksort_range(slice, p + 1, right);
    }
    proof {
        let lo = left as int;
        let hi = right + 1;
        let done = slice@;
        if p > left {
            lemma_rearranged_widen(split, lower, lo, p as int, lo, hi);
        }
        if p < right {
            lemma_rearranged_widen(lower, done, p + 1, hi, lo, hi);
        }
        lemma_rearranged_twice(before, split, lower, lo, hi);
        lemma_rearranged_twice(before, lower, done, lo, hi);
        let part = done.subrange(lo, hi);
        assert forall|a: int, b: int|
            #![trigger part[a], part[b]]
            0 <= a < b < part.len() implies part[a].key() <= part[b].key() by {
            let x = a + lo;
            let y = b + lo;
            let v = split[p as int].key();
            assert(done[p as int] == split[p as int]);
            if x < p {
                lemma_rearranged_member(split, lower, lo, p as int, x);
                assert(done[x] == lower[x]);
                assert(done[x].key() <= v);
            }
            if y > p {
                lemma_rearranged_member(lower, done, p + 1, hi, y);
                assert(v <= done[y].key());
            }
            if y < p {
                let lower_part = lower.subrange(lo, p as int);
                assert(lower_part[a] == done[x] && lower_part[b] == done[y]);
            }
            if x > p {
                let upper_part = done.subrange(p + 1, hi);
                assert(upper_part[x - p - 1] == done[x] && upper_part[y - p - 1] == done[y]);
            }
        }
    }
}

/// Sorts `slice` by quicksort.
pub fn quicksort<T: SortKey>(slice: &mut [T])
    ensures
        final(slice)@.len() == old(slice)@.len(),
        sorted(final(slice)@),
        final(slice)@.to_multiset() == old(slice)@.to_multiset(),
        sorted(old(slice)@) ==> final(slice)@ == old(slice)@,
{
    let n = slice.len();
    if n <= 1 {
        return ;
    }
    quicksort_range(slice, 0, n - 1);
    proof {
        lemma_whole_range_sorted(old(slice)@, slice@);
    }
}

} // verus!
