//! Insertion sort: the routine for short ranges.

use crate::order::{sorted, SortKey};
use crate::permutation::{
    lemma_rearranged_twice, lemma_swap_rearranges, lemma_whole_range_sorted, rearranged_within,
    swap, swapped,
};
use vstd::prelude::*;

verus! {

/// Sorts the positions `left..=right` of `slice` by adjacent exchanges: each
/// value from the second on moves left past every strictly greater value
/// before it. Positions outside the range are left alone.
pub fn insertion_sort_range<T: SortKey>(slice: &mut [T], left: usize, right: usize)
    requires
        left <= right < old(slice)@.len(),
    ensures
        rearranged_within(old(slice)@, final(slice)@, left as int, right + 1),
        sorted(final(slice)@.subrange(left as int, right + 1)),
{
    let ghost before = slice@;
    assert(slice@.len() == slice.len());
    let mut i: usize = left + 1;
    while i <= right
        invariant
            left < i <= right + 1,
            right < slice@.len() <= usize::MAX,
            rearranged_within(before, slice@, left as int, right + 1),
            sorted(slice@.subrange(left as int, i as int)),
        decreases right + 1 - i,
    {
        let mut j: usize = i;
        proof {
            let part = slice@.subrange(left as int, i as int);
            assert forall|a: int, b: int|
                left <= a < b < i implies slice@[a].key() <= slice@[b].key() by {
                assert(part[a - left] == slice@[a] && part[b - left] == slice@[b]);
            }
        }
        while j > left && slice[j - 1].greater_than(&slice[j])
            invariant
                left <= j <= i <= right < slice@.len(),
                rearranged_within(before, slice@, left as int, right + 1),
                forall|a: int, b: int|
                    #![trigger slice@[a], slice@[b]]
                    left <= a < b <= i && a != j && b != j ==> slice@[a].key() <= slice@[b].key(),
                forall|b: int|
                    j < b <= i ==> slice@[j as int].key() <= (#[trigger] slice@[b]).key(),
            decreases j,
        {
            proof {
                lemma_swap_rearranges(slice@, j - 1, j as int, left as int, right + 1);
                lemma_rearranged_twice(
                    before,
                    slice@,
                    swapped(slice@, j - 1, j as int),
                    left as int,
                    right + 1,
                );
            }
            swap(slice, j - 1, j);
            j -= 1;
        }
        proof {
            let part = slice@.subrange(left as int, i + 1);
            assert forall|a: int, b: int|
                #![trigger part[a], part[b]]
                0 <= a < b < part.len() implies part[a].key() <= part[b].key() by {
                let x = a + left;
                let y = b + left;
                assert(part[a] == slice@[x] && part[b] == slice@[y]);
                if y == j {
                    if x != j - 1 {
                        assert(slice@[x].key() <= slice@[j - 1].key());
                    }
                }
            }
        }
        i += 1;
    }
}

/// Sorts `slice` by insertion.
pub fn insertion_sort<T: SortKey>(slice: &mut [T])
    ensures
        final(slice)@.len() == old(slice)@.len(),
        sorted(final(slice)@),
        final(slice)@.to_multiset() == old(slice)@.to_multiset(),
        sorted(old(slice)@) ==> final(slice)@ == old(slice)@,
{
    let n = slice.len();
    if n <= 1 {
        return ;
    }
    insertion_sort_range(slice, 0, n - 1);
    proof {
        lemma_whole_range_sorted(old(slice)@, slice@);
    }
}

} // verus!
