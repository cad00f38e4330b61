//! In-place sorting of arrays and slices of primitive values.
//!
//! Each primitive type has two entry points. `into_sorted_*_array` takes an
//! array by value and returns it sorted; `sort_*_slice` sorts a slice where
//! it lies. Both do the same work: the array is sorted through a slice of
//! itself.
//!
//! Slices of `bool`, `u8` and `i8` are sorted by counting, all others by
//! quicksort. Every type but `bool` is sorted by insertion where the slice
//! is short. Floats are sorted in the total order of IEEE 754, as bit
//! patterns.
//!
//! Nothing is allocated, and every routine is proved to end, to return a
//! rearrangement of what it was given, and to leave that rearrangement in
//! ascending order.

use vstd::multiset::lemma_multiset_empty_len;
use vstd::prelude::*;
use vstd::seq_lib::{to_multiset_build, to_multiset_len};

pub mod counting_sort;
pub mod float_sort;
pub mod insertion_sort;
pub mod order;
pub mod permutation;
pub mod quicksort;

pub use crate::counting_sort::{counting_sort, DenseKey, DOMAIN_SIZE};
pub use crate::float_sort::{sort_f32_slice, sort_f64_slice, FloatOrdF32, FloatOrdF64};
pub use crate::insertion_sort::{insertion_sort, insertion_sort_range};
pub use crate::order::{lemma_sorted_rearrangement_unique, sorted, SortKey};
pub use crate::quicksort::{median_of_three, partition, quicksort, quicksort_range};

verus! {

/// A range of at most this many values is sorted by insertion.
pub const INSERTION_SIZE: usize = 10;

/// Sorts the given array of `char`s by quicksort, with insertion sort for short
/// ranges, and returns it.
pub fn into_sorted_char_array<const N: usize>(array: [char; N]) -> (sorted_array: [char; N])
    ensures
        sorted(sorted_array@),
        sorted_array@.to_multiset() == array@.to_multiset(),
        sorted(array@) ==> sorted_array@ == array@,
{
    let mut array = array;
    sort_char_slice(&mut array);
    array
}

/// Sorts the given slice of `char`s by quicksort, with insertion sort for short
/// ranges.
pub fn sort_char_slice(slice: &mut [char])
    ensures
        final(slice)@.len() == old(slice)@.len(),
        sorted(final(slice)@),
        final(slice)@.to_multiset() == old(slice)@.to_multiset(),
        sorted(old(slice)@) ==> final(slice)@ == old(slice)@,
{
    quicksort(slice);
}

/// Sorts the given array of `u16`s by quicksort, with insertion sort for short
/// ranges, and returns it.
pub fn into_sorted_u16_array<const N: usize>(array: [u16; N]) -> (sorted_array: [u16; N])
    ensures
        sorted(sorted_array@),
        sorted_array@.to_multiset() == array@.to_multiset(),
        sorted(array@) ==> sorted_array@ == array@,
{
    let mut array = array;
    sort_u16_slice(&mut array);
    array
}

/// Sorts the given slice of `u16`s by quicksort, with insertion sort for short
/// ranges.
pub fn sort_u16_slice(slice: &mut [u16])
    ensures
        final(slice)@.len() == old(slice)@.len(),
        sorted(final(slice)@),
        final(slice)@.to_multiset() == old(slice)@.to_multiset(),
        sorted(old(slice)@) ==> final(slice)@ == old(slice)@,
{
    quicksort(slice);
}

/// Sorts the given array of `i16`s by quicksort, with insertion sort for short
/// ranges, and returns it.
pub fn into_sorted_i16_array<const N: usize>(array: [i16; N]) -> (sorted_array: [i16; N])
    ensures
        sorted(sorted_array@),
        sorted_array@.to_multiset() == array@.to_multiset(),
        sorted(array@) ==> sorted_array@ == array@,
{
    let mut array = array;
    sort_i16_slice(&mut array);
    array
}

/// Sorts the given slice of `i16`s by quicksort, with insertion sort for short
/// ranges.
pub fn sort_i16_slice(slice: &mut [i16])
    ensures
        final(slice)@.len() == old(slice)@.len(),
        sorted(final(slice)@),
        final(slice)@.to_multiset() == old(slice)@.to_multiset(),
        sorted(old(slice)@) ==> final(slice)@ == old(slice)@,
{
    quicksort(slice);
}

/// Sorts the given array of `u32`s by quicksort, with insertion sort for short
/// ranges, and returns it.
pub fn into_sorted_u32_array<const N: usize>(array: [u32; N]) -> (sorted_array: [u32; N])
    ensures
        sorted(sorted_array@),
        sorted_array@.to_multiset() == array@.to_multiset(),
        sorted(array@) ==> sorted_array@ == array@,
{
    let mut array = array;
    sort_u32_slice(&mut array);
    array
}

/// Sorts the given slice of `u32`s by quicksort, with insertion sort for short
/// ranges.
pub fn sort_u32_slice(slice: &mut [u32])
    ensures
        final(slice)@.len() == old(slice)@.len(),
        sorted(final(slice)@),
        final(slice)@.to_multiset() == old(slice)@.to_multiset(),
        sorted(old(slice)@) ==> final(slice)@ == old(slice)@,
{
    quicksort(slice);
}

/// Sorts the given array of `i32`s by quicksort, with insertion sort for short
/// ranges, and returns it.
pub fn into_sorted_i32_array<const N: usize>(array: [i32; N]) -> (sorted_array: [i32; N])
    ensures
        sorted(sorted_array@),
        sorted_array@.to_multiset() == array@.to_multiset(),
        sorted(array@) ==> sorted_array@ == array@,
{
    let mut array = array;
    sort_i32_slice(&mut array);
    array
}

/// Sorts the given slice of `i32`s by quicksort, with insertion sort for short
/// ranges.
pub fn sort_i32_slice(slice: &mut [i32])
    ensures
        final(slice)@.len() == old(slice)@.len(),
        sorted(final(slice)@),
        final(slice)@.to_multiset() == old(slice)@.to_multiset(),
        sorted(old(slice)@) ==> final(slice)@ == old(slice)@,
{
    quicksort(slice);
}

/// Sorts the given array of `u64`s by quicksort, with insertion sort for short
/// ranges, and returns it.
pub fn into_sorted_u64_array<const N: usize>(array: [u64; N]) -> (sorted_array: [u64; N])
    ensures
        sorted(sorted_array@),
        sorted_array@.to_multiset() == array@.to_multiset(),
        sorted(array@) ==> sorted_array@ == array@,
{
    let mut array = array;
    sort_u64_slice(&mut array);
    array
}

/// Sorts the given slice of `u64`s by quicksort, with insertion sort for short
/// ranges.
pub fn sort_u64_slice(slice: &mut [u64])
    ensures
        final(slice)@.len() == old(slice)@.len(),
        sorted(final(slice)@),
        final(slice)@.to_multiset() == old(slice)@.to_multiset(),
        sorted(old(slice)@) ==> final(slice)@ == old(slice)@,
{
    quicksort(slice);
}

/// Sorts the given array of `i64`s by quicksort, with insertion sort for short
/// ranges, and returns it.
pub fn into_sorted_i64_array<const N: usize>(array: [i64; N]) -> (sorted_array: [i64; N])
    ensures
        sorted(sorted_array@),
        sorted_array@.to_multiset() == array@.to_multiset(),
        sorted(array@) ==> sorted_array@ == array@,
{
    let mut array = array;
    sort_i64_slice(&mut array);
    array
}

/// Sorts the given slice of `i64`s by quicksort, with insertion sort for short
/// ranges.
pub fn sort_i64_slice(slice: &mut [i64])
    ensures
        final(slice)@.len() == old(slice)@.len(),
        sorted(final(slice)@),
        final(slice)@.to_multiset() == old(slice)@.to_multiset(),
        sorted(old(slice)@) ==> final(slice)@ == old(slice)@,
{
    quicksort(slice);
}

/// Sorts the given array of `u128`s by quicksort, with insertion sort for short
/// ranges, and returns it.
pub fn into_sorted_u128_array<const N: usize>(array: [u128; N]) -> (sorted_array: [u128; N])
    ensures
        sorted(sorted_array@),
        sorted_array@.to_multiset() == array@.to_multiset(),
        sorted(array@) ==> sorted_array@ == array@,
{
    let mut array = array;
    sort_u128_slice(&mut array);
    array
}

/// Sorts the given slice of `u128`s by quicksort, with insertion sort for short
/// ranges.
pub fn sort_u128_slice(slice: &mut [u128])
    ensures
        final(slice)@.len() == old(slice)@.len(),
        sorted(final(slice)@),
        final(slice)@.to_multiset() == old(slice)@.to_multiset(),
        sorted(old(slice)@) ==> final(slice)@ == old(slice)@,
{
    quicksort(slice);
}

/// Sorts the given array of `i128`s by quicksort, with insertion sort for short
/// ranges, and returns it.
pub fn into_sorted_i128_array<const N: usize>(array: [i128; N]) -> (sorted_array: [i128; N])
    ensures
        sorted(sorted_array@),
        sorted_array@.to_multiset() == array@.to_multiset(),
        sorted(array@) ==> sorted_array@ == array@,
{
    let mut array = array;
    sort_i128_slice(&mut array);
    array
}

/// Sorts the given slice of `i128`s by quicksort, with insertion sort for short
/// ranges.
pub fn sort_i128_slice(slice: &mut [i128])
    ensures
        final(slice)@.len() == old(slice)@.len(),
        sorted(final(slice)@),
        final(slice)@.to_multiset() == old(slice)@.to_multiset(),
        sorted(old(slice)@) ==> final(slice)@ == old(slice)@,
{
    quicksort(slice);
}

/// Sorts the given array of `usize`s by quicksort, with insertion sort for short
/// ranges, and returns it.
pub fn into_sorted_usize_array<const N: usize>(array: [usize; N]) -> (sorted_array: [usize; N])
    ensures
        sorted(sorted_array@),
        sorted_array@.to_multiset() == array@.to_multiset(),
        sorted(array@) ==> sorted_array@ == array@,
{
    let mut array = array;
    sort_usize_slice(&mut array);
    array
}

/// Sorts the given slice of `usize`s by quicksort, with insertion sort for short
/// ranges.
pub fn sort_usize_slice(slice: &mut [usize])
    ensures
        final(slice)@.len() == old(slice)@.len(),
        sorted(final(slice)@),
        final(slice)@.to_multiset() == old(slice)@.to_multiset(),
        sorted(old(slice)@) ==> final(slice)@ == old(slice)@,
{
    quicksort(slice);
}

/// Sorts the given array of `isize`s by quicksort, with insertion sort for short
/// ranges, and returns it.
pub fn into_sorted_isize_array<const N: usize>(array: [isize; N]) -> (sorted_array: [isize; N])
    ensures
        sorted(sorted_array@),
        sorted_array@.to_multiset() == array@.to_multiset(),
        sorted(array@) ==> sorted_array@ == array@,
{
    let mut array = array;
    sort_isize_slice(&mut array);
    array
}

/// Sorts the given slice of `isize`s by quicksort, with insertion sort for short
/// ranges.
pub fn sort_isize_slice(slice: &mut [isize])
    ensures
        final(slice)@.len() == old(slice)@.len(),
        sorted(final(slice)@),
        final(slice)@.to_multiset() == old(slice)@.to_multiset(),
        sorted(old(slice)@) ==> final(slice)@ == old(slice)@,
{
    quicksort(slice);
}

/// Sorts the given array of `i8`s by counting, or by insertion if it holds
/// no more than [`INSERTION_SIZE`] values, and returns it.
pub fn into_sorted_i8_array<const N: usize>(array: [i8; N]) -> (sorted_array: [i8; N])
    ensures
        sorted(sorted_array@),
        sorted_array@.to_multiset() == array@.to_multiset(),
        sorted(array@) ==> sorted_array@ == array@,
{
    let mut array = array;
    sort_i8_slice(&mut array);
    array
}

/// Sorts the given slice of `i8`s by counting, or by insertion if it holds
/// no more than [`INSERTION_SIZE`] values.
pub fn sort_i8_slice(slice: &mut [i8])
    ensures
        final(slice)@.len() == old(slice)@.len(),
        sorted(final(slice)@),
        final(slice)@.to_multiset() == old(slice)@.to_multiset(),
        sorted(old(slice)@) ==> final(slice)@ == old(slice)@,
{
    let n = slice.len();
    if n <= 1 {
        return ;
    } else if n <= INSERTION_SIZE {
        insertion_sort(slice);
        return ;
    }
    counting_sort(slice);
}

/// Sorts the given array of `u8`s by counting, or by insertion if it holds
/// no more than [`INSERTION_SIZE`] values, and returns it.
pub fn into_sorted_u8_array<const N: usize>(array: [u8; N]) -> (sorted_array: [u8; N])
    ensures
        sorted(sorted_array@),
        sorted_array@.to_multiset() == array@.to_multiset(),
        sorted(array@) ==> sorted_array@ == array@,
{
    let mut array = array;
    sort_u8_slice(&mut array);
    array
}

/// Sorts the given slice of `u8`s by counting, or by insertion if it holds
/// no more than [`INSERTION_SIZE`] values.
pub fn sort_u8_slice(slice: &mut [u8])
    ensures
        final(slice)@.len() == old(slice)@.len(),
        sorted(final(slice)@),
        final(slice)@.to_multiset() == old(slice)@.to_multiset(),
        sorted(old(slice)@) ==> final(slice)@ == old(slice)@,
{
    let n = slice.len();
    if n <= 1 {
        return ;
    } else if n <= INSERTION_SIZE {
        insertion_sort(slice);
        return ;
    }
    counting_sort(slice);
}

/// Sorts the given array of `bool`s by counting and returns it.
pub fn into_sorted_bool_array<const N: usize>(array: [bool; N]) -> (sorted_array: [bool; N])
    ensures
        sorted(sorted_array@),
        sorted_array@.to_multiset() == array@.to_multiset(),
        sorted(array@) ==> sorted_array@ == array@,
{
    let mut array = array;
    sort_bool_slice(&mut array);
    array
}

/// Sorts the given slice of `bool`s by counting: the `false` values are
/// counted, and the slice is filled with that many `false` values, then with
/// `true`.
pub fn sort_bool_slice(slice: &mut [bool])
    ensures
        final(slice)@.len() == old(slice)@.len(),
        sorted(final(slice)@),
        final(slice)@.to_multiset() == old(slice)@.to_multiset(),
        sorted(old(slice)@) ==> final(slice)@ == old(slice)@,
{
    let n = slice.len();
    if n <= 1 {
        return ;
    }
    let ghost before = slice@;
    let mut falses: usize = 0;
    let mut i: usize = 0;
    proof {
        let none = before.subrange(0, 0);
        to_multiset_len(none);
        lemma_multiset_empty_len(none.to_multiset());
    }
    while i < n
        invariant
            i <= n == slice@.len(),
            slice@ == before,
            falses <= i,
            before.subrange(0, i as int).to_multiset().count(false) == falses,
            before.subrange(0, i as int).to_multiset().count(true) == i - falses,
        decreases n - i,
    {
        proof {
            let seen = before.subrange(0, i as int);
            assert(before.subrange(0, i + 1) =~= seen.push(before[i as int]));
            to_multiset_build(seen, before[i as int]);
        }
        if !slice[i] {
            falses += 1;
        }
        i += 1;
    }
    let ghost total = falses;
    i = 0;
    proof {
        assert(before.subrange(0, n as int) =~= before);
    }
    while i < n
        invariant
            i <= n == slice@.len(),
            total <= n,
            falses == if i <= total {
                total - i
            } else {
                0
            },
            forall|k: int| 0 <= k < i ==> slice@[k] == (k >= total),
            slice@.subrange(0, i as int).to_multiset().count(false) == total - falses,
            slice@.subrange(0, i as int).to_multiset().count(true) == i - (total - falses),
        decreases n - i,
    {
        let ghost written = slice@.subrange(0, i as int);
        if falses > 0 {
            slice[i] = false;
            falses -= 1;
        } else {
            slice[i] = true;
        }
        proof {
            assert(slice@.subrange(0, i + 1) =~= written.push(slice@[i as int]));
            to_multiset_build(written, slice@[i as int]);
        }
        i += 1;
    }
    proof {
        assert(slice@.subrange(0, n as int) =~= slice@);
        assert forall|v: bool| slice@.to_multiset().count(v) == before.to_multiset().count(v) by {
            if v {
            } else {
            }
        }
        assert(slice@.to_multiset() =~= before.to_multiset());
        if sorted(before) {
            lemma_sorted_rearrangement_unique(slice@, before);
        }
    }
}

} // verus!
