//! Sorting floating-point values in the total order of IEEE 754.
//!
//! A float is held as its bit pattern. Its key is a signed integer computed
//! from the pattern, and comparing keys as integers orders the patterns as
//! the total order of the standard does. Only comparisons look at keys: the
//! sort moves the patterns themselves, so the slice holds what it held
//! before, in another order.

use crate::order::{sorted, SortKey};
use crate::quicksort::quicksort;
use core::cmp::Ordering;
use vstd::prelude::*;

verus! {

/// The bit pattern of an IEEE 754 single-precision value, ordered by the
/// standard's total order.
///
/// In that order every pattern has its place: negative values go before
/// non-negative ones, `-0.0` goes directly before `+0.0`, and the NaN
/// patterns lie at the two ends, ordered by sign and payload like any
/// other pattern.
#[derive(Clone, Copy, Debug)]
pub struct FloatOrdF32 {
    /// The value's bits, as `f32::to_bits` gives them.
    pub bits: u32,
}

impl FloatOrdF32 {
    /// Whether the sign bit is set.
    pub open spec fn is_negative(self) -> bool {
        self.bits >= 0x8000_0000
    }

    /// The bits below the sign bit, read as a number.
    pub open spec fn magnitude(self) -> int {
        if self.is_negative() {
            self.bits - 0x8000_0000
        } else {
            self.bits as int
        }
    }

    /// Among patterns of one sign the bits themselves decide the order:
    /// without the sign bit a greater pattern goes later, with it earlier.
    /// A pattern with the sign bit goes before every pattern without it.
    pub proof fn lemma_order_by_sign_and_magnitude(a: Self, b: Self)
        ensures
            a.is_negative() && !b.is_negative() ==> a.key() < b.key(),
            !a.is_negative() && !b.is_negative() ==> (a.key() < b.key() <==> a.bits < b.bits),
            a.is_negative() && b.is_negative() ==> (a.key() < b.key() <==> a.bits > b.bits),
    {
    }

    /// Computes the key of the pattern: the bits are read as a signed
    /// integer, and where the sign bit is set all bits below it are flipped.
    pub fn surrogate(&self) -> (k: i32)
        ensures
            k == self.key(),
    {
        let x = #[verifier::truncate] (self.bits as i32);
        let flip = #[verifier::truncate] ((x >> 31) as u32) >> 1;
        let k = x ^ (#[verifier::truncate] (flip as i32));
        let bits = self.bits;
        assert(k == (if bits >= 0x8000_0000 {
            -1 - (bits - 0x8000_0000)
        } else {
            bits as int
        })) by (bit_vector)
            requires
                x == bits as i32,
                flip == ((x >> 31) as u32) >> 1,
                k == x ^ (flip as i32),
        ;
        k
    }

    /// Compares two patterns in the total order.
    pub fn total_cmp(&self, other: &FloatOrdF32) -> (o: Ordering)
        ensures
            o == Ordering::Less <==> self.key() < other.key(),
            o == Ordering::Equal <==> self.bits == other.bits,
            o == Ordering::Greater <==> self.key() > other.key(),
    {
        let left = self.surrogate();
        let right = other.surrogate();
        if left < right {
            Ordering::Less
        } else if left > right {
            Ordering::Greater
        } else {
            Ordering::Equal
        }
    }
}

impl SortKey for FloatOrdF32 {
    /// The magnitude for a pattern without the sign bit; for one with it,
    /// the magnitude negated, less one.
    open spec fn key(self) -> int {
        if self.is_negative() {
            -1 - self.magnitude()
        } else {
            self.magnitude()
        }
    }

    proof fn lemma_key_injective(a: Self, b: Self) {
    }

    fn greater_than(&self, other: &Self) -> (b: bool) {
        matches!(self.total_cmp(other), Ordering::Greater)
    }

    fn less_or_equal(&self, other: &Self) -> (b: bool) {
        !self.greater_than(other)
    }
}

/// Sorts the given slice of `f32` bit patterns into the total order, by
/// quicksort, with insertion sort for short ranges.
pub fn sort_f32_slice(slice: &mut [FloatOrdF32])
    ensures
        final(slice)@.len() == old(slice)@.len(),
        sorted(final(slice)@),
        final(slice)@.to_multiset() == old(slice)@.to_multiset(),
        sorted(old(slice)@) ==> final(slice)@ == old(slice)@,
{
    quicksort(slice);
}

/// The bit pattern of an IEEE 754 double-precision value, ordered by the
/// standard's total order.
///
/// In that order every pattern has its place: negative values go before
/// non-negative ones, `-0.0` goes directly before `+0.0`, and the NaN
/// patterns lie at the two ends, ordered by sign and payload like any
/// other pattern.
#[derive(Clone, Copy, Debug)]
pub struct FloatOrdF64 {
    /// The value's bits, as `f64::to_bits` gives them.
    pub bits: u64,
}

impl FloatOrdF64 {
    /// Whether the sign bit is set.
    pub open spec fn is_negative(self) -> bool {
        self.bits >= 0x8000_0000_0000_0000
    }

    /// The bits below the sign bit, read as a number.
    pub open spec fn magnitude(self) -> int {
        if self.is_negative() {
            self.bits - 0x8000_0000_0000_0000
        } else {
            self.bits as int
        }
    }

    /// Among patterns of one sign the bits themselves decide the order:
    /// without the sign bit a greater pattern goes later, with it earlier.
    /// A pattern with the sign bit goes before every pattern without it.
    pub proof fn lemma_order_by_sign_and_magnitude(a: Self, b: Self)
        ensures
            a.is_negative() && !b.is_negative() ==> a.key() < b.key(),
            !a.is_negative() && !b.is_negative() ==> (a.key() < b.key() <==> a.bits < b.bits),
            a.is_negative() && b.is_negative() ==> (a.key() < b.key() <==> a.bits > b.bits),
    {
    }

    /// Computes the key of the pattern: the bits are read as a signed
    /// integer, and where the sign bit is set all bits below it are flipped.
    pub fn surrogate(&self) -> (k: i64)
        ensures
            k == self.key(),
    {
        let x = #[verifier::truncate] (self.bits as i64);
        let flip = #[verifier::truncate] ((x >> 63) as u64) >> 1;
        let k = x ^ (#[verifier::truncate] (flip as i64));
        let bits = self.bits;
        assert(k == (if bits >= 0x8000_0000_0000_0000 {
            -1 - (bits - 0x8000_0000_0000_0000)
        } else {
            bits as int
        })) by (bit_vector)
            requires
                x == bits as i64,
                flip == ((x >> 63) as u64) >> 1,
                k == x ^ (flip as i64),
        ;
        k
    }

    /// Compares two patterns in the total order.
    pub fn total_cmp(&self, other: &FloatOrdF64) -> (o: Ordering)
        ensures
            o == Ordering::Less <==> self.key() < other.key(),
            o == Ordering::Equal <==> self.bits == other.bits,
            o == Ordering::Greater <==> self.key() > other.key(),
    {
        let left = self.surrogate();
        let right = other.surrogate();
        if left < right {
            Ordering::Less
        } else if left > right {
            Ordering::Greater
        } else {
            Ordering::Equal
        }
    }
}

impl SortKey for FloatOrdF64 {
    /// The magnitude for a pattern without the sign bit; for one with it,
    /// the magnitude negated, less one.
    open spec fn key(self) -> int {
        if self.is_negative() {
            -1 - self.magnitude()
        } else {
            self.magnitude()
        }
    }

    proof fn lemma_key_injective(a: Self, b: Self) {
    }

    fn greater_than(&self, other: &Self) -> (b: bool) {
        matches!(self.total_cmp(other), Ordering::Greater)
    }

    fn less_or_equal(&self, other: &Self) -> (b: bool) {
        !self.greater_than(other)
    }
}

/// Sorts the given slice of `f64` bit patterns into the total order, by
/// quicksort, with insertion sort for short ranges.
pub fn sort_f64_slice(slice: &mut [FloatOrdF64])
    ensures
        final(slice)@.len() == old(slice)@.len(),
        sorted(final(slice)@),
        final(slice)@.to_multiset() == old(slice)@.to_multiset(),
        sorted(old(slice)@) ==> final(slice)@ == old(slice)@,
{
    quicksort(slice);
}

} // verus!
