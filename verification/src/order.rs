//! The order that the sorting routines impose.
//!
//! Every supported element type is ordered by an integer key. For the integer
//! types the key is the value itself, for `char` its code point, for `bool`
//! zero or one. Contracts throughout the crate are stated over this key.

use vstd::prelude::*;
use vstd::relations::{sorted_by, total_ordering};
use vstd::seq_lib::lemma_sorted_unique;

verus! {

/// A primitive value that is ordered by an integer key.
pub trait SortKey: Copy {
    /// The integer by which values are ordered: `a` goes before `b` exactly
    /// when `a.key() < b.key()`.
    spec fn key(self) -> int;

    /// Different values have different keys, so the order on values is
    /// antisymmetric as well as total.
    proof fn lemma_key_injective(a: Self, b: Self)
        requires
            a.key() == b.key(),
        ensures
            a == b,
    ;

    /// Whether `self` goes strictly after `other`.
    fn greater_than(&self, other: &Self) -> (b: bool)
        ensures
            b == (self.key() > other.key()),
    ;

    /// Whether `self` goes before `other` or ties with it.
    fn less_or_equal(&self, other: &Self) -> (b: bool)
        ensures
            b == (self.key() <= other.key()),
    ;
}

/// `s` is in ascending order of keys.
pub open spec fn sorted<T: SortKey>(s: Seq<T>) -> bool {
    forall|i: int, j: int|
        #![trigger s[i], s[j]]
        0 <= i < j < s.len() ==> s[i].key() <= s[j].key()
}

/// No value of `s` goes strictly after the one that follows it.
pub open spec fn neighbours_in_order<T: SortKey>(s: Seq<T>) -> bool {
    forall|i: int| #![trigger s[i]] 0 <= i && i + 1 < s.len() ==> s[i].key() <= s[i + 1].key()
}

/// Ascending order shows on neighbours alone: a sequence is sorted exactly
/// when no value goes strictly after the one that follows it.
pub proof fn lemma_sorted_iff_neighbours_in_order<T: SortKey>(s: Seq<T>)
    ensures
        sorted(s) <==> neighbours_in_order(s),
{
    if neighbours_in_order(s) {
        assert forall|i: int, j: int|
            #![trigger s[i], s[j]]
            0 <= i < j < s.len() implies s[i].key() <= s[j].key() by {
            lemma_neighbours_chain(s, i, j);
        }
    }
    if sorted(s) {
        assert forall|i: int|
            #![trigger s[i]]
            0 <= i && i + 1 < s.len() implies s[i].key() <= s[i + 1].key() by {
            assert(s[i].key() <= s[i + 1].key());
        }
    }
}

/// Where neighbours are in order, a value does not go after any later one.
proof fn lemma_neighbours_chain<T: SortKey>(s: Seq<T>, i: int, j: int)
    requires
        0 <= i <= j < s.len(),
        neighbours_in_order(s),
    ensures
        s[i].key() <= s[j].key(),
    decreases j - i,
{
    if i < j {
        lemma_neighbours_chain(s, i, j - 1);
        assert(s[j - 1].key() <= s[j - 1 + 1].key());
    }
}

/// A multiset of values has one ascending arrangement only: two sorted
/// sequences that hold the same values, each as often as the other, are the
/// same sequence. Whatever produces a sorted rearrangement of an input
/// therefore produces the same output, element for element.
pub proof fn lemma_sorted_rearrangement_unique<T: SortKey>(a: Seq<T>, b: Seq<T>)
    requires
        sorted(a),
        sorted(b),
        a.to_multiset() == b.to_multiset(),
    ensures
        a == b,
{
    let leq = |x: T, y: T| x.key() <= y.key();
    assert forall|x: T, y: T| #[trigger] leq(x, y) && #[trigger] leq(y, x) implies x == y by {
        T::lemma_key_injective(x, y);
    }
    assert(total_ordering(leq));
    assert(sorted_by(a, leq));
    assert(sorted_by(b, leq));
    lemma_sorted_unique(a, b, leq);
}

impl SortKey for u8 {
    open spec fn key(self) -> int {
        self as int
    }

    proof fn lemma_key_injective(a: Self, b: Self) {
    }

    fn greater_than(&self, other: &Self) -> (b: bool) {
        *self > *other
    }

    fn less_or_equal(&self, other: &Self) -> (b: bool) {
        *self <= *other
    }
}

impl SortKey for u16 {
    open spec fn key(self) -> int {
        self as int
    }

    proof fn lemma_key_injective(a: Self, b: Self) {
    }

    fn greater_than(&self, other: &Self) -> (b: bool) {
        *self > *other
    }

    fn less_or_equal(&self, other: &Self) -> (b: bool) {
        *self <= *other
    }
}

impl SortKey for u32 {
    open spec fn key(self) -> int {
        self as int
    }

    proof fn lemma_key_injective(a: Self, b: Self) {
    }

    fn greater_than(&self, other: &Self) -> (b: bool) {
        *self > *other
    }

    fn less_or_equal(&self, other: &Self) -> (b: bool) {
        *self <= *other
    }
}

impl SortKey for u64 {
    open spec fn key(self) -> int {
        self as int
    }

    proof fn lemma_key_injective(a: Self, b: Self) {
    }

    fn greater_than(&self, other: &Self) -> (b: bool) {
        *self > *other
    }

    fn less_or_equal(&self, other: &Self) -> (b: bool) {
        *self <= *other
    }
}

impl SortKey for u128 {
    open spec fn key(self) -> int {
        self as int
    }

    proof fn lemma_key_injective(a: Self, b: Self) {
    }

    fn greater_than(&self, other: &Self) -> (b: bool) {
        *self > *other
    }

    fn less_or_equal(&self, other: &Self) -> (b: bool) {
        *self <= *other
    }
}

impl SortKey for usize {
    open spec fn key(self) -> int {
        self as int
    }

    proof fn lemma_key_injective(a: Self, b: Self) {
    }

    fn greater_than(&self, other: &Self) -> (b: bool) {
        *self > *other
    }

    fn less_or_equal(&self, other: &Self) -> (b: bool) {
        *self <= *other
    }
}

impl SortKey for i8 {
    open spec fn key(self) -> int {
        self as int
    }

    proof fn lemma_key_injective(a: Self, b: Self) {
    }

    fn greater_than(&self, other: &Self) -> (b: bool) {
        *self > *other
    }

    fn less_or_equal(&self, other: &Self) -> (b: bool) {
        *self <= *other
    }
}

impl SortKey for i16 {
    open spec fn key(self) -> int {
        self as int
    }

    proof fn lemma_key_injective(a: Self, b: Self) {
    }

    fn greater_than(&self, other: &Self) -> (b: bool) {
        *self > *other
    }

    fn less_or_equal(&self, other: &Self) -> (b: bool) {
        *self <= *other
    }
}

impl SortKey for i32 {
    open spec fn key(self) -> int {
        self as int
    }

    proof fn lemma_key_injective(a: Self, b: Self) {
    }

    fn greater_than(&self, other: &Self) -> (b: bool) {
        *self > *other
    }

    fn less_or_equal(&self, other: &Self) -> (b: bool) {
        *self <= *other
    }
}

impl SortKey for i64 {
    open spec fn key(self) -> int {
        self as int
    }

    proof fn lemma_key_injective(a: Self, b: Self) {
    }

    fn greater_than(&self, other: &Self) -> (b: bool) {
        *self > *other
    }

    fn less_or_equal(&self, other: &Self) -> (b: bool) {
        *self <= *other
    }
}

impl SortKey for i128 {
    open spec fn key(self) -> int {
        self as int
    }

    proof fn lemma_key_injective(a: Self, b: Self) {
    }

    fn greater_than(&self, other: &Self) -> (b: bool) {
        *self > *other
    }

    fn less_or_equal(&self, other: &Self) -> (b: bool) {
        *self <= *other
    }
}

impl SortKey for isize {
    open spec fn key(self) -> int {
        self as int
    }

    proof fn lemma_key_injective(a: Self, b: Self) {
    }

    fn greater_than(&self, other: &Self) -> (b: bool) {
        *self > *other
    }

    fn less_or_equal(&self, other: &Self) -> (b: bool) {
        *self <= *other
    }
}

impl SortKey for char {
    open spec fn key(self) -> int {
        self as int
    }

    proof fn lemma_key_injective(a: Self, b: Self) {
    }

    fn greater_than(&self, other: &Self) -> (b: bool) {
        *self > *other
    }

    fn less_or_equal(&self, other: &Self) -> (b: bool) {
        *self <= *other
    }
}

impl SortKey for bool {
    open spec fn key(self) -> int {
        if self {
            1
        } else {
            0
        }
    }

    proof fn lemma_key_injective(a: Self, b: Self) {
    }

    fn greater_than(&self, other: &Self) -> (b: bool) {
        *self && !*other
    }

    fn less_or_equal(&self, other: &Self) -> (b: bool) {
        !*self || *other
    }
}

} // verus!
