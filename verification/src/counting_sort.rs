//! Counting sort for the types of 256 values.
//!
//! A table with one count for each value of the type is filled in one pass
//! over the slice, and the slice is then written anew from the table, bucket
//! after bucket. No two values are ever compared.

use crate::order::{lemma_sorted_rearrangement_unique, sorted, SortKey};
use vstd::multiset::{lemma_multiset_empty_len, Multiset};
use vstd::prelude::*;
use vstd::seq_lib::{to_multiset_build, to_multiset_len};

verus! {

/// The number of values of a type that is sorted by counting, and so the
/// number of buckets in the table.
pub const DOMAIN_SIZE: usize = 256;

/// A type with `DOMAIN_SIZE` values whose keys are consecutive integers, so
/// that values and buckets correspond one to one.
pub trait DenseKey: SortKey {
    /// The key of the least value of the type.
    spec fn least_key() -> int;

    /// The value that bucket `index` counts.
    spec fn value_of(index: int) -> Self;

    /// Every value has a bucket in the table, and every bucket of the table
    /// has its value.
    proof fn lemma_buckets_match_values(v: Self, index: int)
        ensures
            Self::least_key() <= v.key() < Self::least_key() + DOMAIN_SIZE,
            0 <= index < DOMAIN_SIZE ==> Self::value_of(index).key() == Self::least_key() + index,
    ;

    /// The bucket of a value: its key, counted from the least key.
    fn bucket(&self) -> (b: usize)
        ensures
            b == self.key() - Self::least_key(),
    ;

    /// The value of bucket `b`.
    fn from_bucket(b: usize) -> (v: Self)
        requires
            b < DOMAIN_SIZE,
        ensures
            v == Self::value_of(b as int),
    ;
}

impl DenseKey for u8 {
    open spec fn least_key() -> int {
        0
    }

    open spec fn value_of(index: int) -> Self {
        index as u8
    }

    proof fn lemma_buckets_match_values(v: Self, index: int) {
    }

    fn bucket(&self) -> (b: usize) {
        *self as usize
    }

    fn from_bucket(b: usize) -> (v: Self) {
        b as u8
    }
}

impl DenseKey for i8 {
    open spec fn least_key() -> int {
        -128
    }

    open spec fn value_of(index: int) -> Self {
        (index - 128) as i8
    }

    proof fn lemma_buckets_match_values(v: Self, index: int) {
    }

    fn bucket(&self) -> (b: usize) {
        (*self as i16 + 128) as usize
    }

    fn from_bucket(b: usize) -> (v: Self) {
        (b as i16 - 128) as i8
    }
}

/// The index of the bucket that counts `v`: the least value has bucket 0.
pub open spec fn bucket_of<T: DenseKey>(v: T) -> int {
    v.key() - T::least_key()
}

/// `counts` is the tally of `m`: each bucket says how often its value occurs
/// in `m`.
pub open spec fn tallies<T: DenseKey>(counts: Seq<usize>, m: Multiset<T>) -> bool {
    &&& counts.len() == DOMAIN_SIZE
    &&& forall|b: int| 0 <= b < DOMAIN_SIZE ==> #[trigger] counts[b] == m.count(T::value_of(b))
}

/// The sum of all counts of a table.
pub open spec fn total(counts: Seq<usize>) -> int
    decreases counts.len(),
{
    if counts.len() == 0 {
        0
    } else {
        total(counts.drop_last()) + counts.last()
    }
}

/// A value is the value of its own bucket.
pub proof fn lemma_value_of_bucket<T: DenseKey>(v: T)
    ensures
        0 <= bucket_of(v) < DOMAIN_SIZE,
        T::value_of(bucket_of(v)) == v,
{
    T::lemma_buckets_match_values(v, bucket_of(v));
    T::lemma_key_injective(T::value_of(bucket_of(v)), v);
}

/// A table of zeros sums to zero.
proof fn lemma_total_of_zeros(counts: Seq<usize>)
    requires
        forall|b: int| 0 <= b < counts.len() ==> counts[b] == 0,
    ensures
        total(counts) == 0,
    decreases counts.len(),
{
    if counts.len() > 0 {
        lemma_total_of_zeros(counts.drop_last());
    }
}

/// Changing one count changes the sum by as much.
proof fn lemma_total_update(counts: Seq<usize>, b: int, count: usize)
    requires
        0 <= b < counts.len(),
    ensures
        total(counts.update(b, count)) == total(counts) - counts[b] + count,
    decreases counts.len(),
{
    let changed = counts.update(b, count);
    if b == counts.len() - 1 {
        assert(changed.drop_last() =~= counts.drop_last());
    } else {
        lemma_total_update(counts.drop_last(), b, count);
        assert(changed.drop_last() =~= counts.drop_last().update(b, count));
    }
}

/// Changing the count of one value changes the tally of that value alone.
proof fn lemma_tally_step<T: DenseKey>(
    counts: Seq<usize>,
    m: Multiset<T>,
    v: T,
    count: usize,
    changed: Multiset<T>,
)
    requires
        tallies(counts, m),
        changed.count(v) == count,
        forall|u: T| u != v ==> changed.count(u) == m.count(u),
    ensures
        tallies(counts.update(bucket_of(v), count), changed),
{
    lemma_value_of_bucket(v);
    let after = counts.update(bucket_of(v), count);
    assert forall|b: int| 0 <= b < DOMAIN_SIZE implies #[trigger] after[b] == changed.count(
        T::value_of(b),
    ) by {
        T::lemma_buckets_match_values(v, b);
        assert(counts[b] == m.count(T::value_of(b)));
    }
}

/// Counts into a fresh table how often each value occurs in `slice`.
pub fn tally<T: DenseKey>(slice: &[T]) -> (counts: [usize; DOMAIN_SIZE])
    ensures
        tallies(counts@, slice@.to_multiset()),
        total(counts@) == slice@.len(),
{
    let n = slice.len();
    let mut counts = [0usize; DOMAIN_SIZE];
    let mut i: usize = 0;
    proof {
        let none = slice@.subrange(0, 0);
        to_multiset_len(none);
        lemma_multiset_empty_len(none.to_multiset());
        lemma_total_of_zeros(counts@);
    }
    while i < n
        invariant
            i <= n == slice@.len(),
            tallies(counts@, slice@.subrange(0, i as int).to_multiset()),
            total(counts@) == i,
        decreases n - i,
    {
        let ghost seen = slice@.subrange(0, i as int);
        let ghost v = slice@[i as int];
        let b = slice[i].bucket();
        proof {
            lemma_value_of_bucket(v);
            to_multiset_len(seen);
            lemma_total_update(counts@, b as int, (counts@[b as int] + 1) as usize);
            assert(slice@.subrange(0, i + 1) =~= seen.push(v));
            to_multiset_build(seen, v);
            lemma_tally_step(
                counts@,
                seen.to_multiset(),
                v,
                (counts@[b as int] + 1) as usize,
                seen.push(v).to_multiset(),
            );
        }
        counts[b] = counts[b] + 1;
        i += 1;
    }
    proof {
        assert(slice@.subrange(0, n as int) =~= slice@);
    }
    counts
}

/// Sorts `slice` by counting.
///
/// The slice is tallied, and then written from the front: the cursor into
/// the table moves up to the next bucket that is not used up, and one value
/// of that bucket goes to the slice. The counts always sum to the number of
/// values still to write. While any are, the table holds a bucket that is
/// not used up at or above the cursor, so the cursor never leaves the table.
pub fn counting_sort<T: DenseKey>(slice: &mut [T])
    ensures
        final(slice)@.len() == old(slice)@.len(),
        sorted(final(slice)@),
        final(slice)@.to_multiset() == old(slice)@.to_multiset(),
        sorted(old(slice)@) ==> final(slice)@ == old(slice)@,
{
    let ghost before = slice@;
    let n = slice.len();
    let mut counts = tally(slice);
    let ghost mut rest = before.to_multiset();
    let mut i: usize = 0;
    let mut j: usize = 0;
    proof {
        let none = slice@.subrange(0, 0);
        to_multiset_len(none);
        lemma_multiset_empty_len(none.to_multiset());
        assert(none.to_multiset().add(rest) =~= before.to_multiset());
    }
    while i < n
        invariant
            i <= n == slice@.len(),
            n == before.len(),
            j < DOMAIN_SIZE,
            tallies(counts@, rest),
            total(counts@) == n - i,
            slice@.subrange(0, i as int).to_multiset().add(rest) == before.to_multiset(),
            forall|b: int| 0 <= b < j ==> counts@[b] == 0,
            forall|k: int| 0 <= k < i ==> bucket_of(#[trigger] slice@[k]) <= j,
            sorted(slice@.subrange(0, i as int)),
        decreases n - i,
    {
        let ghost written = slice@.subrange(0, i as int);
        let ghost witness = rest.choose();
        let ghost j_start = j;
        proof {
            to_multiset_len(written);
            to_multiset_len(before);
            assert(rest.len() == n - i);
            assert(rest.count(witness) > 0);
            lemma_value_of_bucket(witness);
            assert(counts@[bucket_of(witness)] == rest.count(witness));
        }
        while counts[j] == 0
            invariant
                j_start <= j <= bucket_of(witness) < DOMAIN_SIZE,
                counts@.len() == DOMAIN_SIZE,
                counts@[bucket_of(witness)] > 0,
                forall|b: int| 0 <= b < j ==> counts@[b] == 0,
            decreases DOMAIN_SIZE - j,
        {
            j += 1;
        }
        let v = T::from_bucket(j);
        proof {
            T::lemma_buckets_match_values(v, j as int);
            lemma_total_update(counts@, j as int, (counts@[j as int] - 1) as usize);
            lemma_tally_step(counts@, rest, v, (counts@[j as int] - 1) as usize, rest.remove(v));
        }
        slice[i] = v;
        counts[j] = counts[j] - 1;
        proof {
            let more = slice@.subrange(0, i + 1);
            assert(more =~= written.push(v));
            to_multiset_build(written, v);
            assert(more.to_multiset().add(rest.remove(v)) =~= written.to_multiset().add(rest));
            rest = rest.remove(v);
            assert forall|a: int, b: int|
                #![trigger more[a], more[b]]
                0 <= a < b < more.len() implies more[a].key() <= more[b].key() by {
                if b < i {
                    assert(written[a] == more[a] && written[b] == more[b]);
                } else {
                    assert(bucket_of(more[a]) <= j);
                }
            }
            assert forall|k: int| 0 <= k < i + 1 implies bucket_of(#[trigger] slice@[k]) <= j by {
                if k < i {
                    assert(slice@[k] == written[k]);
                }
            }
        }
        i += 1;
    }
    proof {
        assert(slice@.subrange(0, n as int) =~= slice@);
        to_multiset_len(slice@);
        to_multiset_len(before);
        lemma_multiset_empty_len(rest);
        assert(slice@.to_multiset().add(rest) =~= slice@.to_multiset());
        if sorted(before) {
            lemma_sorted_rearrangement_unique(slice@, before);
        }
    }
}

} // verus!
