//! The value range of a finished grid: its smallest estimate and the
//! estimate at a chosen rank, so that a few extreme cells do not stretch the
//! colour scale.

use crate::grid::{diverged_values, estimates, SampleResult};
use crate::sortkey::ZERO_KEY;
use vstd::multiset::group_multiset_axioms;
use vstd::prelude::*;
use vstd::relations::{sorted_by, total_ordering};
use vstd::seq_lib::{
    group_to_multiset_ensures, lemma_multiset_commutative, lemma_sorted_unique,
    to_multiset_build, to_multiset_contains, to_multiset_len,
};

verus! {

/// The range of estimates that the colour scale spans, as keys.
#[derive(Clone, Copy, Debug, PartialEq, Eq, Structural)]
pub struct ColorRange {
    pub min: u64,
    pub max: u64,
}

impl ColorRange {
    /// The range does not end below its start.
    pub open spec fn well_formed(&self) -> bool {
        self.min <= self.max
    }
}

/// The order of keys.
pub open spec fn key_order() -> spec_fn(u64, u64) -> bool {
    |a: u64, b: u64| a <= b
}

/// The values in ascending order.
pub open spec fn sorted_keys(values: Seq<u64>) -> Seq<u64> {
    values.sort_by(key_order())
}

/// No value is followed by a smaller one.
pub open spec fn ascending(values: Seq<u64>) -> bool {
    forall|i: int, j: int| 0 <= i < j < values.len() ==> values[i] <= values[j]
}

/// The rank that is read from `count` sorted values when `rank` is asked for:
/// `rank` itself, or the last one where `rank` lies beyond it.
pub open spec fn clamped_rank(rank: int, count: int) -> int {
    if rank < count {
        rank
    } else {
        count - 1
    }
}

/// The range of a collection of estimates: from the smallest to the one at
/// `rank` in ascending order. Without any estimate both ends are zero.
pub open spec fn range_of(values: Seq<u64>, rank: int) -> ColorRange {
    if values.len() == 0 {
        ColorRange { min: ZERO_KEY, max: ZERO_KEY }
    } else {
        ColorRange {
            min: sorted_keys(values)[0],
            max: sorted_keys(values)[clamped_rank(rank, values.len() as int)],
        }
    }
}

/// The order of keys is a total order.
proof fn lemma_key_order_total()
    ensures
        total_ordering(key_order()),
{
}

/// The sorted values are the same values, each as often as before, and none
/// of them is followed by a smaller one.
pub proof fn lemma_sorted_keys(values: Seq<u64>)
    ensures
        ascending(sorted_keys(values)),
        sorted_keys(values).to_multiset() == values.to_multiset(),
        sorted_keys(values).len() == values.len(),
{
    lemma_key_order_total();
    values.lemma_sort_by_ensures(key_order());
    to_multiset_len(values);
    to_multiset_len(sorted_keys(values));
    let sorted = sorted_keys(values);
    assert(sorted_by(sorted, key_order()));
    assert forall|i: int, j: int| 0 <= i < j < sorted.len() implies sorted[i] <= sorted[j] by {
        assert(key_order()(sorted[i], sorted[j]));
    }
}

/// There is one way only to put values in ascending order: an ascending
/// sequence of the same values, each as often, is `sorted_keys(values)`.
pub proof fn lemma_ascending_is_sorted(values: Seq<u64>, sorted: Seq<u64>)
    requires
        ascending(sorted),
        sorted.to_multiset() == values.to_multiset(),
    ensures
        sorted == sorted_keys(values),
{
    lemma_key_order_total();
    values.lemma_sort_by_ensures(key_order());
    assert(sorted_by(sorted, key_order()));
    lemma_sorted_unique(sorted, sorted_keys(values), key_order());
}

/// The range of a collection with at least one estimate starts at an
/// estimate that none is below and ends at an estimate of the collection that
/// is not below the start.
pub proof fn lemma_range_within_values(values: Seq<u64>, rank: int)
    requires
        values.len() > 0,
        rank >= 0,
    ensures
        values.contains(range_of(values, rank).min),
        values.contains(range_of(values, rank).max),
        forall|i: int| 0 <= i < values.len() ==> range_of(values, rank).min <= values[i],
        range_of(values, rank).well_formed(),
{
    lemma_sorted_keys(values);
    let sorted = sorted_keys(values);
    let at = clamped_rank(rank, values.len() as int);
    to_multiset_contains(sorted, sorted[0]);
    to_multiset_contains(values, sorted[0]);
    to_multiset_contains(sorted, sorted[at]);
    to_multiset_contains(values, sorted[at]);
    assert(sorted.contains(sorted[0]));
    assert(sorted.contains(sorted[at]));
    assert forall|i: int| 0 <= i < values.len() implies sorted[0] <= values[i] by {
        assert(values.contains(values[i]));
        to_multiset_contains(values, values[i]);
        to_multiset_contains(sorted, values[i]);
        let k = choose|k: int| 0 <= k < sorted.len() && sorted[k] == values[i];
        assert(k == 0 || sorted[0] <= sorted[k]);
    }
}

/// Merges two ascending lists into one.
fn merge(left: &Vec<u64>, right: &Vec<u64>) -> (merged: Vec<u64>)
    requires
        ascending(left@),
        ascending(right@),
    ensures
        ascending(merged@),
        merged@.to_multiset() == left@.to_multiset().add(right@.to_multiset()),
{
    broadcast use {group_to_multiset_ensures, group_multiset_axioms};

    let mut merged: Vec<u64> = Vec::new();
    let mut i: usize = 0;
    let mut j: usize = 0;
    assert(left@.take(0) == Seq::<u64>::empty());
    assert(right@.take(0) == Seq::<u64>::empty());
    assert(merged@.to_multiset() == left@.take(0).to_multiset().add(right@.take(0).to_multiset()));
    while i < left.len() || j < right.len()
        invariant
            i <= left.len(),
            j <= right.len(),
            ascending(left@),
            ascending(right@),
            ascending(merged@),
            merged@.to_multiset() == left@.take(i as int).to_multiset().add(
                right@.take(j as int).to_multiset(),
            ),
            forall|k: int|
                0 <= k < merged.len() ==> (i < left.len() ==> merged[k] <= left[i as int]) && (j
                    < right.len() ==> merged[k] <= right[j as int]),
        decreases left.len() - i + right.len() - j,
    {
        let ghost before = merged@;
        if j >= right.len() || (i < left.len() && left[i] <= right[j]) {
            merged.push(left[i]);
            proof {
                let taken = left@.take(i as int);
                let other = right@.take(j as int);
                let value = left[i as int];
                assert(left@.take(i + 1) == taken.push(value));
                assert(merged@ == before.push(value));
                to_multiset_build(before, value);
                to_multiset_build(taken, value);
                assert(taken.to_multiset().add(other.to_multiset()).insert(value)
                    =~= taken.to_multiset().insert(value).add(other.to_multiset()));
            }
            i += 1;
        } else {
            merged.push(right[j]);
            proof {
                let taken = right@.take(j as int);
                let other = left@.take(i as int);
                let value = right[j as int];
                assert(right@.take(j + 1) == taken.push(value));
                assert(merged@ == before.push(value));
                to_multiset_build(before, value);
                to_multiset_build(taken, value);
                assert(other.to_multiset().add(taken.to_multiset()).insert(value)
                    =~= other.to_multiset().add(taken.to_multiset().insert(value)));
            }
            j += 1;
        }
    }
    assert(left@.take(i as int) == left@);
    assert(right@.take(j as int) == right@);
    merged
}

/// Merge sort of `values[lo..hi]`.
fn sort_span(values: &Vec<u64>, lo: usize, hi: usize) -> (sorted: Vec<u64>)
    requires
        lo <= hi <= values.len(),
    ensures
        ascending(sorted@),
        sorted@.to_multiset() == values@.subrange(lo as int, hi as int).to_multiset(),
    decreases hi - lo,
{
    if hi - lo == 0 {
        let sorted: Vec<u64> = Vec::new();
        assert(values@.subrange(lo as int, hi as int) == sorted@);
        sorted
    } else if hi - lo == 1 {
        let mut sorted: Vec<u64> = Vec::new();
        sorted.push(values[lo]);
        assert(values@.subrange(lo as int, hi as int) == sorted@);
        sorted
    } else {
        let mid: usize = lo + (hi - lo) / 2;
        let left = sort_span(values, lo, mid);
        let right = sort_span(values, mid, hi);
        proof {
            let a = values@.subrange(lo as int, mid as int);
            let b = values@.subrange(mid as int, hi as int);
            assert(values@.subrange(lo as int, hi as int) == a + b);
            lemma_multiset_commutative(a, b);
        }
        merge(&left, &right)
    }
}

/// The values in ascending order.
pub fn sort_values(values: &Vec<u64>) -> (sorted: Vec<u64>)
    ensures
        sorted@ == sorted_keys(values@),
{
    let sorted = sort_span(values, 0, values.len());
    proof {
        assert(values@.subrange(0, values.len() as int) == values@);
        lemma_ascending_is_sorted(values@, sorted@);
    }
    sorted
}

/// The estimates of the grid, first column first and each column top to
/// bottom.
pub fn collect_diverged(data: &SampleResult) -> (values: Vec<u64>)
    ensures
        values@ == diverged_values(data@),
{
    let mut values: Vec<u64> = Vec::new();
    let mut x: usize = 0;
    assert(data@.take(0) == Seq::<Seq<Option<u64>>>::empty());
    while x < data.grid.len()
        invariant
            x <= data.grid.len(),
            values@ == diverged_values(data@.take(x as int)),
        decreases data.grid.len() - x,
    {
        let column = &data.grid[x];
        let ghost before = values@;
        let mut y: usize = 0;
        assert(column@.take(0) == Seq::<Option<u64>>::empty());
        while y < column.len()
            invariant
                y <= column.len(),
                values@ == before + estimates(column@.take(y as int)),
            decreases column.len() - y,
        {
            proof {
                let seen = column@.take(y + 1);
                assert(seen.drop_last() == column@.take(y as int));
                assert(seen.last() == column@[y as int]);
            }
            if let Some(value) = column[y] {
                values.push(value);
            }
            y += 1;
        }
        proof {
            assert(column@.take(y as int) == column@);
            let seen = data@.take(x + 1);
            assert(seen.drop_last() == data@.take(x as int));
            assert(seen.last() == column@);
        }
        x += 1;
    }
    assert(data@.take(x as int) == data@);
    values
}

/// How many cells of the grid hold an estimate.
pub fn diverged_count(data: &SampleResult) -> (count: usize)
    ensures
        count == diverged_values(data@).len(),
{
    collect_diverged(data).len()
}

/// The range of the grid's estimates: from the smallest to the one at `rank`
/// in ascending order, or at the last rank where `rank` lies beyond it. A
/// grid without any estimate has the range from zero to zero.
pub fn build_range(data: &SampleResult, rank: usize) -> (range: ColorRange)
    ensures
        range == range_of(diverged_values(data@), rank as int),
        range.well_formed(),
        diverged_values(data@).len() > 0 ==> {
            &&& diverged_values(data@).contains(range.min)
            &&& diverged_values(data@).contains(range.max)
            &&& forall|i: int|
                0 <= i < diverged_values(data@).len() ==> range.min <= diverged_values(data@)[i]
        },
{
    let values = collect_diverged(data);
    let sorted = sort_values(&values);
    proof {
        lemma_sorted_keys(values@);
        if values.len() > 0 {
            lemma_range_within_values(values@, rank as int);
        }
    }
    if sorted.len() == 0 {
        ColorRange { min: ZERO_KEY, max: ZERO_KEY }
    } else {
        let at: usize = if rank < sorted.len() {
            rank
        } else {
            sorted.len() - 1
        };
        ColorRange { min: sorted[0], max: sorted[at] }
    }
}

} // verus!
