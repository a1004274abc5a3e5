//! Bin counts as sequences, and what recording entries does to them.
//!
//! A histogram of either dimension keeps one counter per cell in a flat
//! sequence. Locating a value gives the index of a cell, or none when the
//! value is out of range. The functions here say how a sequence of counters
//! changes when such locations are recorded, one or many, and the lemmas
//! relate the sum of the counters to the number of entries.

use vstd::prelude::*;

verus! {

/// A counter after one more entry. A counter that has reached the largest
/// value of its type stays there.
pub open spec fn bump(count: u64) -> u64 {
    if count < u64::MAX {
        (count + 1) as u64
    } else {
        count
    }
}

/// Whether `cell` names one of `n` cells.
pub open spec fn is_hit(cell: Option<int>, n: nat) -> bool {
    cell matches Some(k) && 0 <= k < n
}

/// The counters after one location is recorded: the counter of the cell goes
/// up by one, every other counter stays; no location, no change.
pub open spec fn record(counts: Seq<u64>, cell: Option<int>) -> Seq<u64> {
    match cell {
        Some(k) => if 0 <= k < counts.len() {
            counts.update(k, bump(counts[k]))
        } else {
            counts
        },
        None => counts,
    }
}

/// The counters after the locations are recorded one after the other, first to last.
pub open spec fn record_all(counts: Seq<u64>, cells: Seq<Option<int>>) -> Seq<u64>
    decreases cells.len(),
{
    if cells.len() == 0 {
        counts
    } else {
        record(record_all(counts, cells.drop_last()), cells.last())
    }
}

/// `n` counters, all zero.
pub open spec fn zeros(n: nat) -> Seq<u64> {
    Seq::new(n, |i: int| 0u64)
}

/// The sum of the counters.
pub open spec fn total(counts: Seq<u64>) -> nat
    decreases counts.len(),
{
    if counts.len() == 0 {
        0
    } else {
        total(counts.drop_last()) + counts.last() as nat
    }
}

/// How many of the locations name one of `n` cells.
pub open spec fn hits(cells: Seq<Option<int>>, n: nat) -> nat
    decreases cells.len(),
{
    if cells.len() == 0 {
        0
    } else {
        hits(cells.drop_last(), n) + if is_hit(cells.last(), n) {
            1nat
        } else {
            0nat
        }
    }
}

/// Counters that are all zero sum to zero.
pub proof fn lemma_total_zeros(n: nat)
    ensures
        total(zeros(n)) == 0,
    decreases n,
{
    if n > 0 {
        assert(zeros(n).drop_last() == zeros((n - 1) as nat));
        lemma_total_zeros((n - 1) as nat);
    }
}

/// No counter is larger than the sum of all.
pub proof fn lemma_total_bounds_each(counts: Seq<u64>, k: int)
    requires
        0 <= k < counts.len(),
    ensures
        counts[k] <= total(counts),
    decreases counts.len(),
{
    if k < counts.len() - 1 {
        lemma_total_bounds_each(counts.drop_last(), k);
    }
}

/// Replacing one counter changes the sum by the difference.
pub proof fn lemma_total_update(counts: Seq<u64>, k: int, count: u64)
    requires
        0 <= k < counts.len(),
    ensures
        total(counts.update(k, count)) == total(counts) - counts[k] + count,
    decreases counts.len(),
{
    let updated = counts.update(k, count);
    if k < counts.len() - 1 {
        assert(updated.drop_last() == counts.drop_last().update(k, count));
        lemma_total_update(counts.drop_last(), k, count);
    } else {
        assert(updated.drop_last() == counts.drop_last());
    }
}

/// Recording keeps the number of counters.
pub proof fn lemma_record_all_len(counts: Seq<u64>, cells: Seq<Option<int>>)
    ensures
        record_all(counts, cells).len() == counts.len(),
    decreases cells.len(),
{
    if cells.len() > 0 {
        lemma_record_all_len(counts, cells.drop_last());
    }
}

/// Recording one batch of locations and then another is recording both in
/// one go.
pub proof fn lemma_record_all_concat(
    counts: Seq<u64>,
    first: Seq<Option<int>>,
    second: Seq<Option<int>>,
)
    ensures
        record_all(record_all(counts, first), second) == record_all(counts, first + second),
    decreases second.len(),
{
    if second.len() == 0 {
        assert(first + second == first);
    } else {
        lemma_record_all_concat(counts, first, second.drop_last());
        assert((first + second).drop_last() == first + second.drop_last());
        assert((first + second).last() == second.last());
    }
}

/// Recording a location inside the counters, on a counter that is not at its
/// limit, raises exactly that counter by one and the sum by one.
pub proof fn lemma_record_hit(counts: Seq<u64>, k: int)
    requires
        0 <= k < counts.len(),
        counts[k] < u64::MAX,
    ensures
        record(counts, Some(k)).len() == counts.len(),
        record(counts, Some(k))[k] == counts[k] + 1,
        forall|j: int| 0 <= j < counts.len() && j != k ==> record(counts, Some(k))[j] == counts[j],
        total(record(counts, Some(k))) == total(counts) + 1,
{
    lemma_total_update(counts, k, bump(counts[k]));
}

/// Each location that names a cell adds one to the sum, as long as the sum
/// stays within the counter type.
pub proof fn lemma_record_all_total(counts: Seq<u64>, cells: Seq<Option<int>>)
    requires
        total(counts) + hits(cells, counts.len()) <= u64::MAX,
    ensures
        total(record_all(counts, cells)) == total(counts) + hits(cells, counts.len()),
    decreases cells.len(),
{
    if cells.len() > 0 {
        let before = record_all(counts, cells.drop_last());
        lemma_record_all_total(counts, cells.drop_last());
        lemma_record_all_len(counts, cells.drop_last());
        if is_hit(cells.last(), counts.len()) {
            let k = cells.last()->0;
            lemma_total_bounds_each(before, k);
            lemma_record_hit(before, k);
        }
    }
}

/// Filling an empty set of counters: the sum is the number of locations that
/// name a cell.
pub proof fn lemma_total_from_zeros(n: nat, cells: Seq<Option<int>>)
    requires
        cells.len() <= u64::MAX,
    ensures
        total(record_all(zeros(n), cells)) == hits(cells, n),
{
    lemma_total_zeros(n);
    lemma_hits_bounded(cells, n);
    lemma_record_all_total(zeros(n), cells);
}

/// There are no more hits than locations.
pub proof fn lemma_hits_bounded(cells: Seq<Option<int>>, n: nat)
    ensures
        hits(cells, n) <= cells.len(),
    decreases cells.len(),
{
    if cells.len() > 0 {
        lemma_hits_bounded(cells.drop_last(), n);
    }
}

} // verus!
