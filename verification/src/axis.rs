//! One axis of a histogram: the edges of its bins.
//!
//! An axis with `n` bins is given by `n + 1` edges in strictly increasing
//! order. Bin `k` is the half-open interval from edge `k` to edge `k + 1`:
//! its lower edge belongs to it, its upper edge does not. The axis covers
//! the interval from its first edge to its last, which therefore excludes
//! the last edge itself.

use vstd::prelude::*;
use crate::number::Number;

verus! {

/// Whether every edge is less than each later one. Where there are two or
/// more, each of them is a number.
pub open spec fn increasing(edges: Seq<Number>) -> bool {
    forall|i: int, j: int|
        #![trigger edges[i], edges[j]]
        0 <= i < j < edges.len() ==> edges[i].spec_lt(edges[j])
}

/// Whether the edges describe an axis: at least one bin, edges strictly increasing.
pub open spec fn is_axis(edges: Seq<Number>) -> bool {
    edges.len() >= 2 && increasing(edges)
}

/// Whether `value` lies in the range of the axis: first edge <= value < last edge.
pub open spec fn in_range(edges: Seq<Number>, value: Number) -> bool {
    edges.len() >= 2 && edges[0].spec_le(value) && value.spec_lt(edges[edges.len() - 1])
}

/// Whether `value` lies in bin `k`: edge k <= value < edge k + 1.
pub open spec fn in_bin(edges: Seq<Number>, k: int, value: Number) -> bool {
    0 <= k < edges.len() - 1 && edges[k].spec_le(value) && value.spec_lt(edges[k + 1])
}

/// The bin that holds `value`, if it lies in the range of the axis.
pub open spec fn bin_of(edges: Seq<Number>, value: Number) -> Option<int> {
    if in_range(edges, value) {
        Some(choose|k: int| in_bin(edges, k, value))
    } else {
        None
    }
}

/// A value lies in at most one bin.
pub proof fn lemma_bin_unique(edges: Seq<Number>, j: int, k: int, value: Number)
    requires
        increasing(edges),
        in_bin(edges, j, value),
        in_bin(edges, k, value),
    ensures
        j == k,
{
    if j < k {
        assert(j + 1 < k ==> edges[j + 1].spec_lt(edges[k]));
    } else if k < j {
        assert(k + 1 < j ==> edges[k + 1].spec_lt(edges[j]));
    }
}

/// A value in a bin lies in the range of the axis.
pub proof fn lemma_bin_in_range(edges: Seq<Number>, k: int, value: Number)
    requires
        increasing(edges),
        in_bin(edges, k, value),
    ensures
        in_range(edges, value),
{
    assert(0 < k ==> edges[0].spec_lt(edges[k]));
    assert(k + 1 < edges.len() - 1 ==> edges[k + 1].spec_lt(edges[edges.len() - 1]));
}

/// A value in the range of the axis lies in some bin: the bins leave no gap.
pub proof fn lemma_bin_exists(edges: Seq<Number>, value: Number)
    requires
        is_axis(edges),
        in_range(edges, value),
    ensures
        exists|k: int| in_bin(edges, k, value),
{
    lemma_bin_between(edges, 0, edges.len() - 1, value);
}

proof fn lemma_bin_between(edges: Seq<Number>, low: int, high: int, value: Number)
    requires
        increasing(edges),
        0 <= low < high < edges.len(),
        edges[low].spec_le(value),
        value.spec_lt(edges[high]),
    ensures
        exists|k: int| in_bin(edges, k, value),
    decreases high - low,
{
    if high == low + 1 {
        assert(in_bin(edges, low, value));
    } else {
        let mid = low + 1;
        assert(edges[low].spec_lt(edges[mid]));
        if edges[mid].spec_le(value) {
            lemma_bin_between(edges, mid, high, value);
        } else {
            assert(in_bin(edges, low, value));
        }
    }
}

/// `bin_of` names the one bin that holds the value, and names none exactly
/// when the value is outside the range.
pub proof fn lemma_bin_of(edges: Seq<Number>, value: Number)
    requires
        is_axis(edges),
    ensures
        in_range(edges, value) <==> bin_of(edges, value) is Some,
        bin_of(edges, value) matches Some(k) ==> in_bin(edges, k, value),
        forall|k: int| in_bin(edges, k, value) ==> bin_of(edges, value) == Some(k),
{
    if in_range(edges, value) {
        lemma_bin_exists(edges, value);
        let chosen = choose|k: int| in_bin(edges, k, value);
        assert forall|k: int| in_bin(edges, k, value) implies bin_of(edges, value) == Some(k) by {
            lemma_bin_unique(edges, k, chosen, value);
        }
    } else {
        assert forall|k: int| in_bin(edges, k, value) implies bin_of(edges, value) == Some(k) by {
            lemma_bin_in_range(edges, k, value);
        }
    }
}

/// Why a sequence of edges is not an axis.
#[derive(Clone, Copy, Debug, PartialEq, Eq, Structural)]
pub enum AxisError {
    /// Fewer than two edges: there would be no bin.
    NoBins,
    /// Edge `at` is not less than edge `at + 1`, and the edges up to `at` are
    /// increasing. With two edges this is the range whose lower end is not
    /// below its upper end.
    NotIncreasing { at: usize },
}

/// Whether `error` says why the edges are no axis. At most one error does,
/// and none does of edges that are an axis.
pub open spec fn refuses(edges: Seq<Number>, error: AxisError) -> bool {
    match error {
        AxisError::NoBins => edges.len() < 2,
        AxisError::NotIncreasing { at } => {
            &&& edges.len() >= 2
            &&& at + 1 < edges.len()
            &&& !edges[at as int].spec_lt(edges[at + 1])
            &&& increasing(edges.subrange(0, at + 1))
        },
    }
}

/// Edges are refused for one reason only, and an axis for none.
pub proof fn lemma_refusal_unique(edges: Seq<Number>, first: AxisError, second: AxisError)
    requires
        refuses(edges, first),
        refuses(edges, second),
    ensures
        first == second,
        !is_axis(edges),
{
    match (first, second) {
        (AxisError::NotIncreasing { at: a }, AxisError::NotIncreasing { at: b }) => {
            let upto_a = edges.subrange(0, a + 1);
            let upto_b = edges.subrange(0, b + 1);
            if a < b {
                assert(upto_b[a as int].spec_lt(upto_b[a + 1]));
            } else if b < a {
                assert(upto_a[b as int].spec_lt(upto_a[b + 1]));
            }
            assert(!edges[a as int].spec_lt(edges[a + 1]));
        },
        (AxisError::NotIncreasing { at }, _) => {
            assert(!edges[at as int].spec_lt(edges[at + 1]));
        },
        (_, AxisError::NotIncreasing { at }) => {
            assert(!edges[at as int].spec_lt(edges[at + 1]));
        },
        _ => {},
    }
}

/// The bin edges of one axis.
pub struct Axis {
    edges: Vec<Number>,
}

impl View for Axis {
    type V = Seq<Number>;

    closed spec fn view(&self) -> Seq<Number> {
        self.edges@
    }
}

impl Axis {
    /// What holds of every axis: at least two edges, strictly increasing.
    #[verifier::type_invariant]
    pub open spec fn well_formed(self) -> bool {
        is_axis(self@)
    }

    /// Makes an axis of the given edges, or says why they are none.
    pub fn new(edges: Vec<Number>) -> (r: Result<Axis, AxisError>)
        ensures
            r is Ok <==> is_axis(edges@),
            r matches Ok(axis) ==> axis@ == edges@,
            r matches Err(error) ==> refuses(edges@, error),
    {
        if edges.len() < 2 {
            return Err(AxisError::NoBins);
        }
        let mut i: usize = 0;
        while i < edges.len() - 1
            invariant
                edges@.len() >= 2,
                i < edges@.len(),
                increasing(edges@.subrange(0, i + 1)),
            decreases edges@.len() - i,
        {
            if !edges[i].lt(edges[i + 1]) {
                assert(!is_axis(edges@)) by {
                    if is_axis(edges@) {
                        assert(edges@[i as int].spec_lt(edges@[i + 1]));
                    }
                }
                return Err(AxisError::NotIncreasing { at: i });
            }
            proof {
                let before = edges@.subrange(0, i + 1);
                let after = edges@.subrange(0, i + 2);
                assert forall|a: int, b: int| 0 <= a < b < after.len() implies after[a].spec_lt(
                    after[b],
                ) by {
                    if b <= i {
                        assert(before[a].spec_lt(before[b]));
                    } else if a < i {
                        assert(before[a].spec_lt(before[i as int]));
                    }
                }
            }
            i = i + 1;
        }
        assert(edges@.subrange(0, i + 1) == edges@);
        Ok(Axis { edges })
    }

    /// The number of bins: one less than the number of edges.
    pub fn bin_count(&self) -> (n: usize)
        ensures
            n == self@.len() - 1,
            n >= 1,
    {
        proof {
            use_type_invariant(self);
        }
        self.edges.len() - 1
    }

    /// The lower end of the range, which belongs to it.
    pub fn low(&self) -> (r: Number)
        ensures
            r == self@[0],
    {
        proof {
            use_type_invariant(self);
        }
        self.edges[0]
    }

    /// The upper end of the range, which does not belong to it.
    pub fn high(&self) -> (r: Number)
        ensures
            r == self@[self@.len() - 1],
    {
        proof {
            use_type_invariant(self);
        }
        self.edges[self.edges.len() - 1]
    }

    /// The edges, first to last.
    pub fn edges(&self) -> (r: &Vec<Number>)
        ensures
            r@ == self@,
    {
        &self.edges
    }

    /// Whether `value` lies in the range: low <= value < high.
    pub fn contains(&self, value: Number) -> (r: bool)
        ensures
            r == in_range(self@, value),
    {
        proof {
            use_type_invariant(self);
        }
        self.edges[0].le(value) && value.lt(self.edges[self.edges.len() - 1])
    }

    /// The index of the bin that holds `value`; `None` exactly when the value is
    /// outside the range (or is not a number).
    pub fn locate(&self, value: Number) -> (r: Option<usize>)
        ensures
            r is Some <==> in_range(self@, value),
            r matches Some(k) ==> in_bin(self@, k as int, value),
            match r {
                Some(k) => bin_of(self@, value) == Some(k as int),
                None => bin_of(self@, value) is None,
            },
    {
        proof {
            use_type_invariant(self);
            lemma_bin_of(self@, value);
        }
        if !self.contains(value) {
            return None;
        }
        let mut low: usize = 0;
        let mut high: usize = self.edges.len() - 1;
        while high - low > 1
            invariant
                is_axis(self.edges@),
                0 <= low < high < self.edges@.len(),
                self.edges@[low as int].spec_le(value),
                value.spec_lt(self.edges@[high as int]),
            decreases high - low,
        {
            let mid: usize = low + (high - low) / 2;
            assert(self.edges@[low as int].spec_lt(self.edges@[mid as int]));
            if self.edges[mid].le(value) {
                low = mid;
            } else {
                high = mid;
            }
        }
        Some(low)
    }
}

impl Clone for Axis {
    fn clone(&self) -> (r: Axis)
        ensures
            r@ == self@,
    {
        proof {
            use_type_invariant(self);
        }
        let mut edges: Vec<Number> = Vec::new();
        let mut i: usize = 0;
        while i < self.edges.len()
            invariant
                i <= self.edges@.len(),
                edges@ == self.edges@.subrange(0, i as int),
            decreases self.edges@.len() - i,
        {
            edges.push(self.edges[i]);
            i = i + 1;
        }
        assert(edges@ == self.edges@);
        Axis { edges }
    }
}

} // verus!
