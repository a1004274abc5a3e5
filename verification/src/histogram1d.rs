//! The one-dimensional histogram.

use vstd::prelude::*;
use crate::axis::{bin_of, in_bin, in_range, is_axis, lemma_bin_of, refuses, Axis, AxisError};
use crate::counts::{
    bump, hits, lemma_record_all_concat, lemma_total_from_zeros, record, record_all, total, zeros,
};
use crate::number::Number;
use crate::plot_settings::{is_default, PlotSettings, Progress};

verus! {

/// Where each entry of a column falls on an axis: the bin of a value in
/// range, nothing for a value out of range or a missing entry.
pub open spec fn cells(edges: Seq<Number>, values: Seq<Option<Number>>) -> Seq<Option<int>> {
    Seq::new(
        values.len(),
        |i: int|
            match values[i] {
                Some(value) => bin_of(edges, value),
                None => None,
            },
    )
}

/// How many entries of a column are values in the range of the axis.
pub open spec fn in_range_count(edges: Seq<Number>, values: Seq<Option<Number>>) -> nat
    decreases values.len(),
{
    if values.len() == 0 {
        0
    } else {
        in_range_count(edges, values.drop_last()) + match values.last() {
            Some(value) => if in_range(edges, value) {
                1nat
            } else {
                0nat
            },
            None => 0nat,
        }
    }
}

/// The progress that a fill shows after the rows from `from` up to `to` of a
/// column were counted: that of the last of these rows that has a value, or
/// `before`, the progress shown until then, where none of them has one.
pub open spec fn progress_through(
    values: Seq<Option<Number>>,
    from: int,
    to: int,
    before: Option<Progress>,
) -> Option<Progress>
    decreases to - from,
{
    if to <= from {
        before
    } else if values[to - 1] is Some {
        Some(Progress { step: (to - 1) as usize, total: values.len() as usize })
    } else {
        progress_through(values, from, to - 1, before)
    }
}

/// The rows that `fill_rows` counts when asked for those from `from` up to
/// `to`: these, as far as the column has them.
pub open spec fn rows_within(len: nat, from: int, to: int) -> (int, int) {
    let end = if to <= len {
        to
    } else {
        len as int
    };
    let start = if from <= end {
        from
    } else {
        end
    };
    (start, end)
}

/// Why a histogram that was kept somewhere is not taken back.
#[derive(Clone, Copy, Debug, PartialEq, Eq, Structural)]
pub enum RestoreError {
    /// Its edges are no axis.
    Axis(AxisError),
    /// Its edges are an axis, and it has not one count per bin.
    Counts,
}

/// A histogram as a value: its name, the edges of its bins, one count per
/// bin, and its display settings.
pub struct HistogramView {
    pub name: Seq<char>,
    pub edges: Seq<Number>,
    pub counts: Seq<u64>,
    pub plot_settings: PlotSettings,
}

/// Counts of entries per bin over one axis.
pub struct Histogram {
    name: String,
    axis: Axis,
    bins: Vec<u64>,
    plot_settings: PlotSettings,
}

impl View for Histogram {
    type V = HistogramView;

    closed spec fn view(&self) -> HistogramView {
        HistogramView {
            name: self.name@,
            edges: self.axis@,
            counts: self.bins@,
            plot_settings: self.plot_settings,
        }
    }
}

/// The given settings with another progress.
pub open spec fn with_progress(settings: PlotSettings, progress: Option<Progress>) -> PlotSettings {
    PlotSettings { progress, ..settings }
}

impl Histogram {
    /// What holds of every histogram: its edges form an axis, and it has one
    /// count per bin.
    #[verifier::type_invariant]
    pub open spec fn well_formed(self) -> bool {
        is_axis(self@.edges) && self@.counts.len() == self@.edges.len() - 1
    }

    /// A histogram over the given edges with every count zero, or the reason
    /// why the edges are no axis: fewer than two of them (no bin), or a pair of
    /// neighbours not in increasing order (with two edges: a range whose lower
    /// end is not below the upper).
    pub fn new(name: &str, edges: Vec<Number>) -> (r: Result<Histogram, AxisError>)
        ensures
            r is Ok <==> is_axis(edges@),
            r matches Ok(h) ==> {
                &&& h@.name == name@
                &&& h@.edges == edges@
                &&& h@.counts == zeros((edges@.len() - 1) as nat)
                &&& is_default(h@.plot_settings)
            },
            r matches Err(error) ==> refuses(edges@, error),
    {
        match Axis::new(edges) {
            Ok(axis) => Ok(Histogram::over(name, axis)),
            Err(e) => Err(e),
        }
    }

    /// A histogram with the given counts, as it was kept somewhere: of that
    /// name, over those edges, with those settings. It is refused where the
    /// edges are no axis, and where there is not one count per bin.
    pub fn restore(name: &str, edges: Vec<Number>, bins: Vec<u64>, plot_settings: PlotSettings) -> (r:
        Result<Histogram, RestoreError>)
        ensures
            r is Ok <==> is_axis(edges@) && bins@.len() == edges@.len() - 1,
            r matches Ok(h) ==> h@ == (HistogramView {
                name: name@,
                edges: edges@,
                counts: bins@,
                plot_settings,
            }),
            r matches Err(RestoreError::Axis(error)) ==> refuses(edges@, error),
            r matches Err(RestoreError::Counts) ==> is_axis(edges@),
    {
        let axis = match Axis::new(edges) {
            Ok(axis) => axis,
            Err(e) => {
                return Err(RestoreError::Axis(e));
            },
        };
        proof {
            use_type_invariant(&axis);
        }
        if bins.len() != axis.bin_count() {
            return Err(RestoreError::Counts);
        }
        Ok(Histogram { name: name.to_owned(), axis, bins, plot_settings })
    }

    /// A histogram over the given axis with every count zero.
    pub fn over(name: &str, axis: Axis) -> (h: Histogram)
        ensures
            h@.name == name@,
            h@.edges == axis@,
            h@.counts == zeros((axis@.len() - 1) as nat),
            is_default(h@.plot_settings),
    {
        proof {
            use_type_invariant(&axis);
        }
        let n = axis.bin_count();
        let bins = zeroed(n);
        Histogram { name: name.to_owned(), axis, bins, plot_settings: PlotSettings::default() }
    }

    pub fn name(&self) -> (r: &String)
        ensures
            r@ == self@.name,
    {
        &self.name
    }

    pub fn axis(&self) -> (r: &Axis)
        ensures
            r@ == self@.edges,
    {
        &self.axis
    }

    /// The range that the histogram covers: its lower end, which belongs to
    /// it, and its upper end, which does not.
    pub fn range(&self) -> (r: (Number, Number))
        ensures
            r.0 == self@.edges[0],
            r.1 == self@.edges[self@.edges.len() - 1],
    {
        (self.axis.low(), self.axis.high())
    }

    /// The counts, one per bin, in the order of the bins.
    pub fn bins(&self) -> (r: &Vec<u64>)
        ensures
            r@ == self@.counts,
            r@.len() == self@.edges.len() - 1,
    {
        proof {
            use_type_invariant(self);
        }
        &self.bins
    }

    pub fn plot_settings(&self) -> (r: &PlotSettings)
        ensures
            *r == self@.plot_settings,
    {
        &self.plot_settings
    }

    /// Replaces the display settings; name, edges and counts stay.
    pub fn set_plot_settings(&mut self, plot_settings: PlotSettings)
        ensures
            final(self)@ == (HistogramView { plot_settings, ..old(self)@ }),
    {
        proof {
            use_type_invariant(&*self);
        }
        self.plot_settings = plot_settings;
    }

    /// The progress of the fill in flight, if one is.
    pub fn progress(&self) -> (r: Option<Progress>)
        ensures
            r == self@.plot_settings.progress,
    {
        self.plot_settings.progress
    }

    /// The sum of all counts.
    pub fn total(&self) -> (r: u128)
        ensures
            r == total(self@.counts),
    {
        let mut sum: u128 = 0;
        let mut i: usize = 0;
        while i < self.bins.len()
            invariant
                i <= self.bins@.len(),
                sum == total(self.bins@.take(i as int)),
                sum <= i * u64::MAX,
            decreases self.bins@.len() - i,
        {
            assert(self.bins@.take(i + 1).drop_last() == self.bins@.take(i as int));
            assert((i + 1) * u64::MAX == i * u64::MAX + u64::MAX) by (nonlinear_arith);
            assert(i * u64::MAX <= usize::MAX * u64::MAX) by (nonlinear_arith)
                requires
                    i <= usize::MAX,
            ;
            sum = sum + self.bins[i] as u128;
            i = i + 1;
        }
        assert(self.bins@.take(i as int) == self.bins@);
        sum
    }

    /// Counts one value. A value in the range raises the count of the one bin
    /// that holds it; a value out of range, or one that is not a number,
    /// changes no count. Either way the progress becomes `current_step` of
    /// `total_steps`.
    pub fn fill(&mut self, value: Number, current_step: usize, total_steps: usize)
        ensures
            final(self)@.name == old(self)@.name,
            final(self)@.edges == old(self)@.edges,
            final(self)@.counts == record(old(self)@.counts, bin_of(old(self)@.edges, value)),
            final(self)@.plot_settings == with_progress(
                old(self)@.plot_settings,
                Some(Progress { step: current_step, total: total_steps }),
            ),
            in_range(old(self)@.edges, value) ==> exists|k: int|
                {
                    &&& #[trigger] in_bin(old(self)@.edges, k, value)
                    &&& bin_of(old(self)@.edges, value) == Some(k)
                    &&& final(self)@.counts == old(self)@.counts.update(
                        k,
                        bump(old(self)@.counts[k]),
                    )
                },
            !in_range(old(self)@.edges, value) ==> final(self)@.counts == old(self)@.counts,
    {
        proof {
            use_type_invariant(&*self);
            lemma_bin_of(self.axis@, value);
        }
        match self.axis.locate(value) {
            Some(k) => {
                let count = self.bins[k];
                if count < u64::MAX {
                    self.bins[k] = count + 1;
                }
                assert(self.bins@ == old(self).bins@.update(k as int, bump(old(self).bins@[k as int])));
                assert(in_bin(self.axis@, k as int, value));
            },
            None => {},
        }
        self.plot_settings.progress = Some(Progress { step: current_step, total: total_steps });
    }

    /// Ends a fill: the progress is cleared, nothing else changes.
    pub fn finish_fill(&mut self)
        ensures
            final(self)@.name == old(self)@.name,
            final(self)@.edges == old(self)@.edges,
            final(self)@.counts == old(self)@.counts,
            final(self)@.plot_settings == with_progress(old(self)@.plot_settings, None),
    {
        proof {
            use_type_invariant(&*self);
        }
        self.plot_settings.progress = None;
    }

    /// Sets every count to zero and clears the progress. Name and edges stay.
    pub fn reset(&mut self)
        ensures
            final(self)@.name == old(self)@.name,
            final(self)@.edges == old(self)@.edges,
            final(self)@.counts == zeros(old(self)@.counts.len()),
            final(self)@.plot_settings == with_progress(old(self)@.plot_settings, None),
    {
        proof {
            use_type_invariant(&*self);
        }
        let n = self.bins.len();
        self.bins = zeroed(n);
        self.plot_settings.progress = None;
    }

    /// Counts the rows from `from` up to `to` of a column, as far as the
    /// column has them, in their order. Row `i` of `n` is counted as
    /// `fill(value, i, n)` does; a row without a value is passed over. The
    /// progress is left at the last row that was counted.
    pub fn fill_rows(&mut self, values: &Vec<Option<Number>>, from: usize, to: usize)
        ensures
            final(self)@.name == old(self)@.name,
            final(self)@.edges == old(self)@.edges,
            final(self)@.counts == record_all(
                old(self)@.counts,
                cells(old(self)@.edges, values@).subrange(
                    rows_within(values@.len(), from as int, to as int).0,
                    rows_within(values@.len(), from as int, to as int).1,
                ),
            ),
            final(self)@.plot_settings == with_progress(
                old(self)@.plot_settings,
                progress_through(
                    values@,
                    rows_within(values@.len(), from as int, to as int).0,
                    rows_within(values@.len(), from as int, to as int).1,
                    old(self)@.plot_settings.progress,
                ),
            ),
    {
        let total_steps = values.len();
        let end = if to <= total_steps {
            to
        } else {
            total_steps
        };
        let start = if from <= end {
            from
        } else {
            end
        };
        let mut i: usize = start;
        while i < end
            invariant
                total_steps == values@.len(),
                start <= i <= end <= total_steps,
                self@.name == old(self)@.name,
                self@.edges == old(self)@.edges,
                self@.counts == record_all(
                    old(self)@.counts,
                    cells(old(self)@.edges, values@).subrange(start as int, i as int),
                ),
                self@.plot_settings == with_progress(
                    old(self)@.plot_settings,
                    progress_through(
                        values@,
                        start as int,
                        i as int,
                        old(self)@.plot_settings.progress,
                    ),
                ),
            decreases end - i,
        {
            proof {
                let all = cells(old(self)@.edges, values@);
                assert(all.subrange(start as int, i + 1).drop_last() == all.subrange(
                    start as int,
                    i as int,
                ));
            }
            match values[i] {
                Some(value) => {
                    self.fill(value, i, total_steps);
                },
                None => {},
            }
            i = i + 1;
        }
    }

    /// Counts a whole column, first row to last, and clears the progress at
    /// the end. Row `i` of `n` is counted as `fill(value, i, n)` does; a row
    /// without a value is passed over.
    pub fn fill_column(&mut self, values: &Vec<Option<Number>>)
        ensures
            final(self)@.name == old(self)@.name,
            final(self)@.edges == old(self)@.edges,
            final(self)@.counts == record_all(
                old(self)@.counts,
                cells(old(self)@.edges, values@),
            ),
            final(self)@.plot_settings == with_progress(old(self)@.plot_settings, None),
    {
        proof {
            let all = cells(old(self)@.edges, values@);
            assert(all.subrange(0, values@.len() as int) == all);
        }
        self.fill_rows(values, 0, values.len());
        self.finish_fill();
    }
}

/// A vector of `n` zero counts.
pub fn zeroed(n: usize) -> (bins: Vec<u64>)
    ensures
        bins@ == zeros(n as nat),
{
    let mut bins: Vec<u64> = Vec::new();
    let mut i: usize = 0;
    while i < n
        invariant
            i <= n,
            bins@ == zeros(i as nat),
        decreases n - i,
    {
        bins.push(0);
        assert(bins@ == zeros((i + 1) as nat));
        i = i + 1;
    }
    bins
}

/// Counting a column in two batches, one after the other, leaves the counts
/// that counting it in one go leaves.
pub proof fn lemma_batches_compose(
    edges: Seq<Number>,
    counts: Seq<u64>,
    values: Seq<Option<Number>>,
    middle: int,
)
    requires
        0 <= middle <= values.len(),
    ensures
        record_all(
            record_all(counts, cells(edges, values).subrange(0, middle)),
            cells(edges, values).subrange(middle, values.len() as int),
        ) == record_all(counts, cells(edges, values)),
{
    let all = cells(edges, values);
    lemma_record_all_concat(
        counts,
        all.subrange(0, middle),
        all.subrange(middle, values.len() as int),
    );
    assert(all.subrange(0, middle) + all.subrange(middle, values.len() as int) == all);
}

/// The progress of a fill stands for a fraction below one, and it does not
/// go back: after more rows it stands at the same row or at a later one.
pub proof fn lemma_progress_advances(
    values: Seq<Option<Number>>,
    from: int,
    to: int,
    further: int,
)
    requires
        0 <= from <= to <= further <= values.len(),
        values.len() <= usize::MAX,
    ensures
        progress_through(values, from, to, None) matches Some(early) ==> {
            &&& from <= early.step < to
            &&& early.total == values.len()
            &&& early.is_fraction()
            &&& progress_through(values, from, further, None) matches Some(late)
            &&& early.step <= late.step
        },
    decreases further - from,
{
    if to > from {
        if values[to - 1] is None {
            lemma_progress_advances(values, from, to - 1, to - 1);
        }
    }
    if further > to {
        if values[further - 1] is None {
            lemma_progress_advances(values, from, to, further - 1);
        } else {
            lemma_progress_advances(values, from, to, to);
        }
    }
}

/// The locations of a column that name a bin are those of its values in range.
pub proof fn lemma_hits_are_in_range(edges: Seq<Number>, values: Seq<Option<Number>>)
    requires
        is_axis(edges),
    ensures
        hits(cells(edges, values), (edges.len() - 1) as nat) == in_range_count(edges, values),
    decreases values.len(),
{
    if values.len() > 0 {
        let all = cells(edges, values);
        assert(all.drop_last() == cells(edges, values.drop_last()));
        lemma_hits_are_in_range(edges, values.drop_last());
        match values.last() {
            Some(value) => {
                lemma_bin_of(edges, value);
            },
            None => {},
        }
    }
}

/// Filling a histogram whose counts are zero with a column: afterwards the
/// counts sum to the number of values of the column that lie in the range.
/// Values out of range and missing entries add nothing.
pub proof fn lemma_sum_is_entries_in_range(edges: Seq<Number>, values: Seq<Option<Number>>)
    requires
        is_axis(edges),
        values.len() <= u64::MAX,
    ensures
        total(record_all(zeros((edges.len() - 1) as nat), cells(edges, values))) == in_range_count(
            edges,
            values,
        ),
{
    lemma_hits_are_in_range(edges, values);
    lemma_total_from_zeros((edges.len() - 1) as nat, cells(edges, values));
}

/// Filling a histogram whose counts are zero, resetting it and filling the
/// same column again gives the counts of the first fill, count for count.
pub proof fn lemma_refill_is_identical(edges: Seq<Number>, values: Seq<Option<Number>>)
    ensures
        ({
            let first = record_all(zeros((edges.len() - 1) as nat), cells(edges, values));
            let reset = zeros(first.len());
            record_all(reset, cells(edges, values)) == first
        }),
{
    crate::counts::lemma_record_all_len(zeros((edges.len() - 1) as nat), cells(edges, values));
}

} // verus!
