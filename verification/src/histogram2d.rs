//! The two-dimensional histogram.
//!
//! It has one axis per dimension and one count per cell, kept row by row:
//! the cell of bin `i` on the x axis and bin `j` on the y axis has index
//! `i * ny + j`, where `ny` is the number of bins on the y axis. Each
//! component of a pair is located on its axis as a value is in one dimension,
//! and a pair is counted only if both components are in range.

use vstd::prelude::*;
use crate::axis::{bin_of, in_bin, in_range, is_axis, lemma_bin_of, refuses, Axis, AxisError};
use crate::counts::{bump, hits, lemma_total_from_zeros, record, record_all, total, zeros};
use crate::histogram1d::{rows_within, with_progress, zeroed};
use crate::number::Number;
use crate::plot_settings::{is_default, PlotSettings, Progress};

verus! {

/// The number of cells of a grid over the two axes.
pub open spec fn cell_count(x_edges: Seq<Number>, y_edges: Seq<Number>) -> nat {
    ((x_edges.len() - 1) * (y_edges.len() - 1)) as nat
}

/// Whether the pair lies in the range of the grid: each component in the
/// range of its axis.
pub open spec fn pair_in_range(
    x_edges: Seq<Number>,
    y_edges: Seq<Number>,
    x: Number,
    y: Number,
) -> bool {
    in_range(x_edges, x) && in_range(y_edges, y)
}

/// The index of the cell that holds the pair, if both components are in range.
pub open spec fn cell_of(x_edges: Seq<Number>, y_edges: Seq<Number>, x: Number, y: Number) -> Option<
    int,
> {
    match (bin_of(x_edges, x), bin_of(y_edges, y)) {
        (Some(i), Some(j)) => Some(i * (y_edges.len() - 1) + j),
        _ => None,
    }
}

/// The number of rows that two columns give: as many as the shorter has.
pub open spec fn paired_rows(xs: Seq<Option<Number>>, ys: Seq<Option<Number>>) -> nat {
    if xs.len() <= ys.len() {
        xs.len()
    } else {
        ys.len()
    }
}

/// Where each row of two columns falls on the grid. The rows are paired up
/// as far as the shorter column goes; a row that lacks a component falls
/// nowhere.
pub open spec fn pair_cells(
    x_edges: Seq<Number>,
    y_edges: Seq<Number>,
    xs: Seq<Option<Number>>,
    ys: Seq<Option<Number>>,
) -> Seq<Option<int>> {
    Seq::new(
        paired_rows(xs, ys),
        |i: int|
            match (xs[i], ys[i]) {
                (Some(x), Some(y)) => cell_of(x_edges, y_edges, x, y),
                _ => None,
            },
    )
}

/// The progress that a fill shows after the rows from `from` up to `to` of
/// two columns were counted: that of the last of these rows that has both
/// components, or `before`, the progress shown until then, where none of
/// them has. The number of rows of a fill is the length of the x column.
pub open spec fn pair_progress_through(
    xs: Seq<Option<Number>>,
    ys: Seq<Option<Number>>,
    from: int,
    to: int,
    before: Option<Progress>,
) -> Option<Progress>
    decreases to - from,
{
    if to <= from {
        before
    } else if xs[to - 1] is Some && ys[to - 1] is Some {
        Some(Progress { step: (to - 1) as usize, total: xs.len() as usize })
    } else {
        pair_progress_through(xs, ys, from, to - 1, before)
    }
}

/// How many of the first `n` rows are pairs in the range of the grid.
pub open spec fn pairs_in_range(
    x_edges: Seq<Number>,
    y_edges: Seq<Number>,
    xs: Seq<Option<Number>>,
    ys: Seq<Option<Number>>,
    n: nat,
) -> nat
    decreases n,
{
    if n == 0 {
        0
    } else {
        pairs_in_range(x_edges, y_edges, xs, ys, (n - 1) as nat) + match (xs[n - 1], ys[n - 1]) {
            (Some(x), Some(y)) => if pair_in_range(x_edges, y_edges, x, y) {
                1nat
            } else {
                0nat
            },
            _ => 0nat,
        }
    }
}

/// A grid of `nx` by `ny` bins has `nx * ny` cells, however the factors are written.
pub proof fn lemma_cell_count(x_edges: Seq<Number>, y_edges: Seq<Number>, nx: int, ny: int)
    requires
        nx == x_edges.len() - 1,
        ny == y_edges.len() - 1,
        nx >= 0,
        ny >= 0,
    ensures
        cell_count(x_edges, y_edges) == nx * ny,
{
    assert((x_edges.len() - 1) * (y_edges.len() - 1) == nx * ny) by (nonlinear_arith)
        requires
            nx == x_edges.len() - 1,
            ny == y_edges.len() - 1,
    ;
    assert(nx * ny >= 0) by (nonlinear_arith)
        requires
            nx >= 0,
            ny >= 0,
    ;
}

/// Bin `i` of `nx` and bin `j` of `ny` give a cell of the grid.
pub proof fn lemma_cell_index(i: int, j: int, nx: int, ny: int)
    requires
        0 <= i < nx,
        0 <= j < ny,
    ensures
        0 <= i * ny + j < nx * ny,
{
    assert(0 <= i * ny) by (nonlinear_arith)
        requires
            0 <= i,
            0 < ny,
    ;
    assert(i * ny + j < nx * ny) by (nonlinear_arith)
        requires
            0 <= i < nx,
            0 <= j < ny,
    ;
}

/// Why a two-dimensional histogram cannot be made.
#[derive(Clone, Copy, Debug, PartialEq, Eq, Structural)]
pub enum GridError {
    /// The edges of the x axis are no axis.
    XAxis(AxisError),
    /// The edges of the x axis are an axis, those of the y axis are none.
    YAxis(AxisError),
    /// Both are axes, but the number of cells does not fit in a `usize`.
    TooManyCells,
}

/// Whether `error` says why there is no grid over the given edges. At most
/// one error does.
pub open spec fn grid_refused(x_edges: Seq<Number>, y_edges: Seq<Number>, error: GridError) -> bool {
    match error {
        GridError::XAxis(e) => refuses(x_edges, e),
        GridError::YAxis(e) => is_axis(x_edges) && refuses(y_edges, e),
        GridError::TooManyCells => is_axis(x_edges) && is_axis(y_edges) && cell_count(
            x_edges,
            y_edges,
        ) > usize::MAX,
    }
}

/// Why a two-dimensional histogram that was kept somewhere is not taken
/// back.
#[derive(Clone, Copy, Debug, PartialEq, Eq, Structural)]
pub enum RestoreGridError {
    /// Its edges give no grid.
    Grid(GridError),
    /// Its edges give a grid, and it has not one count per cell.
    Counts,
}

/// A two-dimensional histogram as a value.
pub struct Histogram2DView {
    pub name: Seq<char>,
    pub x_edges: Seq<Number>,
    pub y_edges: Seq<Number>,
    pub counts: Seq<u64>,
    pub plot_settings: PlotSettings,
}

/// Counts of entries per cell over two axes.
pub struct Histogram2D {
    name: String,
    x_axis: Axis,
    y_axis: Axis,
    bins: Vec<u64>,
    plot_settings: PlotSettings,
}

impl View for Histogram2D {
    type V = Histogram2DView;

    closed spec fn view(&self) -> Histogram2DView {
        Histogram2DView {
            name: self.name@,
            x_edges: self.x_axis@,
            y_edges: self.y_axis@,
            counts: self.bins@,
            plot_settings: self.plot_settings,
        }
    }
}

impl Histogram2D {
    /// What holds of every two-dimensional histogram: both sequences of edges
    /// are axes, and there is one count per cell.
    #[verifier::type_invariant]
    pub open spec fn well_formed(self) -> bool {
        &&& is_axis(self@.x_edges)
        &&& is_axis(self@.y_edges)
        &&& self@.counts.len() == cell_count(self@.x_edges, self@.y_edges)
    }

    /// A histogram over the given edges with every count zero, or the reason
    /// why there is none.
    pub fn new(name: &str, x_edges: Vec<Number>, y_edges: Vec<Number>) -> (r: Result<
        Histogram2D,
        GridError,
    >)
        ensures
            r is Ok <==> is_axis(x_edges@) && is_axis(y_edges@) && cell_count(x_edges@, y_edges@)
                <= usize::MAX,
            r matches Ok(h) ==> {
                &&& h@.name == name@
                &&& h@.x_edges == x_edges@
                &&& h@.y_edges == y_edges@
                &&& h@.counts == zeros(cell_count(x_edges@, y_edges@))
                &&& is_default(h@.plot_settings)
            },
            r matches Err(error) ==> grid_refused(x_edges@, y_edges@, error),
    {
        let x_axis = match Axis::new(x_edges) {
            Ok(axis) => axis,
            Err(e) => {
                return Err(GridError::XAxis(e));
            },
        };
        let y_axis = match Axis::new(y_edges) {
            Ok(axis) => axis,
            Err(e) => {
                return Err(GridError::YAxis(e));
            },
        };
        let nx = x_axis.bin_count();
        let ny = y_axis.bin_count();
        if nx > usize::MAX / ny {
            assert(nx * ny > usize::MAX) by (nonlinear_arith)
                requires
                    nx > usize::MAX / ny,
                    ny >= 1,
            ;
            proof {
                lemma_cell_count(x_axis@, y_axis@, nx as int, ny as int);
            }
            return Err(GridError::TooManyCells);
        }
        assert(nx * ny <= usize::MAX) by (nonlinear_arith)
            requires
                nx <= usize::MAX / ny,
                ny >= 1,
        ;
        proof {
            lemma_cell_count(x_axis@, y_axis@, nx as int, ny as int);
        }
        let bins = zeroed(nx * ny);
        Ok(Histogram2D { name: name.to_owned(), x_axis, y_axis, bins, plot_settings: PlotSettings::default() })
    }

    /// A histogram with the given counts, as it was kept somewhere: of that
    /// name, over those edges, with those settings. It is refused where the
    /// edges give no grid, and where there is not one count per cell.
    pub fn restore(
        name: &str,
        x_edges: Vec<Number>,
        y_edges: Vec<Number>,
        bins: Vec<u64>,
        plot_settings: PlotSettings,
    ) -> (r: Result<Histogram2D, RestoreGridError>)
        ensures
            r is Ok <==> is_axis(x_edges@) && is_axis(y_edges@) && bins@.len() == cell_count(
                x_edges@,
                y_edges@,
            ),
            r matches Ok(h) ==> h@ == (Histogram2DView {
                name: name@,
                x_edges: x_edges@,
                y_edges: y_edges@,
                counts: bins@,
                plot_settings,
            }),
            r matches Err(RestoreGridError::Grid(error)) ==> grid_refused(x_edges@, y_edges@, error),
            r matches Err(RestoreGridError::Counts) ==> is_axis(x_edges@) && is_axis(y_edges@)
                && cell_count(x_edges@, y_edges@) <= usize::MAX,
    {
        let x_axis = match Axis::new(x_edges) {
            Ok(axis) => axis,
            Err(e) => {
                return Err(RestoreGridError::Grid(GridError::XAxis(e)));
            },
        };
        let y_axis = match Axis::new(y_edges) {
            Ok(axis) => axis,
            Err(e) => {
                return Err(RestoreGridError::Grid(GridError::YAxis(e)));
            },
        };
        let nx = x_axis.bin_count();
        let ny = y_axis.bin_count();
        let count = bins.len();
        proof {
            lemma_cell_count(x_axis@, y_axis@, nx as int, ny as int);
        }
        if nx > usize::MAX / ny {
            assert(nx * ny > usize::MAX) by (nonlinear_arith)
                requires
                    nx > usize::MAX / ny,
                    ny >= 1,
            ;
            return Err(RestoreGridError::Grid(GridError::TooManyCells));
        }
        assert(nx * ny <= usize::MAX) by (nonlinear_arith)
            requires
                nx <= usize::MAX / ny,
                ny >= 1,
        ;
        if count != nx * ny {
            return Err(RestoreGridError::Counts);
        }
        Ok(Histogram2D { name: name.to_owned(), x_axis, y_axis, bins, plot_settings })
    }

    pub fn name(&self) -> (r: &String)
        ensures
            r@ == self@.name,
    {
        &self.name
    }

    pub fn x_axis(&self) -> (r: &Axis)
        ensures
            r@ == self@.x_edges,
    {
        &self.x_axis
    }

    pub fn y_axis(&self) -> (r: &Axis)
        ensures
            r@ == self@.y_edges,
    {
        &self.y_axis
    }

    /// The ranges that the histogram covers, x then y: each a lower end,
    /// which belongs to it, and an upper end, which does not.
    pub fn range(&self) -> (r: ((Number, Number), (Number, Number)))
        ensures
            r.0.0 == self@.x_edges[0],
            r.0.1 == self@.x_edges[self@.x_edges.len() - 1],
            r.1.0 == self@.y_edges[0],
            r.1.1 == self@.y_edges[self@.y_edges.len() - 1],
    {
        ((self.x_axis.low(), self.x_axis.high()), (self.y_axis.low(), self.y_axis.high()))
    }

    /// The counts, one per cell, row by row.
    pub fn bins(&self) -> (r: &Vec<u64>)
        ensures
            r@ == self@.counts,
            r@.len() == cell_count(self@.x_edges, self@.y_edges),
    {
        proof {
            use_type_invariant(self);
        }
        &self.bins
    }

    /// The count of the cell of bin `i` on the x axis and bin `j` on the y
    /// axis, if there is such a cell.
    pub fn count_at(&self, i: usize, j: usize) -> (r: Option<u64>)
        ensures
            r is Some <==> i < self@.x_edges.len() - 1 && j < self@.y_edges.len() - 1,
            r matches Some(count) ==> count == self@.counts[i * (self@.y_edges.len() - 1) + j],
    {
        proof {
            use_type_invariant(self);
        }
        let nx = self.x_axis.bin_count();
        let ny = self.y_axis.bin_count();
        if i < nx && j < ny {
            // The number of cells is the length of a vector, so it fits in a `usize`.
            let _cells = self.bins.len();
            proof {
                lemma_cell_count(self.x_axis@, self.y_axis@, nx as int, ny as int);
                lemma_cell_index(i as int, j as int, nx as int, ny as int);
            }
            Some(self.bins[i * ny + j])
        } else {
            None
        }
    }

    pub fn plot_settings(&self) -> (r: &PlotSettings)
        ensures
            *r == self@.plot_settings,
    {
        &self.plot_settings
    }

    /// Replaces the display settings; name, edges and counts stay.
    pub fn set_plot_settings(&mut self, plot_settings: PlotSettings)
        ensures
            final(self)@ == (Histogram2DView { plot_settings, ..old(self)@ }),
    {
        proof {
            use_type_invariant(&*self);
        }
        self.plot_settings = plot_settings;
    }

    /// Notes the columns that the histogram is filled from, for its cuts.
    pub fn set_columns(&mut self, x_column: &str, y_column: &str)
        ensures
            final(self)@.name == old(self)@.name,
            final(self)@.x_edges == old(self)@.x_edges,
            final(self)@.y_edges == old(self)@.y_edges,
            final(self)@.counts == old(self)@.counts,
            final(self)@.plot_settings.cuts.x_column@ == x_column@,
            final(self)@.plot_settings.cuts.y_column@ == y_column@,
            final(self)@.plot_settings.cuts.cuts == old(self)@.plot_settings.cuts.cuts,
            final(self)@.plot_settings.progress == old(self)@.plot_settings.progress,
            final(self)@.plot_settings.stats_info == old(self)@.plot_settings.stats_info,
            final(self)@.plot_settings.rebin_x_factor == old(self)@.plot_settings.rebin_x_factor,
            final(self)@.plot_settings.rebin_y_factor == old(self)@.plot_settings.rebin_y_factor,
            final(self)@.plot_settings.recalculate_image == old(self)@.plot_settings.recalculate_image,
            final(self)@.plot_settings.allow_double_click_reset == old(self)@.plot_settings.allow_double_click_reset,
    {
        proof {
            use_type_invariant(&*self);
        }
        self.plot_settings.cuts.x_column = x_column.to_owned();
        self.plot_settings.cuts.y_column = y_column.to_owned();
    }

    /// The progress of the fill in flight, if one is.
    pub fn progress(&self) -> (r: Option<Progress>)
        ensures
            r == self@.plot_settings.progress,
    {
        self.plot_settings.progress
    }

    /// Counts one pair. A pair with both components in range raises the
    /// count of the one cell that holds it; any other pair changes no count.
    /// Either way the progress becomes `current_step` of `total_steps`.
    pub fn fill(&mut self, x_value: Number, y_value: Number, current_step: usize, total_steps: usize)
        ensures
            final(self)@.name == old(self)@.name,
            final(self)@.x_edges == old(self)@.x_edges,
            final(self)@.y_edges == old(self)@.y_edges,
            final(self)@.counts == record(
                old(self)@.counts,
                cell_of(old(self)@.x_edges, old(self)@.y_edges, x_value, y_value),
            ),
            final(self)@.plot_settings == with_progress(
                old(self)@.plot_settings,
                Some(Progress { step: current_step, total: total_steps }),
            ),
            pair_in_range(old(self)@.x_edges, old(self)@.y_edges, x_value, y_value)
                ==> exists|i: int, j: int|
                {
                    &&& #[trigger] in_bin(old(self)@.x_edges, i, x_value)
                    &&& #[trigger] in_bin(old(self)@.y_edges, j, y_value)
                    &&& 0 <= i * (old(self)@.y_edges.len() - 1) + j < old(self)@.counts.len()
                    &&& final(self)@.counts == old(self)@.counts.update(
                        i * (old(self)@.y_edges.len() - 1) + j,
                        bump(old(self)@.counts[i * (old(self)@.y_edges.len() - 1) + j]),
                    )
                },
            !pair_in_range(old(self)@.x_edges, old(self)@.y_edges, x_value, y_value) ==> final(self)@.counts == old(self)@.counts,
    {
        proof {
            use_type_invariant(&*self);
            lemma_bin_of(self.x_axis@, x_value);
            lemma_bin_of(self.y_axis@, y_value);
        }
        let ny = self.y_axis.bin_count();
        match self.x_axis.locate(x_value) {
            Some(i) => {
                match self.y_axis.locate(y_value) {
                    Some(j) => {
                        // The number of cells is the length of a vector, so it fits in a `usize`.
                        let _cells = self.bins.len();
                        proof {
                            let nx = self.x_axis@.len() - 1;
                            lemma_cell_count(self.x_axis@, self.y_axis@, nx, ny as int);
                            lemma_cell_index(i as int, j as int, nx, ny as int);
                        }
                        let cell = i * ny + j;
                        let count = self.bins[cell];
                        if count < u64::MAX {
                            self.bins[cell] = count + 1;
                        }
                        assert(self.bins@ == old(self).bins@.update(
                            cell as int,
                            bump(old(self).bins@[cell as int]),
                        ));
                        assert(in_bin(self.x_axis@, i as int, x_value));
                        assert(in_bin(self.y_axis@, j as int, y_value));
                    },
                    None => {},
                }
            },
            None => {},
        }
        self.plot_settings.progress = Some(Progress { step: current_step, total: total_steps });
    }

    /// Ends a fill: the progress is cleared, nothing else changes.
    pub fn finish_fill(&mut self)
        ensures
            final(self)@.name == old(self)@.name,
            final(self)@.x_edges == old(self)@.x_edges,
            final(self)@.y_edges == old(self)@.y_edges,
            final(self)@.counts == old(self)@.counts,
            final(self)@.plot_settings == with_progress(old(self)@.plot_settings, None),
    {
        proof {
            use_type_invariant(&*self);
        }
        self.plot_settings.progress = None;
    }

    /// Sets every count to zero and clears the progress. Name and edges stay.
    pub fn reset(&mut self)
        ensures
            final(self)@.name == old(self)@.name,
            final(self)@.x_edges == old(self)@.x_edges,
            final(self)@.y_edges == old(self)@.y_edges,
            final(self)@.counts == zeros(old(self)@.counts.len()),
            final(self)@.plot_settings == with_progress(old(self)@.plot_settings, None),
    {
        proof {
            use_type_invariant(&*self);
        }
        let n = self.bins.len();
        self.bins = zeroed(n);
        self.plot_settings.progress = None;
    }

    /// Counts the rows from `from` up to `to` of two columns, as far as both
    /// columns have them, in their order. Row `i` is counted as
    /// `fill(x, y, i, n)` does, with `n` the length of the x column; a row
    /// that lacks a component is passed over. The progress is left at the
    /// last row that was counted.
    pub fn fill_rows(
        &mut self,
        x_values: &Vec<Option<Number>>,
        y_values: &Vec<Option<Number>>,
        from: usize,
        to: usize,
    )
        ensures
            final(self)@.name == old(self)@.name,
            final(self)@.x_edges == old(self)@.x_edges,
            final(self)@.y_edges == old(self)@.y_edges,
            final(self)@.counts == record_all(
                old(self)@.counts,
                pair_cells(old(self)@.x_edges, old(self)@.y_edges, x_values@, y_values@).subrange(
                    rows_within(paired_rows(x_values@, y_values@), from as int, to as int).0,
                    rows_within(paired_rows(x_values@, y_values@), from as int, to as int).1,
                ),
            ),
            final(self)@.plot_settings == with_progress(
                old(self)@.plot_settings,
                pair_progress_through(
                    x_values@,
                    y_values@,
                    rows_within(paired_rows(x_values@, y_values@), from as int, to as int).0,
                    rows_within(paired_rows(x_values@, y_values@), from as int, to as int).1,
                    old(self)@.plot_settings.progress,
                ),
            ),
    {
        let total_steps = x_values.len();
        let rows = if x_values.len() <= y_values.len() {
            x_values.len()
        } else {
            y_values.len()
        };
        let end = if to <= rows {
            to
        } else {
            rows
        };
        let start = if from <= end {
            from
        } else {
            end
        };
        let mut i: usize = start;
        while i < end
            invariant
                total_steps == x_values@.len(),
                rows == paired_rows(x_values@, y_values@),
                rows <= x_values@.len(),
                rows <= y_values@.len(),
                start <= i <= end <= rows,
                self@.name == old(self)@.name,
                self@.x_edges == old(self)@.x_edges,
                self@.y_edges == old(self)@.y_edges,
                self@.counts == record_all(
                    old(self)@.counts,
                    pair_cells(
                        old(self)@.x_edges,
                        old(self)@.y_edges,
                        x_values@,
                        y_values@,
                    ).subrange(start as int, i as int),
                ),
                self@.plot_settings == with_progress(
                    old(self)@.plot_settings,
                    pair_progress_through(
                        x_values@,
                        y_values@,
                        start as int,
                        i as int,
                        old(self)@.plot_settings.progress,
                    ),
                ),
            decreases end - i,
        {
            proof {
                let all = pair_cells(old(self)@.x_edges, old(self)@.y_edges, x_values@, y_values@);
                assert(all.subrange(start as int, i + 1).drop_last() == all.subrange(
                    start as int,
                    i as int,
                ));
            }
            match (x_values[i], y_values[i]) {
                (Some(x_value), Some(y_value)) => {
                    self.fill(x_value, y_value, i, total_steps);
                },
                _ => {},
            }
            i = i + 1;
        }
    }

    /// Counts two columns row by row, first row to last, and clears the
    /// progress at the end. Row `i` is counted as `fill(x, y, i, n)` does,
    /// with `n` the length of the x column; a row that lacks a component is
    /// passed over, and so are the rows that only the longer column has.
    pub fn fill_columns(&mut self, x_values: &Vec<Option<Number>>, y_values: &Vec<Option<Number>>)
        ensures
            final(self)@.name == old(self)@.name,
            final(self)@.x_edges == old(self)@.x_edges,
            final(self)@.y_edges == old(self)@.y_edges,
            final(self)@.counts == record_all(
                old(self)@.counts,
                pair_cells(old(self)@.x_edges, old(self)@.y_edges, x_values@, y_values@),
            ),
            final(self)@.plot_settings == with_progress(old(self)@.plot_settings, None),
    {
        let rows = if x_values.len() <= y_values.len() {
            x_values.len()
        } else {
            y_values.len()
        };
        proof {
            let all = pair_cells(old(self)@.x_edges, old(self)@.y_edges, x_values@, y_values@);
            assert(all.subrange(0, rows as int) == all);
        }
        self.fill_rows(x_values, y_values, 0, rows);
        self.finish_fill();
    }
}

/// The locations of two columns that name a cell are those of the pairs in range.
pub proof fn lemma_pair_hits_are_in_range(
    x_edges: Seq<Number>,
    y_edges: Seq<Number>,
    xs: Seq<Option<Number>>,
    ys: Seq<Option<Number>>,
    n: nat,
)
    requires
        is_axis(x_edges),
        is_axis(y_edges),
        n <= xs.len(),
        n <= ys.len(),
    ensures
        hits(
            pair_cells(x_edges, y_edges, xs, ys).take(n as int),
            cell_count(x_edges, y_edges),
        ) == pairs_in_range(x_edges, y_edges, xs, ys, n),
    decreases n,
{
    let all = pair_cells(x_edges, y_edges, xs, ys);
    if n > 0 {
        assert(all.take(n as int).drop_last() == all.take(n - 1));
        lemma_pair_hits_are_in_range(x_edges, y_edges, xs, ys, (n - 1) as nat);
        match (xs[n - 1], ys[n - 1]) {
            (Some(x), Some(y)) => {
                lemma_bin_of(x_edges, x);
                lemma_bin_of(y_edges, y);
                if pair_in_range(x_edges, y_edges, x, y) {
                    lemma_cell_count(x_edges, y_edges, x_edges.len() - 1, y_edges.len() - 1);
                    lemma_cell_index(
                        bin_of(x_edges, x)->0,
                        bin_of(y_edges, y)->0,
                        x_edges.len() - 1,
                        y_edges.len() - 1,
                    );
                }
            },
            _ => {},
        }
    }
}

/// Filling a two-dimensional histogram whose counts are zero, resetting it
/// and filling the same columns again gives the counts of the first fill,
/// count for count.
pub proof fn lemma_refill_of_pairs_is_identical(
    x_edges: Seq<Number>,
    y_edges: Seq<Number>,
    xs: Seq<Option<Number>>,
    ys: Seq<Option<Number>>,
)
    ensures
        ({
            let rows = pair_cells(x_edges, y_edges, xs, ys);
            let first = record_all(zeros(cell_count(x_edges, y_edges)), rows);
            let reset = zeros(first.len());
            record_all(reset, rows) == first
        }),
{
    crate::counts::lemma_record_all_len(
        zeros(cell_count(x_edges, y_edges)),
        pair_cells(x_edges, y_edges, xs, ys),
    );
}

/// Filling a two-dimensional histogram whose counts are zero with two
/// columns of equal length: afterwards the counts sum to the number of rows
/// whose pair lies in the range of the grid.
pub proof fn lemma_sum_is_pairs_in_range(
    x_edges: Seq<Number>,
    y_edges: Seq<Number>,
    xs: Seq<Option<Number>>,
    ys: Seq<Option<Number>>,
)
    requires
        is_axis(x_edges),
        is_axis(y_edges),
        xs.len() == ys.len(),
        xs.len() <= u64::MAX,
    ensures
        total(
            record_all(
                zeros(cell_count(x_edges, y_edges)),
                pair_cells(x_edges, y_edges, xs, ys),
            ),
        ) == pairs_in_range(x_edges, y_edges, xs, ys, xs.len()),
{
    let all = pair_cells(x_edges, y_edges, xs, ys);
    assert(all.take(xs.len() as int) == all);
    lemma_pair_hits_are_in_range(x_edges, y_edges, xs, ys, xs.len());
    lemma_total_from_zeros(cell_count(x_edges, y_edges), all);
}

} // verus!
