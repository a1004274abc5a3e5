//! What a histogram keeps for its display.
//!
//! Drawing is not done here. This module holds the settings that the
//! accumulation code reads or writes while it runs: the progress of a fill in
//! flight, the columns a two-dimensional histogram was filled from, and the
//! switches that follow from the state of the cuts.

use vstd::prelude::*;

verus! {

/// How far a fill has come: the index of the row handed in last, and the
/// number of rows of the fill.
#[derive(Clone, Copy, Debug, PartialEq, Eq, Structural)]
pub struct Progress {
    pub step: usize,
    pub total: usize,
}

impl Progress {
    /// Whether the pair stands for a fraction from 0 to 1.
    pub open spec fn is_fraction(self) -> bool {
        self.step <= self.total && self.total > 0
    }
}

/// One region of interest, as far as the settings depend on it.
#[derive(Clone, Copy, Debug, PartialEq, Eq, Structural)]
pub struct Cut {
    /// Whether its outline is being edited by clicking into the plot.
    pub interactive_clicking: bool,
}

/// The regions of interest of one histogram and the columns they apply to.
pub struct HistogramCuts {
    pub x_column: String,
    pub y_column: String,
    pub cuts: Vec<Cut>,
}

/// Whether some cut of the sequence is being edited.
pub open spec fn any_interactive(cuts: Seq<Cut>) -> bool {
    exists|i: int| 0 <= i < cuts.len() && (#[trigger] cuts[i]).interactive_clicking
}

impl HistogramCuts {
    /// Whether some cut is being edited by clicking.
    pub fn any_interactive(&self) -> (r: bool)
        ensures
            r == any_interactive(self.cuts@),
    {
        let mut i: usize = 0;
        while i < self.cuts.len()
            invariant
                i <= self.cuts@.len(),
                forall|j: int| 0 <= j < i ==> !(#[trigger] self.cuts@[j]).interactive_clicking,
            decreases self.cuts@.len() - i,
        {
            if self.cuts[i].interactive_clicking {
                return true;
            }
            i = i + 1;
        }
        false
    }
}

/// The display settings of one histogram.
pub struct PlotSettings {
    pub cuts: HistogramCuts,
    pub stats_info: bool,
    pub rebin_x_factor: usize,
    pub rebin_y_factor: usize,
    pub recalculate_image: bool,
    pub allow_double_click_reset: bool,
    /// The progress of the fill in flight; `None` when the histogram was never
    /// filled or its fill has ended.
    pub progress: Option<Progress>,
}

/// Whether the settings are those that a new histogram has: no cuts and no
/// columns, no statistics shown, no rebinning, nothing to recalculate, a
/// double click resets the view, and no fill is in flight.
pub open spec fn is_default(settings: PlotSettings) -> bool {
    &&& settings.cuts.x_column@.len() == 0
    &&& settings.cuts.y_column@.len() == 0
    &&& settings.cuts.cuts@.len() == 0
    &&& !settings.stats_info
    &&& settings.rebin_x_factor == 1
    &&& settings.rebin_y_factor == 1
    &&& !settings.recalculate_image
    &&& settings.allow_double_click_reset
    &&& settings.progress is None
}

impl Default for PlotSettings {
    fn default() -> (r: PlotSettings)
        ensures
            is_default(r),
    {
        PlotSettings {
            cuts: HistogramCuts { x_column: String::new(), y_column: String::new(), cuts: Vec::new() },
            stats_info: false,
            rebin_x_factor: 1,
            rebin_y_factor: 1,
            recalculate_image: false,
            allow_double_click_reset: true,
            progress: None,
        }
    }
}

impl PlotSettings {
    /// Brings the double-click switch in line with the cuts: a double click
    /// resets the view only while no cut is being edited by clicking.
    pub fn update_double_click_reset(&mut self)
        ensures
            final(self).allow_double_click_reset == !any_interactive(old(self).cuts.cuts@),
            final(self).cuts == old(self).cuts,
            final(self).stats_info == old(self).stats_info,
            final(self).rebin_x_factor == old(self).rebin_x_factor,
            final(self).rebin_y_factor == old(self).rebin_y_factor,
            final(self).recalculate_image == old(self).recalculate_image,
            final(self).progress == old(self).progress,
    {
        self.allow_double_click_reset = !self.cuts.any_interactive();
    }
}

} // verus!
