//! The state of one analysis: its histograms, and whether they are ready.
//!
//! Reading the selected files, applying the cuts and running the histogram
//! script are done by the caller. What comes of it is handed in here, and
//! this module decides what it means for the state.

use vstd::prelude::*;
use crate::histogrammer::{is_empty, Histogrammer};

verus! {

/// What came of making the histograms.
pub enum Calculation {
    /// There was no table to make them from.
    NoTable,
    /// The cuts could not be applied to the table.
    CutsFailed,
    /// The table was there, and the histograms could not be made from it.
    Failed,
    /// The histograms were made.
    Made(Histogrammer),
}

/// The histograms of an analysis and whether they have been calculated.
pub struct Processer {
    pub histogrammer: Histogrammer,
    pub is_ready: bool,
}

impl Processer {
    /// An analysis without histograms, not ready.
    pub fn new() -> (processer: Processer)
        ensures
            !processer.is_ready,
            is_empty(processer.histogrammer),
    {
        Processer { histogrammer: Histogrammer::new(), is_ready: false }
    }

    /// Takes what came of making the histograms from the whole table. New
    /// histograms take the place of those that are here; without new ones,
    /// those that are here stay. Either way the analysis is ready.
    pub fn calculate_histograms(&mut self, calculation: Calculation)
        ensures
            final(self).is_ready,
            final(self).histogrammer == match calculation {
                Calculation::Made(histogrammer) => histogrammer,
                _ => old(self).histogrammer,
            },
    {
        match calculation {
            Calculation::Made(histogrammer) => {
                self.histogrammer = histogrammer;
            },
            _ => {},
        }
        self.is_ready = true;
    }

    /// Takes what came of making the histograms from the table under the
    /// selected cuts. Without a table, or where the cuts could not be applied,
    /// nothing changes. Else the analysis is ready, and new histograms, if
    /// there are any, take the place of those that are here.
    pub fn calculate_histograms_with_cuts(&mut self, calculation: Calculation)
        ensures
            final(self).is_ready == match calculation {
                Calculation::NoTable => old(self).is_ready,
                Calculation::CutsFailed => old(self).is_ready,
                _ => true,
            },
            final(self).histogrammer == match calculation {
                Calculation::Made(histogrammer) => histogrammer,
                _ => old(self).histogrammer,
            },
    {
        match calculation {
            Calculation::NoTable => {},
            Calculation::CutsFailed => {},
            Calculation::Failed => {
                self.is_ready = true;
            },
            Calculation::Made(histogrammer) => {
                self.histogrammer = histogrammer;
                self.is_ready = true;
            },
        }
    }
}

} // verus!
