//! Histograms of tabular data and the bookkeeping of fits to them.
//!
//! The crate counts values into the bins of one- and two-dimensional
//! histograms, keeps a collection of histograms with their places in a tile
//! tree, hands out and takes back the tasks that fill them, and takes a fit
//! of a spectrum through its steps. Numbers are carried as bit patterns and
//! only ever compared; every computation on them is left to the caller.

pub mod axis;
pub mod background_fitter;
pub mod counts;
pub mod cycles;
pub mod egui_line;
pub mod fit_handler;
pub mod gaussian;
pub mod histogram1d;
pub mod histogram2d;
pub mod histogrammer;
pub mod layout;
pub mod linear;
pub mod naming;
pub mod number;
pub mod plot_settings;
pub mod processer;
