//! The fit of a sum of Gaussian peaks: what it is given and what it keeps.
//!
//! The minimisation is done by the caller. What is decided here is whether
//! what it hands back fits the peaks that were asked for, and what is
//! stored.

use vstd::prelude::*;
use crate::egui_line::Point;
use crate::number::Number;

verus! {

/// One fitted peak.
#[derive(Clone, Copy, Debug)]
pub struct GaussianParams {
    pub amplitude: Number,
    pub mean: Number,
    pub sigma: Number,
}

/// What a minimisation hands back.
pub struct GaussianOutcome {
    /// One set of parameters per peak, in the order of the peak markers.
    pub params: Vec<GaussianParams>,
    /// The curve of each peak, in the same order.
    pub lines: Vec<Vec<Point>>,
    /// The sum of those curves.
    pub sum: Vec<Point>,
    pub reduced_chi_square: Number,
    /// Whether the minimiser came to rest within its iterations. A result
    /// that did not is kept all the same.
    pub converged: bool,
}

/// Why an outcome is not kept.
#[derive(Clone, Copy, Debug, PartialEq, Eq, Structural)]
pub enum GaussianFitError {
    /// It has not one set of parameters and one curve for each peak marker.
    WrongShape,
}

/// A fit of Gaussian peaks to one set of points.
pub struct GaussianFitter {
    pub x: Vec<Number>,
    pub y: Vec<Number>,
    /// The peak centres that the fit starts from.
    pub peak_markers: Vec<Number>,
    pub fit_params: Option<Vec<GaussianParams>>,
    pub fit_lines: Option<Vec<Vec<Point>>>,
    pub fit_sum: Option<Vec<Point>>,
    pub reduced_chi_square: Option<Number>,
    pub converged: bool,
}

/// Whether an outcome has one set of parameters and one curve per peak marker.
pub open spec fn well_shaped(peak_markers: Seq<Number>, outcome: GaussianOutcome) -> bool {
    outcome.params@.len() == peak_markers.len() && outcome.lines@.len() == peak_markers.len()
}

/// Whether a fit holds a result for no peaks: no parameters, no curves.
pub open spec fn is_empty_result(fit: GaussianFitter) -> bool {
    &&& fit.fit_params matches Some(params)
    &&& params@.len() == 0
    &&& fit.fit_lines matches Some(lines)
    &&& lines@.len() == 0
    &&& fit.fit_sum matches Some(sum)
    &&& sum@.len() == 0
    &&& fit.reduced_chi_square is None
    &&& fit.converged
}

impl GaussianFitter {
    /// A fit of the given points from the given peak markers that has not
    /// been carried out.
    pub fn new(x: Vec<Number>, y: Vec<Number>, peak_markers: Vec<Number>) -> (fit: GaussianFitter)
        ensures
            fit.x == x,
            fit.y == y,
            fit.peak_markers == peak_markers,
            fit.fit_params is None,
            fit.fit_lines is None,
            fit.fit_sum is None,
            fit.reduced_chi_square is None,
            !fit.converged,
    {
        GaussianFitter {
            x,
            y,
            peak_markers,
            fit_params: None,
            fit_lines: None,
            fit_sum: None,
            reduced_chi_square: None,
            converged: false,
        }
    }

    /// Gives the fit the result for no peaks.
    pub fn set_empty_result(&mut self)
        ensures
            final(self).x == old(self).x,
            final(self).y == old(self).y,
            final(self).peak_markers == old(self).peak_markers,
            is_empty_result(*final(self)),
    {
        self.fit_params = Some(Vec::new());
        self.fit_lines = Some(Vec::new());
        self.fit_sum = Some(Vec::new());
        self.reduced_chi_square = None;
        self.converged = true;
    }

    /// Takes what the minimisation handed back. A fit without peak markers
    /// gets the result for no peaks, whatever was handed back. Otherwise the
    /// outcome is kept if it has one set of parameters and one curve per
    /// peak marker, converged or not; if it has not, it is refused and the
    /// fit stays as it was.
    pub fn multi_gauss_fit(&mut self, outcome: GaussianOutcome) -> (r: Result<(), GaussianFitError>)
        ensures
            final(self).x == old(self).x,
            final(self).y == old(self).y,
            final(self).peak_markers == old(self).peak_markers,
            r is Ok <==> old(self).peak_markers@.len() == 0 || well_shaped(
                old(self).peak_markers@,
                outcome,
            ),
            old(self).peak_markers@.len() == 0 ==> is_empty_result(*final(self)),
            old(self).peak_markers@.len() > 0 && r is Ok ==> {
                &&& final(self).fit_params == Some(outcome.params)
                &&& final(self).fit_lines == Some(outcome.lines)
                &&& final(self).fit_sum == Some(outcome.sum)
                &&& final(self).reduced_chi_square == Some(outcome.reduced_chi_square)
                &&& final(self).converged == outcome.converged
            },
            r is Err ==> *final(self) == *old(self),
    {
        let peaks = self.peak_markers.len();
        if peaks == 0 {
            self.set_empty_result();
            return Ok(());
        }
        if outcome.params.len() != peaks || outcome.lines.len() != peaks {
            return Err(GaussianFitError::WrongShape);
        }
        self.fit_params = Some(outcome.params);
        self.fit_lines = Some(outcome.lines);
        self.fit_sum = Some(outcome.sum);
        self.reduced_chi_square = Some(outcome.reduced_chi_square);
        self.converged = outcome.converged;
        Ok(())
    }
}

} // verus!
