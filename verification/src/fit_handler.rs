//! Fits of a spectrum: one fit in its steps, and the collection of fits.
//!
//! A fit has numerical parts (the line through the background, the
//! subtraction of the background, the minimisation for the model), which the
//! caller carries out, and decisions between them, which are taken here. The
//! caller starts with `Fitter::fit`, does what the returned step names, and
//! hands the outcome back; that returns the next step.

use vstd::prelude::*;
use crate::background_fitter::BackgroundFitter;
use crate::egui_line::{copy_numbers, copy_points, Color, EguiLine, Point};
use crate::gaussian::{is_empty_result, well_shaped, GaussianFitter, GaussianOutcome};
use crate::linear::{check_points, degenerate, LinearFitError, LinearFitter, LinearParams};
use crate::naming::{peak_label, peak_name};
use crate::number::Number;

verus! {

/// What is fitted to the data.
pub enum FitModel {
    /// A sum of Gaussian peaks, one near each of the given centres.
    Gaussian(Vec<Number>),
    /// A straight line.
    Linear,
}

/// A fit that was carried out.
pub enum FitResult {
    Gaussian(GaussianFitter),
    Linear(LinearFitter),
}

/// Where a fit stands between its steps.
#[derive(Clone, Copy, Debug, PartialEq, Eq, Structural)]
pub enum FitStage {
    /// No fit is under way.
    Idle,
    /// The line through the background is awaited.
    Background,
    /// The outcome for the model is awaited.
    Model,
}

/// What the caller is to compute next.
#[derive(Clone, Copy, Debug)]
pub enum FitStep {
    /// A line through the samples of the background. Hand it to
    /// `background_fitted`.
    Background,
    /// The model, fitted to the x data and to the y data less the given
    /// background line at each x, or to the y data as they are where no line
    /// is given. Hand the outcome to `model_fitted`.
    Model { background: Option<LinearParams> },
    /// Nothing: the fit is done.
    Done,
}

/// Why a step of a fit is refused.
#[derive(Clone, Copy, Debug, PartialEq, Eq, Structural)]
pub enum FitError {
    /// The fit does not await what was handed in.
    OutOfTurn,
    /// The data admit no straight line.
    Degenerate(LinearFitError),
    /// The outcome is of another model than the fit.
    WrongModel,
    /// The outcome has not one set of parameters and one curve per peak.
    WrongShape,
}

/// What the minimisation for a model handed back, with the y data that it
/// was run on.
pub enum FitOutcome {
    Gaussian { y_corrected: Vec<Number>, outcome: GaussianOutcome },
    Linear { y_corrected: Vec<Number>, params: LinearParams },
}

/// One fit of a spectrum.
pub struct Fitter {
    pub x_data: Vec<Number>,
    pub y_data: Vec<Number>,
    pub y_err: Option<Vec<Number>>,
    pub background: Option<BackgroundFitter>,
    pub model: FitModel,
    pub result: Option<FitResult>,
    /// The curve of each peak of the result.
    pub deconvoluted_lines: Vec<EguiLine>,
    /// The curve of the sum of the peaks.
    pub convoluted_line: EguiLine,
    pub stage: FitStage,
}

/// Whether the background of the fit is to be fitted first: there is one,
/// and it has no line yet.
pub open spec fn background_awaits_fit(fitter: Fitter) -> bool {
    fitter.background matches Some(background) && background.result is None
}

/// The line of the background of the fit, if it has a background and that
/// has a line.
pub open spec fn background_line(fitter: Fitter) -> Option<LinearParams> {
    match fitter.background {
        Some(background) => background.result,
        None => None,
    }
}

/// What stays the same through every step of a fit: the data, the model, and
/// the curve of the sum.
pub open spec fn same_inputs(before: Fitter, after: Fitter) -> bool {
    &&& after.x_data == before.x_data
    &&& after.y_data == before.y_data
    &&& after.y_err == before.y_err
    &&& after.model == before.model
    &&& after.convoluted_line == before.convoluted_line
}

/// How a fit stands when it turns to its model, and what step that gives.
/// A Gaussian model without peak markers is done at once, with the result
/// for no peaks. A linear model on data that admit no line is refused. Any
/// other fit awaits the outcome for its model, on the y data less the line
/// of its background if it has one.
pub open spec fn model_entered(after: Fitter, r: Result<FitStep, FitError>) -> bool {
    &&& after.deconvoluted_lines@.len() == 0
    &&& match after.model {
        FitModel::Gaussian(peak_markers) => if peak_markers@.len() == 0 {
            &&& r matches Ok(FitStep::Done)
            &&& after.stage == FitStage::Idle
            &&& after.result matches Some(FitResult::Gaussian(fit))
            &&& fit.x@ == after.x_data@
            &&& fit.y@ == after.y_data@
            &&& fit.peak_markers@.len() == 0
            &&& is_empty_result(fit)
        } else {
            &&& r matches Ok(FitStep::Model { background })
            &&& background == background_line(after)
            &&& after.stage == FitStage::Model
            &&& after.result is None
        },
        FitModel::Linear => match degenerate(after.x_data@, after.y_data@) {
            Some(e) => {
                &&& r == Err::<FitStep, FitError>(FitError::Degenerate(e))
                &&& after.stage == FitStage::Idle
                &&& after.result is None
            },
            None => {
                &&& r matches Ok(FitStep::Model { background })
                &&& background == background_line(after)
                &&& after.stage == FitStage::Model
                &&& after.result is None
            },
        },
    }
}

/// What `Fitter::fit` leaves, and what it returns. The result of an earlier
/// fit and its curves are gone. A background without a line is to be fitted
/// first; else the fit turns to its model.
pub open spec fn fit_started(before: Fitter, after: Fitter, r: Result<FitStep, FitError>) -> bool {
    &&& same_inputs(before, after)
    &&& after.background == before.background
    &&& if background_awaits_fit(before) {
        &&& r matches Ok(FitStep::Background)
        &&& after.stage == FitStage::Background
        &&& after.result is None
        &&& after.deconvoluted_lines@.len() == 0
    } else {
        model_entered(after, r)
    }
}

/// What `Fitter::background_fitted` leaves, and what it returns. Out of
/// turn, nothing changes. In turn, the background takes the line if one was
/// computed and its samples admit one, and the fit turns to its model.
pub open spec fn background_done(
    before: Fitter,
    after: Fitter,
    computed: Option<LinearParams>,
    r: Result<FitStep, FitError>,
) -> bool {
    if before.stage != FitStage::Background || before.background is None {
        r == Err::<FitStep, FitError>(FitError::OutOfTurn) && after == before
    } else {
        let background = before.background->0;
        &&& same_inputs(before, after)
        &&& after.background matches Some(fitted)
        &&& fitted.x_data == background.x_data
        &&& fitted.y_data == background.y_data
        &&& fitted.result == if background.result is Some {
            background.result
        } else if computed is Some && degenerate(background.x_data@, background.y_data@) is None {
            computed
        } else {
            None
        }
        &&& model_entered(after, r)
    }
}

/// Whether the curves are those of the peaks of an outcome: one per peak,
/// named "Peak 0", "Peak 1" and so on, in the colour of peak curves, with the
/// points of the outcome.
pub open spec fn peak_curves(curves: Seq<EguiLine>, lines: Seq<Vec<Point>>) -> bool {
    &&& curves.len() == lines.len()
    &&& forall|i: int|
        0 <= i < lines.len() ==> {
            &&& (#[trigger] curves[i]).name@ == peak_name(i as nat)
            &&& curves[i].color == Color::spec_magenta()
            &&& curves[i].points@ == lines[i]@
        }
}

/// The error with which an outcome is refused by a fit that awaits one, if
/// it is refused.
pub open spec fn outcome_refused(fitter: Fitter, outcome: FitOutcome) -> Option<FitError> {
    match (fitter.model, outcome) {
        (FitModel::Gaussian(peak_markers), FitOutcome::Gaussian { outcome, .. }) => if well_shaped(
            peak_markers@,
            outcome,
        ) {
            None
        } else {
            Some(FitError::WrongShape)
        },
        (FitModel::Linear, FitOutcome::Linear { y_corrected, .. }) => match degenerate(
            fitter.x_data@,
            y_corrected@,
        ) {
            Some(e) => Some(FitError::Degenerate(e)),
            None => None,
        },
        _ => Some(FitError::WrongModel),
    }
}

/// What `Fitter::model_fitted` leaves, and what it returns. Out of turn, or
/// with an outcome that is refused, nothing changes. Else the outcome
/// becomes the result of the fit, a Gaussian one with the curves of its
/// peaks, and the fit is done.
pub open spec fn model_done(
    before: Fitter,
    after: Fitter,
    outcome: FitOutcome,
    r: Result<(), FitError>,
) -> bool {
    if before.stage != FitStage::Model {
        r == Err::<(), FitError>(FitError::OutOfTurn) && after == before
    } else if outcome_refused(before, outcome) is Some {
        r == Err::<(), FitError>(outcome_refused(before, outcome)->0) && after == before
    } else {
        &&& r is Ok
        &&& same_inputs(before, after)
        &&& after.background == before.background
        &&& after.stage == FitStage::Idle
        &&& match outcome {
            FitOutcome::Gaussian { y_corrected, outcome } => {
                &&& after.result matches Some(FitResult::Gaussian(fit))
                &&& fit.x@ == before.x_data@
                &&& fit.y == y_corrected
                &&& before.model matches FitModel::Gaussian(peak_markers)
                &&& fit.peak_markers@ == peak_markers@
                &&& fit.fit_params == Some(outcome.params)
                &&& fit.fit_lines == Some(outcome.lines)
                &&& fit.fit_sum == Some(outcome.sum)
                &&& fit.reduced_chi_square == Some(outcome.reduced_chi_square)
                &&& fit.converged == outcome.converged
                &&& peak_curves(after.deconvoluted_lines@, outcome.lines@)
            },
            FitOutcome::Linear { y_corrected, params } => {
                &&& after.result matches Some(FitResult::Linear(fit))
                &&& fit.x_data@ == before.x_data@
                &&& fit.y_data == y_corrected
                &&& fit.fit_params == Some(params)
                &&& after.deconvoluted_lines@.len() == 0
            },
        }
    }
}

/// The peak markers that a fit shows: those of its Gaussian result if it
/// has one, else those of its Gaussian model, else none.
pub open spec fn peak_markers_of(fitter: Fitter) -> Seq<Number> {
    match fitter.result {
        Some(FitResult::Gaussian(fit)) => fit.peak_markers@,
        _ => match fitter.model {
            FitModel::Gaussian(peak_markers) => peak_markers@,
            FitModel::Linear => Seq::empty(),
        },
    }
}

impl Fitter {
    /// A fitter of the given model without data, result or curves.
    pub fn new(model: FitModel, background: Option<BackgroundFitter>) -> (fitter: Fitter)
        ensures
            fitter.x_data@.len() == 0,
            fitter.y_data@.len() == 0,
            fitter.y_err is None,
            fitter.background == background,
            fitter.model == model,
            fitter.result is None,
            fitter.deconvoluted_lines@.len() == 0,
            fitter.convoluted_line.name@ == "Convoluted"@,
            fitter.convoluted_line.color == Color::spec_blue(),
            fitter.convoluted_line.points@.len() == 0,
            fitter.stage == FitStage::Idle,
    {
        Fitter {
            x_data: Vec::new(),
            y_data: Vec::new(),
            y_err: None,
            background,
            model,
            result: None,
            deconvoluted_lines: Vec::new(),
            convoluted_line: EguiLine::new("Convoluted".to_owned(), Color::blue()),
            stage: FitStage::Idle,
        }
    }

    /// The peak markers to show: those that the Gaussian result was fitted
    /// from, or, before any fit, those of the Gaussian model.
    pub fn get_peak_markers(&self) -> (markers: Vec<Number>)
        ensures
            markers@ == peak_markers_of(*self),
    {
        match &self.result {
            Some(FitResult::Gaussian(fit)) => copy_numbers(&fit.peak_markers),
            _ => match &self.model {
                FitModel::Gaussian(peak_markers) => copy_numbers(peak_markers),
                FitModel::Linear => Vec::new(),
            },
        }
    }

    /// Starts a fit and says what is to be computed first.
    pub fn fit(&mut self) -> (r: Result<FitStep, FitError>)
        ensures
            fit_started(*old(self), *final(self), r),
    {
        self.result = None;
        self.deconvoluted_lines = Vec::new();
        let awaits = match &self.background {
            Some(background) => background.result.is_none(),
            None => false,
        };
        if awaits {
            self.stage = FitStage::Background;
            return Ok(FitStep::Background);
        }
        self.enter_model()
    }

    /// Turns to the model of the fit.
    fn enter_model(&mut self) -> (r: Result<FitStep, FitError>)
        requires
            old(self).result is None,
            old(self).deconvoluted_lines@.len() == 0,
        ensures
            same_inputs(*old(self), *final(self)),
            final(self).background == old(self).background,
            model_entered(*final(self), r),
    {
        let background = match &self.background {
            Some(background) => background.get_background(),
            None => None,
        };
        let no_peaks = match &self.model {
            FitModel::Gaussian(peak_markers) => peak_markers.len() == 0,
            FitModel::Linear => false,
        };
        let is_linear = match &self.model {
            FitModel::Gaussian(_) => false,
            FitModel::Linear => true,
        };
        if no_peaks {
            let mut fit = GaussianFitter::new(
                copy_numbers(&self.x_data),
                copy_numbers(&self.y_data),
                Vec::new(),
            );
            fit.set_empty_result();
            self.result = Some(FitResult::Gaussian(fit));
            self.stage = FitStage::Idle;
            return Ok(FitStep::Done);
        }
        if is_linear {
            match check_points(&self.x_data, &self.y_data) {
                Ok(_) => {},
                Err(e) => {
                    self.stage = FitStage::Idle;
                    return Err(FitError::Degenerate(e));
                },
            }
        }
        self.stage = FitStage::Model;
        Ok(FitStep::Model { background })
    }

    /// Takes the line that was computed for the background, or `None` where
    /// none could be computed, and says what is to be computed next.
    pub fn background_fitted(&mut self, computed: Option<LinearParams>) -> (r: Result<
        FitStep,
        FitError,
    >)
        ensures
            background_done(*old(self), *final(self), computed, r),
    {
        let in_turn = match self.stage {
            FitStage::Background => self.background.is_some(),
            _ => false,
        };
        if !in_turn {
            return Err(FitError::OutOfTurn);
        }
        match computed {
            Some(line) => {
                match &mut self.background {
                    Some(background) => {
                        let _ = background.fit(line);
                    },
                    None => {},
                }
            },
            None => {},
        }
        self.result = None;
        self.deconvoluted_lines = Vec::new();
        self.enter_model()
    }

    /// Takes the outcome for the model and makes it the result of the fit.
    pub fn model_fitted(&mut self, outcome: FitOutcome) -> (r: Result<(), FitError>)
        ensures
            model_done(*old(self), *final(self), outcome, r),
    {
        match self.stage {
            FitStage::Model => {},
            _ => {
                return Err(FitError::OutOfTurn);
            },
        }
        match outcome {
            FitOutcome::Gaussian { y_corrected, outcome: handed } => {
                let peak_markers = match &self.model {
                    FitModel::Gaussian(peak_markers) => copy_numbers(peak_markers),
                    FitModel::Linear => {
                        return Err(FitError::WrongModel);
                    },
                };
                if handed.params.len() != peak_markers.len() || handed.lines.len()
                    != peak_markers.len() {
                    return Err(FitError::WrongShape);
                }
                let curves = curves_of(&handed.lines);
                let mut fit = GaussianFitter::new(
                    copy_numbers(&self.x_data),
                    y_corrected,
                    peak_markers,
                );
                fit.fit_params = Some(handed.params);
                fit.fit_lines = Some(handed.lines);
                fit.fit_sum = Some(handed.sum);
                fit.reduced_chi_square = Some(handed.reduced_chi_square);
                fit.converged = handed.converged;
                self.deconvoluted_lines = curves;
                self.result = Some(FitResult::Gaussian(fit));
                self.stage = FitStage::Idle;
                Ok(())
            },
            FitOutcome::Linear { y_corrected, params } => {
                match &self.model {
                    FitModel::Linear => {},
                    FitModel::Gaussian(_) => {
                        return Err(FitError::WrongModel);
                    },
                }
                let mut fit = LinearFitter::new(copy_numbers(&self.x_data), y_corrected);
                match fit.perform_linear_fit(params) {
                    Ok(_) => {},
                    Err(e) => {
                        return Err(FitError::Degenerate(e));
                    },
                }
                self.deconvoluted_lines = Vec::new();
                self.result = Some(FitResult::Linear(fit));
                self.stage = FitStage::Idle;
                Ok(())
            },
        }
    }
}

/// The curves of the peaks of an outcome.
pub fn curves_of(lines: &Vec<Vec<Point>>) -> (curves: Vec<EguiLine>)
    ensures
        peak_curves(curves@, lines@),
{
    let mut curves: Vec<EguiLine> = Vec::new();
    let mut i: usize = 0;
    while i < lines.len()
        invariant
            i <= lines@.len(),
            peak_curves(curves@, lines@.take(i as int)),
        decreases lines@.len() - i,
    {
        let mut curve = EguiLine::new(peak_label(i), Color::magenta());
        curve.points = copy_points(&lines[i]);
        curves.push(curve);
        i = i + 1;
    }
    assert(lines@.take(i as int) == lines@);
    curves
}

/// The fits of one spectrum: the one being made, the background being
/// made, and those that were kept.
pub struct Fits {
    pub temp_fit: Option<Fitter>,
    pub temp_background_fit: Option<BackgroundFitter>,
    pub stored_fits: Vec<Fitter>,
}

impl Default for Fits {
    fn default() -> (fits: Fits)
        ensures
            fits.temp_fit is None,
            fits.temp_background_fit is None,
            fits.stored_fits@.len() == 0,
    {
        Fits::new()
    }
}

impl Fits {
    /// A collection without fits.
    pub fn new() -> (fits: Fits)
        ensures
            fits.temp_fit is None,
            fits.temp_background_fit is None,
            fits.stored_fits@.len() == 0,
    {
        Fits { temp_fit: None, temp_background_fit: None, stored_fits: Vec::new() }
    }

    /// Takes in a collection that was loaded: its kept fits come after those
    /// that are here, in their order, and its fit and background in the
    /// making take the place of those that are here, also where it has none.
    pub fn load(&mut self, loaded: Fits)
        ensures
            final(self).stored_fits@ == old(self).stored_fits@ + loaded.stored_fits@,
            final(self).stored_fits@.len() == old(self).stored_fits@.len()
                + loaded.stored_fits@.len(),
            final(self).temp_fit == loaded.temp_fit,
            final(self).temp_background_fit == loaded.temp_background_fit,
    {
        let Fits { temp_fit, temp_background_fit, stored_fits } = loaded;
        let mut stored_fits = stored_fits;
        self.stored_fits.append(&mut stored_fits);
        self.temp_fit = temp_fit;
        self.temp_background_fit = temp_background_fit;
    }

    /// Drops the fit and the background in the making. The kept fits stay.
    pub fn remove_temp_fits(&mut self)
        ensures
            final(self).temp_fit is None,
            final(self).temp_background_fit is None,
            final(self).stored_fits == old(self).stored_fits,
    {
        self.temp_fit = None;
        self.temp_background_fit = None;
    }

    /// Keeps the fit in the making: it becomes the last of the kept fits,
    /// and none is in the making. Returns whether there was one.
    pub fn store_temp_fit(&mut self) -> (stored: bool)
        ensures
            stored == old(self).temp_fit is Some,
            final(self).temp_fit is None,
            final(self).temp_background_fit == old(self).temp_background_fit,
            final(self).stored_fits@ == match old(self).temp_fit {
                Some(fit) => old(self).stored_fits@.push(fit),
                None => old(self).stored_fits@,
            },
    {
        match self.temp_fit.take() {
            Some(fit) => {
                self.stored_fits.push(fit);
                true
            },
            None => false,
        }
    }

    /// Takes the kept fit at `index` out, and returns it. The others keep
    /// their order. With no fit at `index`, nothing changes.
    pub fn remove_stored_fit(&mut self, index: usize) -> (removed: Option<Fitter>)
        ensures
            final(self).temp_fit == old(self).temp_fit,
            final(self).temp_background_fit == old(self).temp_background_fit,
            index < old(self).stored_fits@.len() ==> {
                &&& removed == Some(old(self).stored_fits@[index as int])
                &&& final(self).stored_fits@ == old(self).stored_fits@.remove(index as int)
            },
            index >= old(self).stored_fits@.len() ==> {
                &&& removed is None
                &&& final(self).stored_fits == old(self).stored_fits
            },
    {
        if index < self.stored_fits.len() {
            Some(self.stored_fits.remove(index))
        } else {
            None
        }
    }

    /// Whether there is a fit to list: one in the making, or a kept one.
    pub fn has_fits(&self) -> (r: bool)
        ensures
            r == (self.temp_fit is Some || self.stored_fits@.len() > 0),
    {
        self.temp_fit.is_some() || !self.stored_fits.is_empty()
    }
}

} // verus!
