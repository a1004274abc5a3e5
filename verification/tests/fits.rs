use histofit::background_fitter::BackgroundFitter;
use histofit::egui_line::{Color, Point};
use histofit::fit_handler::{
    curves_of, FitError, FitModel, FitOutcome, FitResult, FitStage, FitStep, Fits, Fitter,
};
use histofit::gaussian::{GaussianFitError, GaussianFitter, GaussianOutcome, GaussianParams};
use histofit::linear::{check_points, LinearFitError, LinearFitter, LinearParams};
use histofit::number::Number;

fn num(x: f64) -> Number {
    Number::from_bits(x.to_bits())
}

fn nums(values: &[f64]) -> Vec<Number> {
    values.iter().map(|v| num(*v)).collect()
}

fn floats(values: &[Number]) -> Vec<f64> {
    values.iter().map(|v| f64::from_bits(v.to_bits())).collect()
}

fn line(slope: f64, intercept: f64) -> LinearParams {
    LinearParams {
        slope: num(slope),
        intercept: num(intercept),
        slope_uncertainty: num(0.0),
        intercept_uncertainty: num(0.0),
    }
}

fn least_squares(x: &[f64], y: &[f64]) -> LinearParams {
    let n = x.len().min(y.len());
    let nf = n as f64;
    let sx: f64 = x[..n].iter().sum();
    let sy: f64 = y[..n].iter().sum();
    let sxx: f64 = x[..n].iter().map(|v| v * v).sum();
    let sxy: f64 = x[..n].iter().zip(y[..n].iter()).map(|(a, b)| a * b).sum();
    let slope = (nf * sxy - sx * sy) / (nf * sxx - sx * sx);
    line(slope, (sy - slope * sx) / nf)
}

fn peak(amplitude: f64, mean: f64, sigma: f64) -> GaussianParams {
    GaussianParams { amplitude: num(amplitude), mean: num(mean), sigma: num(sigma) }
}

fn curve(points: &[(f64, f64)]) -> Vec<Point> {
    points.iter().map(|(x, y)| Point { x: num(*x), y: num(*y) }).collect()
}

fn outcome_of(peaks: usize) -> GaussianOutcome {
    let mut params = Vec::new();
    let mut lines = Vec::new();
    for k in 0..peaks {
        params.push(peak(10.0 + k as f64, k as f64, 0.5));
        lines.push(curve(&[(k as f64, 1.0), (k as f64 + 1.0, 2.0)]));
    }
    GaussianOutcome {
        params,
        lines,
        sum: curve(&[(0.0, 3.0)]),
        reduced_chi_square: num(1.25),
        converged: true,
    }
}

fn gaussian_fitter(markers: &[f64], background: Option<BackgroundFitter>) -> Fitter {
    let mut fitter = Fitter::new(FitModel::Gaussian(nums(markers)), background);
    fitter.x_data = nums(&[0.0, 1.0, 2.0, 3.0]);
    fitter.y_data = nums(&[3.0, 5.0, 7.0, 9.0]);
    fitter
}

fn linear_fitter(x: &[f64], y: &[f64]) -> Fitter {
    let mut fitter = Fitter::new(FitModel::Linear, None);
    fitter.x_data = nums(x);
    fitter.y_data = nums(y);
    fitter
}

#[test]
fn new_fitter_is_empty() {
    let fitter = Fitter::new(FitModel::Linear, None);
    assert!(fitter.x_data.is_empty());
    assert!(fitter.y_data.is_empty());
    assert!(fitter.y_err.is_none());
    assert!(fitter.background.is_none());
    assert!(fitter.result.is_none());
    assert!(fitter.deconvoluted_lines.is_empty());
    assert_eq!(fitter.convoluted_line.name, "Convoluted");
    assert_eq!(fitter.convoluted_line.color, Color { r: 0, g: 0, b: 255 });
    assert!(fitter.convoluted_line.points.is_empty());
    assert_eq!(fitter.stage, FitStage::Idle);
    assert!(matches!(fitter.model, FitModel::Linear));
}

#[test]
fn peak_markers_come_from_the_model_before_a_fit() {
    let fitter = gaussian_fitter(&[1.5, 2.5], None);
    assert_eq!(floats(&fitter.get_peak_markers()), vec![1.5, 2.5]);
    let fitter = linear_fitter(&[0.0, 1.0], &[0.0, 1.0]);
    assert!(fitter.get_peak_markers().is_empty());
}

#[test]
fn peak_markers_come_from_the_result_after_a_fit() {
    let mut fitter = gaussian_fitter(&[1.5, 2.5], None);
    let mut fit = GaussianFitter::new(nums(&[0.0]), nums(&[1.0]), nums(&[1.4, 2.6, 9.0]));
    fit.set_empty_result();
    fitter.result = Some(FitResult::Gaussian(fit));
    assert_eq!(floats(&fitter.get_peak_markers()), vec![1.4, 2.6, 9.0]);
    fitter.result = Some(FitResult::Linear(LinearFitter::new(Vec::new(), Vec::new())));
    assert_eq!(floats(&fitter.get_peak_markers()), vec![1.5, 2.5]);
}

#[test]
fn line_through_exact_points() {
    let x = [0.0, 1.0, 2.0, 3.0];
    let y = [3.0, 5.0, 7.0, 9.0];
    let mut fitter = linear_fitter(&x, &y);
    let step = fitter.fit().unwrap();
    assert!(matches!(step, FitStep::Model { background: None }));
    assert_eq!(fitter.stage, FitStage::Model);
    let params = least_squares(&x, &y);
    fitter.model_fitted(FitOutcome::Linear { y_corrected: nums(&y), params }).unwrap();
    assert_eq!(fitter.stage, FitStage::Idle);
    match &fitter.result {
        Some(FitResult::Linear(fit)) => {
            let params = fit.fit_params.unwrap();
            assert_eq!(f64::from_bits(params.slope.to_bits()), 2.0);
            assert_eq!(f64::from_bits(params.intercept.to_bits()), 3.0);
            assert_eq!(floats(&fit.x_data), x.to_vec());
            assert_eq!(floats(&fit.y_data), y.to_vec());
        },
        _ => panic!("no linear result"),
    }
    assert!(fitter.deconvoluted_lines.is_empty());
}

#[test]
fn line_needs_two_points() {
    let mut fitter = linear_fitter(&[1.0], &[2.0]);
    assert_eq!(fitter.fit().err(), Some(FitError::Degenerate(LinearFitError::TooFewPoints)));
    assert!(fitter.result.is_none());
    assert_eq!(fitter.stage, FitStage::Idle);
    let mut fitter = linear_fitter(&[], &[]);
    assert_eq!(fitter.fit().err(), Some(FitError::Degenerate(LinearFitError::TooFewPoints)));
    let mut fitter = linear_fitter(&[1.0, 2.0, 3.0], &[2.0]);
    assert_eq!(fitter.fit().err(), Some(FitError::Degenerate(LinearFitError::TooFewPoints)));
}

#[test]
fn line_needs_two_different_x() {
    let mut fitter = linear_fitter(&[0.1, 0.1, 0.1], &[1.0, 2.0, 3.0]);
    assert_eq!(fitter.fit().err(), Some(FitError::Degenerate(LinearFitError::ConstantX)));
    assert!(fitter.result.is_none());
    let mut fitter = linear_fitter(&[0.0, -0.0], &[1.0, 2.0]);
    assert_eq!(fitter.fit().err(), Some(FitError::Degenerate(LinearFitError::ConstantX)));
    let mut fitter = linear_fitter(&[0.1, 0.1, 0.1000001], &[1.0, 2.0, 3.0]);
    assert!(fitter.fit().is_ok());
}

#[test]
fn failed_fit_discards_the_earlier_result() {
    let x = [0.0, 1.0];
    let y = [1.0, 2.0];
    let mut fitter = linear_fitter(&x, &y);
    fitter.fit().unwrap();
    fitter.model_fitted(FitOutcome::Linear { y_corrected: nums(&y), params: line(1.0, 1.0) }).unwrap();
    assert!(fitter.result.is_some());
    fitter.x_data = nums(&[5.0, 5.0]);
    assert!(fitter.fit().is_err());
    assert!(fitter.result.is_none());
}

#[test]
fn check_points_tells_the_cases_apart() {
    assert_eq!(check_points(&nums(&[1.0, 2.0]), &nums(&[1.0, 2.0])), Ok(()));
    assert_eq!(check_points(&nums(&[1.0, 2.0]), &nums(&[1.0])), Err(LinearFitError::TooFewPoints));
    assert_eq!(check_points(&nums(&[2.0, 2.0]), &nums(&[1.0, 5.0])), Err(LinearFitError::ConstantX));
    assert_eq!(check_points(&nums(&[2.0, 2.0, 3.0]), &nums(&[1.0, 5.0])), Err(LinearFitError::ConstantX));
    assert_eq!(check_points(&nums(&[f64::NAN, f64::NAN]), &nums(&[1.0, 5.0])), Ok(()));
    assert_eq!(check_points(&nums(&[2.0, f64::NAN]), &nums(&[1.0, 5.0])), Ok(()));
}

#[test]
fn linear_fitter_keeps_the_line_only_for_proper_points() {
    let mut fit = LinearFitter::new(nums(&[0.0, 1.0]), nums(&[3.0, 5.0]));
    assert!(fit.fit_params.is_none());
    assert_eq!(fit.perform_linear_fit(line(2.0, 3.0)), Ok(()));
    assert_eq!(f64::from_bits(fit.fit_params.unwrap().slope.to_bits()), 2.0);
    let mut fit = LinearFitter::new(nums(&[1.0, 1.0]), nums(&[3.0, 5.0]));
    fit.fit_params = Some(line(9.0, 9.0));
    assert_eq!(fit.perform_linear_fit(line(2.0, 3.0)), Err(LinearFitError::ConstantX));
    assert!(fit.fit_params.is_none());
}

#[test]
fn out_of_turn_steps_are_refused() {
    let mut fitter = linear_fitter(&[0.0, 1.0], &[1.0, 2.0]);
    let r = fitter.model_fitted(FitOutcome::Linear { y_corrected: nums(&[1.0, 2.0]), params: line(1.0, 1.0) });
    assert_eq!(r, Err(FitError::OutOfTurn));
    assert!(fitter.result.is_none());
    assert_eq!(fitter.background_fitted(Some(line(0.0, 0.0))).err(), Some(FitError::OutOfTurn));
    fitter.fit().unwrap();
    assert_eq!(fitter.background_fitted(Some(line(0.0, 0.0))).err(), Some(FitError::OutOfTurn));
    assert_eq!(fitter.stage, FitStage::Model);
}

#[test]
fn outcome_of_the_other_model_is_refused() {
    let mut fitter = linear_fitter(&[0.0, 1.0], &[1.0, 2.0]);
    fitter.fit().unwrap();
    let r = fitter.model_fitted(FitOutcome::Gaussian { y_corrected: nums(&[1.0, 2.0]), outcome: outcome_of(0) });
    assert_eq!(r, Err(FitError::WrongModel));
    assert!(fitter.result.is_none());
    assert_eq!(fitter.stage, FitStage::Model);
    let mut fitter = gaussian_fitter(&[1.0], None);
    fitter.fit().unwrap();
    let r = fitter.model_fitted(FitOutcome::Linear { y_corrected: nums(&[1.0, 2.0]), params: line(1.0, 1.0) });
    assert_eq!(r, Err(FitError::WrongModel));
    assert!(fitter.result.is_none());
}

#[test]
fn gaussian_fit_without_peaks_is_done_at_once() {
    let mut fitter = gaussian_fitter(&[], None);
    let step = fitter.fit().unwrap();
    assert!(matches!(step, FitStep::Done));
    assert_eq!(fitter.stage, FitStage::Idle);
    match &fitter.result {
        Some(FitResult::Gaussian(fit)) => {
            assert!(fit.peak_markers.is_empty());
            assert_eq!(fit.fit_params.as_ref().unwrap().len(), 0);
            assert_eq!(fit.fit_lines.as_ref().unwrap().len(), 0);
            assert_eq!(floats(&fit.x), vec![0.0, 1.0, 2.0, 3.0]);
            assert_eq!(floats(&fit.y), vec![3.0, 5.0, 7.0, 9.0]);
        },
        _ => panic!("no gaussian result"),
    }
    assert!(fitter.deconvoluted_lines.is_empty());
    assert!(fitter.get_peak_markers().is_empty());
}

#[test]
fn gaussian_fit_makes_one_curve_per_peak() {
    let mut fitter = gaussian_fitter(&[0.5, 1.5, 2.5], None);
    let step = fitter.fit().unwrap();
    assert!(matches!(step, FitStep::Model { background: None }));
    fitter
        .model_fitted(FitOutcome::Gaussian { y_corrected: nums(&[3.0, 5.0, 7.0, 9.0]), outcome: outcome_of(3) })
        .unwrap();
    assert_eq!(fitter.deconvoluted_lines.len(), 3);
    for (i, line) in fitter.deconvoluted_lines.iter().enumerate() {
        assert_eq!(line.name, format!("Peak {}", i));
        assert_eq!(line.color, Color { r: 255, g: 0, b: 255 });
        assert_eq!(line.points.len(), 2);
        assert_eq!(f64::from_bits(line.points[0].x.to_bits()), i as f64);
        assert_eq!(f64::from_bits(line.points[1].y.to_bits()), 2.0);
    }
    match &fitter.result {
        Some(FitResult::Gaussian(fit)) => {
            assert_eq!(floats(&fit.peak_markers), vec![0.5, 1.5, 2.5]);
            let params = fit.fit_params.as_ref().unwrap();
            assert_eq!(params.len(), 3);
            assert_eq!(f64::from_bits(params[2].amplitude.to_bits()), 12.0);
            assert_eq!(fit.fit_lines.as_ref().unwrap().len(), 3);
            assert_eq!(fit.fit_sum.as_ref().unwrap().len(), 1);
            assert_eq!(f64::from_bits(fit.reduced_chi_square.unwrap().to_bits()), 1.25);
            assert!(fit.converged);
        },
        _ => panic!("no gaussian result"),
    }
    assert_eq!(floats(&fitter.get_peak_markers()), vec![0.5, 1.5, 2.5]);
    assert_eq!(fitter.stage, FitStage::Idle);
}

#[test]
fn unconverged_outcome_is_kept() {
    let mut fitter = gaussian_fitter(&[0.5], None);
    fitter.fit().unwrap();
    let mut outcome = outcome_of(1);
    outcome.converged = false;
    fitter.model_fitted(FitOutcome::Gaussian { y_corrected: nums(&[3.0]), outcome }).unwrap();
    match &fitter.result {
        Some(FitResult::Gaussian(fit)) => assert!(!fit.converged),
        _ => panic!("no gaussian result"),
    }
}

#[test]
fn outcome_of_wrong_shape_is_refused() {
    let mut fitter = gaussian_fitter(&[0.5, 1.5], None);
    fitter.fit().unwrap();
    let r = fitter.model_fitted(FitOutcome::Gaussian { y_corrected: nums(&[3.0]), outcome: outcome_of(3) });
    assert_eq!(r, Err(FitError::WrongShape));
    assert!(fitter.result.is_none());
    assert!(fitter.deconvoluted_lines.is_empty());
    assert_eq!(fitter.stage, FitStage::Model);
    let mut outcome = outcome_of(2);
    outcome.lines.pop();
    let r = fitter.model_fitted(FitOutcome::Gaussian { y_corrected: nums(&[3.0]), outcome });
    assert_eq!(r, Err(FitError::WrongShape));
    fitter.model_fitted(FitOutcome::Gaussian { y_corrected: nums(&[3.0]), outcome: outcome_of(2) }).unwrap();
    assert_eq!(fitter.deconvoluted_lines.len(), 2);
}

#[test]
fn refit_replaces_result_and_curves() {
    let mut fitter = gaussian_fitter(&[0.5, 1.5, 2.5], None);
    fitter.fit().unwrap();
    fitter.model_fitted(FitOutcome::Gaussian { y_corrected: nums(&[3.0]), outcome: outcome_of(3) }).unwrap();
    assert_eq!(fitter.deconvoluted_lines.len(), 3);
    fitter.model = FitModel::Gaussian(nums(&[0.5]));
    fitter.fit().unwrap();
    assert!(fitter.result.is_none());
    assert!(fitter.deconvoluted_lines.is_empty());
    fitter.model_fitted(FitOutcome::Gaussian { y_corrected: nums(&[3.0]), outcome: outcome_of(1) }).unwrap();
    assert_eq!(fitter.deconvoluted_lines.len(), 1);
    assert_eq!(fitter.deconvoluted_lines[0].name, "Peak 0");
}

#[test]
fn background_without_line_is_fitted_first() {
    let background = BackgroundFitter::new(nums(&[0.0, 10.0]), nums(&[1.0, 2.0]));
    let mut fitter = gaussian_fitter(&[1.0], Some(background));
    let step = fitter.fit().unwrap();
    assert!(matches!(step, FitStep::Background));
    assert_eq!(fitter.stage, FitStage::Background);
    let step = fitter.background_fitted(Some(line(0.1, 1.0))).unwrap();
    match step {
        FitStep::Model { background: Some(params) } => {
            assert_eq!(f64::from_bits(params.slope.to_bits()), 0.1);
            assert_eq!(f64::from_bits(params.intercept.to_bits()), 1.0);
        },
        _ => panic!("no model step with a background"),
    }
    assert_eq!(fitter.stage, FitStage::Model);
    assert!(fitter.background.as_ref().unwrap().result.is_some());
    let step = fitter.fit().unwrap();
    assert!(matches!(step, FitStep::Model { background: Some(_) }));
}

#[test]
fn background_that_cannot_be_fitted_gives_raw_data() {
    let background = BackgroundFitter::new(nums(&[0.0, 10.0]), nums(&[1.0, 2.0]));
    let mut fitter = gaussian_fitter(&[1.0], Some(background));
    fitter.fit().unwrap();
    let step = fitter.background_fitted(None).unwrap();
    assert!(matches!(step, FitStep::Model { background: None }));
    assert!(fitter.background.as_ref().unwrap().result.is_none());
    let background = BackgroundFitter::new(nums(&[4.0, 4.0]), nums(&[1.0, 2.0]));
    let mut fitter = gaussian_fitter(&[1.0], Some(background));
    fitter.fit().unwrap();
    let step = fitter.background_fitted(Some(line(0.1, 1.0))).unwrap();
    assert!(matches!(step, FitStep::Model { background: None }));
    assert!(fitter.background.as_ref().unwrap().result.is_none());
}

#[test]
fn background_fit_is_done_once() {
    let mut background = BackgroundFitter::new(nums(&[0.0, 10.0]), nums(&[1.0, 2.0]));
    assert!(background.get_background().is_none());
    assert_eq!(background.fit(line(0.1, 1.0)), Ok(()));
    assert_eq!(f64::from_bits(background.get_background().unwrap().slope.to_bits()), 0.1);
    assert_eq!(background.fit(line(7.0, 7.0)), Ok(()));
    assert_eq!(f64::from_bits(background.get_background().unwrap().slope.to_bits()), 0.1);
    let mut background = BackgroundFitter::new(nums(&[0.0]), nums(&[1.0]));
    assert_eq!(background.fit(line(0.1, 1.0)), Err(LinearFitError::TooFewPoints));
    assert!(background.get_background().is_none());
}

#[test]
fn gaussian_fitter_checks_the_shape() {
    let mut fit = GaussianFitter::new(nums(&[0.0]), nums(&[1.0]), nums(&[0.5, 1.5]));
    assert!(fit.fit_params.is_none());
    assert_eq!(fit.multi_gauss_fit(outcome_of(1)), Err(GaussianFitError::WrongShape));
    assert!(fit.fit_params.is_none());
    assert!(fit.fit_lines.is_none());
    assert_eq!(fit.multi_gauss_fit(outcome_of(2)), Ok(()));
    assert_eq!(fit.fit_params.as_ref().unwrap().len(), 2);
    assert_eq!(fit.fit_lines.as_ref().unwrap().len(), 2);
    let mut fit = GaussianFitter::new(nums(&[0.0]), nums(&[1.0]), Vec::new());
    assert_eq!(fit.multi_gauss_fit(outcome_of(4)), Ok(()));
    assert_eq!(fit.fit_params.as_ref().unwrap().len(), 0);
    assert_eq!(fit.fit_lines.as_ref().unwrap().len(), 0);
    assert!(fit.reduced_chi_square.is_none());
}

#[test]
fn curves_are_named_by_their_number() {
    let mut lines = Vec::new();
    for k in 0..12 {
        lines.push(curve(&[(k as f64, 0.0)]));
    }
    let curves = curves_of(&lines);
    assert_eq!(curves.len(), 12);
    assert_eq!(curves[0].name, "Peak 0");
    assert_eq!(curves[9].name, "Peak 9");
    assert_eq!(curves[10].name, "Peak 10");
    assert_eq!(curves[11].name, "Peak 11");
    assert_eq!(f64::from_bits(curves[11].points[0].x.to_bits()), 11.0);
}

#[test]
fn loading_appends_kept_fits_and_replaces_those_in_the_making() {
    let mut here = Fits::new();
    here.stored_fits.push(gaussian_fitter(&[1.0], None));
    here.stored_fits.push(gaussian_fitter(&[2.0], None));
    here.temp_fit = Some(gaussian_fitter(&[3.0], None));
    here.temp_background_fit = Some(BackgroundFitter::new(nums(&[1.0]), nums(&[1.0])));
    let mut loaded = Fits::new();
    loaded.stored_fits.push(gaussian_fitter(&[4.0], None));
    loaded.stored_fits.push(gaussian_fitter(&[5.0], None));
    loaded.stored_fits.push(gaussian_fitter(&[6.0], None));
    loaded.temp_fit = Some(gaussian_fitter(&[7.0], None));
    here.load(loaded);
    assert_eq!(here.stored_fits.len(), 5);
    let firsts: Vec<f64> = here.stored_fits.iter().map(|f| floats(&f.get_peak_markers())[0]).collect();
    assert_eq!(firsts, vec![1.0, 2.0, 4.0, 5.0, 6.0]);
    assert_eq!(floats(&here.temp_fit.as_ref().unwrap().get_peak_markers()), vec![7.0]);
    assert!(here.temp_background_fit.is_none());
}

#[test]
fn loading_nothing_clears_what_is_in_the_making() {
    let mut here = Fits::default();
    here.stored_fits.push(gaussian_fitter(&[1.0], None));
    here.temp_fit = Some(gaussian_fitter(&[3.0], None));
    here.load(Fits::new());
    assert_eq!(here.stored_fits.len(), 1);
    assert!(here.temp_fit.is_none());
}

#[test]
fn fits_are_kept_and_removed_by_index() {
    let mut fits = Fits::new();
    assert!(!fits.has_fits());
    assert!(!fits.store_temp_fit());
    fits.temp_fit = Some(gaussian_fitter(&[1.0], None));
    assert!(fits.has_fits());
    assert!(fits.store_temp_fit());
    assert!(fits.temp_fit.is_none());
    fits.temp_fit = Some(gaussian_fitter(&[2.0], None));
    fits.store_temp_fit();
    fits.temp_fit = Some(gaussian_fitter(&[3.0], None));
    fits.store_temp_fit();
    assert!(fits.has_fits());
    assert_eq!(fits.stored_fits.len(), 3);
    assert!(fits.remove_stored_fit(3).is_none());
    let removed = fits.remove_stored_fit(1).unwrap();
    assert_eq!(floats(&removed.get_peak_markers()), vec![2.0]);
    let firsts: Vec<f64> = fits.stored_fits.iter().map(|f| floats(&f.get_peak_markers())[0]).collect();
    assert_eq!(firsts, vec![1.0, 3.0]);
    fits.temp_fit = Some(gaussian_fitter(&[9.0], None));
    fits.temp_background_fit = Some(BackgroundFitter::new(Vec::new(), Vec::new()));
    fits.remove_temp_fits();
    assert!(fits.temp_fit.is_none());
    assert!(fits.temp_background_fit.is_none());
    assert_eq!(fits.stored_fits.len(), 2);
}
