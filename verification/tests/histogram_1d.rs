use histofit::axis::AxisError;
use histofit::histogram1d::{Histogram, RestoreError};
use histofit::number::Number;
use histofit::plot_settings::{PlotSettings, Progress};

fn num(x: f64) -> Number {
    Number::from_bits(x.to_bits())
}

fn uniform_edges(bins: usize, low: f64, high: f64) -> Vec<Number> {
    let mut edges = Vec::new();
    for k in 0..=bins {
        let edge = if k == bins { high } else { low + (high - low) * (k as f64) / (bins as f64) };
        edges.push(num(edge));
    }
    edges
}

fn column(values: &[f64]) -> Vec<Option<Number>> {
    values.iter().map(|v| Some(num(*v))).collect()
}

#[test]
fn ten_bins_over_zero_to_ten() {
    let mut h = Histogram::new("h", uniform_edges(10, 0.0, 10.0)).unwrap();
    let values = [0.5, 1.5, 9.9, 10.0, -1.0];
    for (i, v) in values.iter().enumerate() {
        h.fill(num(*v), i, values.len());
    }
    assert_eq!(h.bins(), &vec![1, 1, 0, 0, 0, 0, 0, 0, 0, 1]);
    assert_eq!(h.total(), 3);
}

#[test]
fn new_histogram_is_zero_filled() {
    let h = Histogram::new("spectrum", uniform_edges(4, -2.0, 2.0)).unwrap();
    assert_eq!(h.name(), "spectrum");
    assert_eq!(h.bins(), &vec![0, 0, 0, 0]);
    assert_eq!(h.total(), 0);
    assert_eq!(h.progress(), None);
    assert_eq!(h.axis().bin_count(), 4);
    let (low, high) = h.range();
    assert_eq!(low.to_bits(), (-2.0f64).to_bits());
    assert_eq!(high.to_bits(), 2.0f64.to_bits());
}

#[test]
fn no_bins_is_refused() {
    assert!(matches!(Histogram::new("h", uniform_edges(0, 0.0, 1.0)), Err(AxisError::NoBins)));
}

#[test]
fn empty_range_is_refused() {
    let r = Histogram::new("h", vec![num(1.0), num(1.0)]);
    assert!(matches!(r, Err(AxisError::NotIncreasing { at: 0 })));
    let r = Histogram::new("h", vec![num(3.0), num(1.0)]);
    assert!(matches!(r, Err(AxisError::NotIncreasing { at: 0 })));
}

#[test]
fn fill_in_range_raises_one_bin() {
    let mut h = Histogram::new("h", uniform_edges(5, 0.0, 5.0)).unwrap();
    h.fill(num(3.2), 0, 1);
    assert_eq!(h.bins(), &vec![0, 0, 0, 1, 0]);
    h.fill(num(3.9), 0, 1);
    assert_eq!(h.bins(), &vec![0, 0, 0, 2, 0]);
    h.fill(num(0.0), 0, 1);
    assert_eq!(h.bins(), &vec![1, 0, 0, 2, 0]);
}

#[test]
fn fill_out_of_range_changes_no_count() {
    let mut h = Histogram::new("h", uniform_edges(5, 0.0, 5.0)).unwrap();
    h.fill(num(2.0), 0, 4);
    for v in [5.0, 5.5, -0.001, f64::NAN, f64::INFINITY, f64::NEG_INFINITY] {
        h.fill(num(v), 1, 4);
        assert_eq!(h.bins(), &vec![0, 0, 1, 0, 0]);
    }
}

#[test]
fn fill_records_progress() {
    let mut h = Histogram::new("h", uniform_edges(5, 0.0, 5.0)).unwrap();
    h.fill(num(2.0), 3, 8);
    assert_eq!(h.progress(), Some(Progress { step: 3, total: 8 }));
    h.fill(num(99.0), 4, 8);
    assert_eq!(h.progress(), Some(Progress { step: 4, total: 8 }));
    h.finish_fill();
    assert_eq!(h.progress(), None);
    assert_eq!(h.bins(), &vec![0, 0, 1, 0, 0]);
}

#[test]
fn reset_zeroes_counts_and_keeps_geometry() {
    let mut h = Histogram::new("h", uniform_edges(5, 0.0, 5.0)).unwrap();
    h.fill(num(2.0), 0, 2);
    h.fill(num(4.0), 1, 2);
    h.reset();
    assert_eq!(h.bins(), &vec![0, 0, 0, 0, 0]);
    assert_eq!(h.progress(), None);
    assert_eq!(h.name(), "h");
    assert_eq!(h.axis().bin_count(), 5);
    assert_eq!(h.range().1.to_bits(), 5.0f64.to_bits());
}

#[test]
fn refill_after_reset_gives_the_same_counts() {
    let data = column(&[0.1, 0.2, 4.9, 2.5, 2.5, 7.0, -3.0, 1.0]);
    let mut h = Histogram::new("h", uniform_edges(5, 0.0, 5.0)).unwrap();
    h.fill_column(&data);
    let first = h.bins().clone();
    h.reset();
    h.fill_column(&data);
    assert_eq!(h.bins(), &first);
    assert_eq!(first, vec![2, 1, 2, 0, 1]);
}

#[test]
fn sum_of_counts_is_number_of_values_in_range() {
    let mut raw = Vec::new();
    for k in 0..1000 {
        raw.push(-2.0 + 0.014 * (k as f64));
    }
    let expected = raw.iter().filter(|v| 0.0 <= **v && **v < 5.0).count();
    let mut h = Histogram::new("h", uniform_edges(7, 0.0, 5.0)).unwrap();
    h.fill_column(&column(&raw));
    assert_eq!(h.total(), expected as u128);
}

#[test]
fn fill_column_passes_over_missing_rows() {
    let mut h = Histogram::new("h", uniform_edges(2, 0.0, 2.0)).unwrap();
    let data = vec![Some(num(0.5)), None, Some(num(1.5)), None, Some(num(1.6))];
    h.fill_column(&data);
    assert_eq!(h.bins(), &vec![1, 2]);
    assert_eq!(h.progress(), None);
}

#[test]
fn fill_column_of_nothing_changes_nothing() {
    let mut h = Histogram::new("h", uniform_edges(2, 0.0, 2.0)).unwrap();
    h.fill(num(0.5), 0, 1);
    h.fill_column(&Vec::new());
    assert_eq!(h.bins(), &vec![1, 0]);
    assert_eq!(h.progress(), None);
}

#[test]
fn fill_column_adds_to_what_is_there() {
    let mut h = Histogram::new("h", uniform_edges(2, 0.0, 2.0)).unwrap();
    h.fill_column(&column(&[0.5, 1.5]));
    h.fill_column(&column(&[0.5, 0.7]));
    assert_eq!(h.bins(), &vec![3, 1]);
}

#[test]
fn uneven_bins_are_half_open() {
    let mut h = Histogram::new("h", vec![num(0.0), num(1.0), num(10.0), num(100.0)]).unwrap();
    h.fill_column(&column(&[1.0, 9.999, 10.0, 99.0, 100.0, 0.0]));
    assert_eq!(h.bins(), &vec![1, 2, 2]);
}

#[test]
fn settings_can_be_replaced() {
    let mut h = Histogram::new("h", uniform_edges(2, 0.0, 2.0)).unwrap();
    h.fill(num(0.5), 0, 1);
    let mut settings = PlotSettings::default();
    settings.stats_info = true;
    settings.rebin_x_factor = 4;
    h.set_plot_settings(settings);
    assert!(h.plot_settings().stats_info);
    assert_eq!(h.plot_settings().rebin_x_factor, 4);
    assert_eq!(h.progress(), None);
    assert_eq!(h.bins(), &vec![1, 0]);
}

#[test]
fn rows_are_counted_batch_by_batch() {
    let data = vec![Some(num(0.5)), None, Some(num(1.5)), Some(num(1.6)), None, Some(num(9.0))];
    let mut whole = Histogram::new("h", uniform_edges(2, 0.0, 2.0)).unwrap();
    whole.fill_column(&data);
    let mut h = Histogram::new("h", uniform_edges(2, 0.0, 2.0)).unwrap();
    h.fill_rows(&data, 0, 2);
    assert_eq!(h.bins(), &vec![1, 0]);
    assert_eq!(h.progress(), Some(Progress { step: 0, total: 6 }));
    h.fill_rows(&data, 2, 5);
    assert_eq!(h.bins(), &vec![1, 2]);
    assert_eq!(h.progress(), Some(Progress { step: 3, total: 6 }));
    h.fill_rows(&data, 5, 6);
    assert_eq!(h.bins(), &vec![1, 2]);
    assert_eq!(h.progress(), Some(Progress { step: 5, total: 6 }));
    h.finish_fill();
    assert_eq!(h.bins(), whole.bins());
    assert_eq!(h.progress(), None);
}

#[test]
fn rows_beyond_the_column_are_not_counted() {
    let data = column(&[0.5, 1.5, 1.6]);
    let mut h = Histogram::new("h", uniform_edges(2, 0.0, 2.0)).unwrap();
    h.fill_rows(&data, 2, 100);
    assert_eq!(h.bins(), &vec![0, 1]);
    assert_eq!(h.progress(), Some(Progress { step: 2, total: 3 }));
    h.fill_rows(&data, 7, 9);
    assert_eq!(h.bins(), &vec![0, 1]);
    h.fill_rows(&data, 2, 1);
    assert_eq!(h.bins(), &vec![0, 1]);
    assert_eq!(h.progress(), Some(Progress { step: 2, total: 3 }));
    h.fill_rows(&data, 0, 0);
    assert_eq!(h.bins(), &vec![0, 1]);
}

#[test]
fn kept_histogram_is_taken_back() {
    let mut settings = PlotSettings::default();
    settings.stats_info = true;
    let h = Histogram::restore("kept", uniform_edges(3, 0.0, 3.0), vec![4, 0, 7], settings).unwrap();
    assert_eq!(h.name(), "kept");
    assert_eq!(h.bins(), &vec![4, 0, 7]);
    assert_eq!(h.total(), 11);
    assert_eq!(h.axis().bin_count(), 3);
    assert!(h.plot_settings().stats_info);
}

#[test]
fn kept_histogram_with_wrong_counts_is_refused() {
    let r = Histogram::restore("kept", uniform_edges(3, 0.0, 3.0), vec![4, 0], PlotSettings::default());
    assert_eq!(r.err(), Some(RestoreError::Counts));
    let r = Histogram::restore("kept", uniform_edges(3, 0.0, 3.0), vec![1, 2, 3, 4], PlotSettings::default());
    assert_eq!(r.err(), Some(RestoreError::Counts));
    let r = Histogram::restore("kept", vec![num(1.0)], Vec::new(), PlotSettings::default());
    assert_eq!(r.err(), Some(RestoreError::Axis(AxisError::NoBins)));
    let r = Histogram::restore("kept", vec![num(1.0), num(0.0)], vec![1], PlotSettings::default());
    assert_eq!(r.err(), Some(RestoreError::Axis(AxisError::NotIncreasing { at: 0 })));
}
