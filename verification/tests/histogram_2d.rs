use histofit::axis::AxisError;
use histofit::histogram2d::{GridError, Histogram2D, RestoreGridError};
use histofit::number::Number;
use histofit::plot_settings::{PlotSettings, Progress};

fn num(x: f64) -> Number {
    Number::from_bits(x.to_bits())
}

fn uniform_edges(bins: usize, low: f64, high: f64) -> Vec<Number> {
    let mut edges = Vec::new();
    for k in 0..=bins {
        let edge = if k == bins { high } else { low + (high - low) * (k as f64) / (bins as f64) };
        edges.push(num(edge));
    }
    edges
}

fn column(values: &[f64]) -> Vec<Option<Number>> {
    values.iter().map(|v| Some(num(*v))).collect()
}

fn three_by_two() -> Histogram2D {
    Histogram2D::new("xy", uniform_edges(3, 0.0, 3.0), uniform_edges(2, 0.0, 2.0)).unwrap()
}

#[test]
fn new_grid_is_zero_filled() {
    let h = three_by_two();
    assert_eq!(h.name(), "xy");
    assert_eq!(h.bins(), &vec![0; 6]);
    assert_eq!(h.x_axis().bin_count(), 3);
    assert_eq!(h.y_axis().bin_count(), 2);
    assert_eq!(h.progress(), None);
    let ((x_low, x_high), (y_low, y_high)) = h.range();
    assert_eq!(x_low.to_bits(), 0.0f64.to_bits());
    assert_eq!(x_high.to_bits(), 3.0f64.to_bits());
    assert_eq!(y_low.to_bits(), 0.0f64.to_bits());
    assert_eq!(y_high.to_bits(), 2.0f64.to_bits());
}

#[test]
fn bad_axes_are_refused_x_first() {
    let r = Histogram2D::new("xy", uniform_edges(0, 0.0, 1.0), uniform_edges(2, 0.0, 2.0));
    assert!(matches!(r, Err(GridError::XAxis(AxisError::NoBins))));
    let r = Histogram2D::new("xy", uniform_edges(2, 0.0, 1.0), vec![num(2.0), num(1.0)]);
    assert!(matches!(r, Err(GridError::YAxis(AxisError::NotIncreasing { at: 0 }))));
    let r = Histogram2D::new("xy", Vec::new(), Vec::new());
    assert!(matches!(r, Err(GridError::XAxis(AxisError::NoBins))));
}

#[test]
fn cells_are_kept_row_by_row() {
    let mut h = three_by_two();
    h.fill(num(2.5), num(0.5), 0, 1);
    assert_eq!(h.bins(), &vec![0, 0, 0, 0, 1, 0]);
    h.fill(num(0.5), num(1.5), 0, 1);
    assert_eq!(h.bins(), &vec![0, 1, 0, 0, 1, 0]);
    h.fill(num(1.0), num(1.0), 0, 1);
    assert_eq!(h.bins(), &vec![0, 1, 0, 1, 1, 0]);
    assert_eq!(h.count_at(2, 0), Some(1));
    assert_eq!(h.count_at(0, 1), Some(1));
    assert_eq!(h.count_at(1, 1), Some(1));
    assert_eq!(h.count_at(0, 0), Some(0));
    assert_eq!(h.count_at(3, 0), None);
    assert_eq!(h.count_at(0, 2), None);
}

#[test]
fn pair_counts_only_if_both_parts_are_in_range() {
    let mut h = three_by_two();
    h.fill(num(1.5), num(2.0), 0, 4);
    h.fill(num(3.0), num(1.0), 1, 4);
    h.fill(num(-0.5), num(1.0), 2, 4);
    h.fill(num(1.5), num(f64::NAN), 3, 4);
    assert_eq!(h.bins(), &vec![0; 6]);
    assert_eq!(h.progress(), Some(Progress { step: 3, total: 4 }));
}

#[test]
fn reset_zeroes_the_grid() {
    let mut h = three_by_two();
    h.fill(num(1.5), num(1.0), 0, 1);
    h.reset();
    assert_eq!(h.bins(), &vec![0; 6]);
    assert_eq!(h.progress(), None);
    assert_eq!(h.x_axis().bin_count(), 3);
}

#[test]
fn fill_columns_counts_rows() {
    let mut h = three_by_two();
    let xs = column(&[0.5, 0.5, 2.9, 1.0, 5.0]);
    let ys = column(&[0.5, 0.6, 1.9, 1.0, 1.0]);
    h.fill_columns(&xs, &ys);
    assert_eq!(h.bins(), &vec![2, 0, 0, 1, 0, 1]);
    assert_eq!(h.progress(), None);
}

#[test]
fn fill_columns_passes_over_rows_that_lack_a_part() {
    let mut h = three_by_two();
    let xs = vec![Some(num(0.5)), None, Some(num(1.5)), Some(num(2.5))];
    let ys = vec![Some(num(0.5)), Some(num(0.5)), None];
    h.fill_columns(&xs, &ys);
    assert_eq!(h.bins(), &vec![1, 0, 0, 0, 0, 0]);
}

#[test]
fn refill_of_grid_after_reset_gives_the_same_counts() {
    let mut h = three_by_two();
    let xs = column(&[0.5, 0.5, 2.9, 1.0, 5.0, 2.2]);
    let ys = column(&[0.5, 0.6, 1.9, 1.0, 1.0, 0.1]);
    h.fill_columns(&xs, &ys);
    let first = h.bins().clone();
    h.reset();
    h.fill_columns(&xs, &ys);
    assert_eq!(h.bins(), &first);
    assert_eq!(first.iter().sum::<u64>(), 5);
}

#[test]
fn columns_are_noted_in_the_cuts() {
    let mut h = three_by_two();
    h.fill(num(1.5), num(1.0), 2, 3);
    h.set_columns("energy", "time");
    assert_eq!(h.plot_settings().cuts.x_column, "energy");
    assert_eq!(h.plot_settings().cuts.y_column, "time");
    assert_eq!(h.progress(), Some(Progress { step: 2, total: 3 }));
    assert_eq!(h.count_at(1, 1), Some(1));
}

#[test]
fn pairs_are_counted_batch_by_batch() {
    let xs = vec![Some(num(0.5)), Some(num(0.5)), None, Some(num(2.5)), Some(num(1.5))];
    let ys = vec![Some(num(0.5)), Some(num(1.5)), Some(num(0.5)), Some(num(1.9)), None];
    let mut whole = three_by_two();
    whole.fill_columns(&xs, &ys);
    let mut h = three_by_two();
    h.fill_rows(&xs, &ys, 0, 1);
    assert_eq!(h.bins(), &vec![1, 0, 0, 0, 0, 0]);
    assert_eq!(h.progress(), Some(Progress { step: 0, total: 5 }));
    h.fill_rows(&xs, &ys, 1, 3);
    assert_eq!(h.bins(), &vec![1, 1, 0, 0, 0, 0]);
    assert_eq!(h.progress(), Some(Progress { step: 1, total: 5 }));
    h.fill_rows(&xs, &ys, 3, 50);
    assert_eq!(h.bins(), &vec![1, 1, 0, 0, 0, 1]);
    assert_eq!(h.progress(), Some(Progress { step: 3, total: 5 }));
    h.finish_fill();
    assert_eq!(h.bins(), whole.bins());
    assert_eq!(h.progress(), None);
}

#[test]
fn kept_grid_is_taken_back() {
    let h = Histogram2D::restore(
        "kept",
        uniform_edges(3, 0.0, 3.0),
        uniform_edges(2, 0.0, 2.0),
        vec![1, 2, 3, 4, 5, 6],
        PlotSettings::default(),
    )
    .unwrap();
    assert_eq!(h.bins(), &vec![1, 2, 3, 4, 5, 6]);
    assert_eq!(h.count_at(2, 1), Some(6));
    assert_eq!(h.count_at(1, 0), Some(3));
    assert_eq!(h.name(), "kept");
}

#[test]
fn kept_grid_with_wrong_counts_is_refused() {
    let r = Histogram2D::restore(
        "kept",
        uniform_edges(3, 0.0, 3.0),
        uniform_edges(2, 0.0, 2.0),
        vec![1, 2, 3, 4, 5],
        PlotSettings::default(),
    );
    assert_eq!(r.err(), Some(RestoreGridError::Counts));
    let r = Histogram2D::restore("kept", uniform_edges(3, 0.0, 3.0), Vec::new(), Vec::new(), PlotSettings::default());
    assert_eq!(r.err(), Some(RestoreGridError::Grid(GridError::YAxis(AxisError::NoBins))));
}
