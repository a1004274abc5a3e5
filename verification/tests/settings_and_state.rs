use histofit::histogrammer::Histogrammer;
use histofit::naming::{peak_label, push_decimal};
use histofit::plot_settings::{Cut, PlotSettings};
use histofit::processer::{Calculation, Processer};

#[test]
fn default_settings() {
    let s = PlotSettings::default();
    assert!(!s.stats_info);
    assert_eq!(s.rebin_x_factor, 1);
    assert_eq!(s.rebin_y_factor, 1);
    assert!(!s.recalculate_image);
    assert!(s.allow_double_click_reset);
    assert!(s.progress.is_none());
    assert!(s.cuts.cuts.is_empty());
    assert_eq!(s.cuts.x_column, "");
    assert_eq!(s.cuts.y_column, "");
}

#[test]
fn double_click_reset_follows_the_cuts() {
    let mut s = PlotSettings::default();
    s.cuts.cuts.push(Cut { interactive_clicking: false });
    s.cuts.cuts.push(Cut { interactive_clicking: true });
    s.cuts.cuts.push(Cut { interactive_clicking: false });
    assert!(s.cuts.any_interactive());
    s.update_double_click_reset();
    assert!(!s.allow_double_click_reset);
    s.cuts.cuts[1].interactive_clicking = false;
    assert!(!s.cuts.any_interactive());
    s.update_double_click_reset();
    assert!(s.allow_double_click_reset);
    s.cuts.cuts.clear();
    s.allow_double_click_reset = false;
    s.update_double_click_reset();
    assert!(s.allow_double_click_reset);
}

#[test]
fn numbers_are_written_in_decimal() {
    for n in [0usize, 1, 9, 10, 11, 99, 100, 101, 12345, 4_000_000_000, usize::MAX] {
        let mut text = String::from("n=");
        push_decimal(&mut text, n);
        assert_eq!(text, format!("n={}", n));
    }
    assert_eq!(peak_label(0), "Peak 0");
    assert_eq!(peak_label(42), "Peak 42");
}

#[test]
fn new_analysis_is_not_ready() {
    let p = Processer::new();
    assert!(!p.is_ready);
    assert!(p.histogrammer.histograms.is_empty());
    assert!(p.histogrammer.tree.is_empty());
}

fn with_one_histogram() -> Histogrammer {
    let mut h = Histogrammer::new();
    h.create_grid("A".to_string());
    h
}

#[test]
fn calculation_makes_the_analysis_ready() {
    let mut p = Processer::new();
    p.calculate_histograms(Calculation::NoTable);
    assert!(p.is_ready);
    assert!(p.histogrammer.tree.is_empty());
    let mut p = Processer::new();
    p.calculate_histograms(Calculation::Failed);
    assert!(p.is_ready);
    let mut p = Processer::new();
    p.calculate_histograms(Calculation::Made(with_one_histogram()));
    assert!(p.is_ready);
    assert!(!p.histogrammer.tree.is_empty());
    p.calculate_histograms(Calculation::Failed);
    assert!(!p.histogrammer.tree.is_empty());
}

#[test]
fn calculation_with_cuts_is_ready_only_if_the_cuts_applied() {
    let mut p = Processer::new();
    p.calculate_histograms_with_cuts(Calculation::NoTable);
    assert!(!p.is_ready);
    p.calculate_histograms_with_cuts(Calculation::CutsFailed);
    assert!(!p.is_ready);
    assert!(p.histogrammer.tree.is_empty());
    p.calculate_histograms_with_cuts(Calculation::Made(with_one_histogram()));
    assert!(p.is_ready);
    assert!(!p.histogrammer.tree.is_empty());
    p.calculate_histograms_with_cuts(Calculation::CutsFailed);
    assert!(p.is_ready);
    assert!(!p.histogrammer.tree.is_empty());
    let mut p = Processer::new();
    p.calculate_histograms_with_cuts(Calculation::Failed);
    assert!(p.is_ready);
}
