use histofit::axis::{Axis, AxisError};
use histofit::number::Number;

fn num(x: f64) -> Number {
    Number::from_bits(x.to_bits())
}

fn edges(values: &[f64]) -> Vec<Number> {
    values.iter().map(|v| num(*v)).collect()
}

#[test]
fn no_edges_is_no_axis() {
    assert!(matches!(Axis::new(Vec::new()), Err(AxisError::NoBins)));
}

#[test]
fn one_edge_has_no_bin() {
    assert!(matches!(Axis::new(edges(&[1.0])), Err(AxisError::NoBins)));
}

#[test]
fn equal_ends_are_refused() {
    assert!(matches!(Axis::new(edges(&[1.0, 1.0])), Err(AxisError::NotIncreasing { at: 0 })));
}

#[test]
fn inverted_range_is_refused() {
    assert!(matches!(Axis::new(edges(&[2.0, 1.0])), Err(AxisError::NotIncreasing { at: 0 })));
}

#[test]
fn first_disorder_is_named() {
    let r = Axis::new(edges(&[0.0, 1.0, 2.0, 2.0, 1.0]));
    assert!(matches!(r, Err(AxisError::NotIncreasing { at: 2 })));
}

#[test]
fn edge_that_is_not_a_number_is_refused() {
    let r = Axis::new(edges(&[0.0, f64::NAN, 2.0]));
    assert!(matches!(r, Err(AxisError::NotIncreasing { at: 0 })));
}

#[test]
fn zeros_of_both_signs_are_equal_edges() {
    let r = Axis::new(edges(&[-0.0, 0.0]));
    assert!(matches!(r, Err(AxisError::NotIncreasing { at: 0 })));
}

#[test]
fn axis_reports_its_geometry() {
    let axis = Axis::new(edges(&[0.0, 1.0, 2.5, 4.0])).unwrap();
    assert_eq!(axis.bin_count(), 3);
    assert_eq!(axis.low().to_bits(), 0.0f64.to_bits());
    assert_eq!(axis.high().to_bits(), 4.0f64.to_bits());
    assert_eq!(axis.edges().len(), 4);
    assert_eq!(axis.edges()[2].to_bits(), 2.5f64.to_bits());
}

#[test]
fn locate_finds_the_bin() {
    let axis = Axis::new(edges(&[0.0, 1.0, 2.5, 4.0])).unwrap();
    assert_eq!(axis.locate(num(0.0)), Some(0));
    assert_eq!(axis.locate(num(0.999)), Some(0));
    assert_eq!(axis.locate(num(1.0)), Some(1));
    assert_eq!(axis.locate(num(2.4999)), Some(1));
    assert_eq!(axis.locate(num(2.5)), Some(2));
    assert_eq!(axis.locate(num(3.9999)), Some(2));
}

#[test]
fn upper_end_is_outside() {
    let axis = Axis::new(edges(&[0.0, 1.0, 2.5, 4.0])).unwrap();
    assert_eq!(axis.locate(num(4.0)), None);
    assert!(!axis.contains(num(4.0)));
    assert_eq!(axis.locate(num(4.0000001)), None);
    assert_eq!(axis.locate(num(f64::INFINITY)), None);
}

#[test]
fn below_the_lower_end_is_outside() {
    let axis = Axis::new(edges(&[0.0, 1.0, 2.5, 4.0])).unwrap();
    assert_eq!(axis.locate(num(-1.0e-9)), None);
    assert_eq!(axis.locate(num(f64::NEG_INFINITY)), None);
    assert!(axis.contains(num(0.0)));
    assert!(axis.contains(num(-0.0)));
    assert_eq!(axis.locate(num(-0.0)), Some(0));
}

#[test]
fn what_is_not_a_number_is_outside() {
    let axis = Axis::new(edges(&[0.0, 1.0, 2.5, 4.0])).unwrap();
    assert_eq!(axis.locate(num(f64::NAN)), None);
    assert!(!axis.contains(num(f64::NAN)));
}

#[test]
fn locate_agrees_with_a_scan_on_many_bins() {
    let mut raw = Vec::new();
    for k in 0..=1000 {
        raw.push(-50.0 + 0.1 * (k as f64));
    }
    let axis = Axis::new(edges(&raw)).unwrap();
    let mut v = -51.0;
    while v < 51.0 {
        let mut expected = None;
        for k in 0..1000 {
            if raw[k] <= v && v < raw[k + 1] {
                expected = Some(k);
            }
        }
        assert_eq!(axis.locate(num(v)), expected, "value {}", v);
        v += 0.037;
    }
}

#[test]
fn clone_keeps_the_edges() {
    let axis = Axis::new(edges(&[0.0, 1.0, 2.5, 4.0])).unwrap();
    let copy = axis.clone();
    assert_eq!(copy.bin_count(), 3);
    for k in 0..4 {
        assert_eq!(copy.edges()[k].to_bits(), axis.edges()[k].to_bits());
    }
}
