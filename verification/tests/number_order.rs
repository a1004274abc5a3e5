use histofit::number::Number;

fn num(x: f64) -> Number {
    Number::from_bits(x.to_bits())
}

fn samples() -> Vec<f64> {
    vec![
        f64::NEG_INFINITY,
        f64::MIN,
        -1.0e300,
        -2.5,
        -1.0,
        -f64::MIN_POSITIVE,
        -5.0e-324,
        -0.0,
        0.0,
        5.0e-324,
        f64::MIN_POSITIVE,
        0.1,
        0.5,
        1.0,
        1.0000000000000002,
        9.9,
        10.0,
        1.0e300,
        f64::MAX,
        f64::INFINITY,
        f64::NAN,
        -f64::NAN,
    ]
}

#[test]
fn less_than_agrees_with_the_numbers() {
    let all = samples();
    for a in all.iter() {
        for b in all.iter() {
            assert_eq!(num(*a).lt(num(*b)), a < b, "{} < {}", a, b);
        }
    }
}

#[test]
fn at_most_agrees_with_the_numbers() {
    let all = samples();
    for a in all.iter() {
        for b in all.iter() {
            assert_eq!(num(*a).le(num(*b)), a <= b, "{} <= {}", a, b);
        }
    }
}

#[test]
fn not_a_number_is_told() {
    for a in samples().iter() {
        assert_eq!(num(*a).is_nan(), a.is_nan(), "{}", a);
    }
}

#[test]
fn bits_round_trip() {
    for a in samples().iter() {
        assert_eq!(num(*a).to_bits(), a.to_bits());
    }
}

#[test]
fn rank_of_known_patterns() {
    assert_eq!(num(0.0).rank(), 0);
    assert_eq!(num(-0.0).rank(), 0);
    assert_eq!(num(1.0).rank(), 0x3ff0_0000_0000_0000);
    assert_eq!(num(-1.0).rank(), -0x3ff0_0000_0000_0000);
    assert_eq!(num(f64::INFINITY).rank(), 0x7ff0_0000_0000_0000);
    assert_eq!(num(5.0e-324).rank(), 1);
}
