use survey_pipeline::double::{
    Double, FIVE_BITS, INFINITE_MAGNITUDE, NINETY_BITS, NINETY_NINE_BITS, THIRTY_BITS,
};

fn d(x: f64) -> Double {
    Double { bits: x.to_bits() }
}

fn samples() -> Vec<f64> {
    vec![
        0.0, -0.0, 1.0, -1.0, 0.5, -0.5, 1.5, -2.25, 5.0, 29.999, 30.0, 89.99, 90.0, 99.0,
        60000.75, -60000.75, 1e-310, -1e-310, 4503599627370495.5, 4503599627370497.0,
        -4503599627370495.5, 9.2e18, -9.2e18, 9223372036854775807.0, -9223372036854775808.0, 1e19,
        -1e19, 1e300, f64::MAX, f64::MIN_POSITIVE, f64::INFINITY, f64::NEG_INFINITY, f64::NAN,
    ]
}

#[test]
fn comparisons_agree_with_floats() {
    for a in samples() {
        for b in samples() {
            assert_eq!(d(a).lt(&d(b)), a < b, "{} < {}", a, b);
            assert_eq!(d(a).le(&d(b)), a <= b, "{} <= {}", a, b);
        }
    }
}

#[test]
fn floor_agrees_with_floats() {
    for a in samples() {
        assert_eq!(d(a).floor_to_i64(), a.floor() as i64, "{}", a);
    }
    let mut x = 0.37f64;
    for _ in 0..200 {
        assert_eq!(d(x).floor_to_i64(), x.floor() as i64);
        assert_eq!(d(-x).floor_to_i64(), (-x).floor() as i64);
        x *= 1.31;
    }
}

#[test]
fn classes_and_absolute_values_agree_with_floats() {
    for a in samples() {
        assert_eq!(d(a).is_nan(), a.is_nan());
        assert_eq!(d(a).is_finite(), a.is_finite());
        assert_eq!(d(a).abs().bits, a.abs().to_bits());
    }
}

#[test]
fn named_numbers_have_their_encodings() {
    assert_eq!(FIVE_BITS, 5.0f64.to_bits());
    assert_eq!(THIRTY_BITS, 30.0f64.to_bits());
    assert_eq!(NINETY_BITS, 90.0f64.to_bits());
    assert_eq!(NINETY_NINE_BITS, 99.0f64.to_bits());
    assert_eq!(INFINITE_MAGNITUDE, f64::INFINITY.to_bits());
}
