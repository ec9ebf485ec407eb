use lox::number::{in_order, is_equal, is_nan, negate};

fn samples() -> Vec<f64> {
    vec![
        0.0,
        -0.0,
        1.0,
        -1.0,
        0.1,
        -0.1,
        123.45,
        -123.45,
        5e-324,
        -5e-324,
        f64::MIN_POSITIVE,
        f64::MAX,
        f64::MIN,
        f64::INFINITY,
        f64::NEG_INFINITY,
        f64::NAN,
        -f64::NAN,
        f64::EPSILON,
        1e300,
        -1e-300,
    ]
}

#[test]
fn order_is_that_of_binary64_numbers() {
    for a in samples() {
        for b in samples() {
            assert_eq!(in_order(a.to_bits(), b.to_bits(), false), a < b, "{} < {}", a, b);
            assert_eq!(in_order(a.to_bits(), b.to_bits(), true), a <= b, "{} <= {}", a, b);
        }
    }
}

#[test]
fn equality_is_that_of_binary64_numbers() {
    for a in samples() {
        for b in samples() {
            assert_eq!(is_equal(a.to_bits(), b.to_bits()), a == b, "{} == {}", a, b);
        }
    }
}

#[test]
fn negation_is_that_of_binary64_numbers() {
    for a in samples() {
        assert_eq!(negate(a.to_bits()), (-a).to_bits());
        assert_eq!(negate(negate(a.to_bits())), a.to_bits());
    }
    assert_eq!(negate(1.5f64.to_bits()), 0xbff8_0000_0000_0000);
    assert_eq!(negate(0), 0x8000_0000_0000_0000);
}

#[test]
fn nan_is_told_by_its_bits() {
    for a in samples() {
        assert_eq!(is_nan(a.to_bits()), a.is_nan());
    }
    assert!(!is_nan(0x7ff0_0000_0000_0000));
    assert!(is_nan(0x7ff0_0000_0000_0001));
    assert!(is_nan(0xffff_ffff_ffff_ffff));
    assert!(!is_nan(0xfff0_0000_0000_0000));
}
