use pytextgrid::time::{time_is_nan, time_le, time_lt, time_same, INFINITY, NEG_INFINITY};

fn samples() -> Vec<f64> {
    vec![
        0.0,
        -0.0,
        1.0,
        -1.0,
        1.5,
        -1.5,
        2.0,
        3.0,
        0.1,
        0.2,
        0.1 + 0.2,
        0.3,
        1e-320,
        -1e-320,
        5e-324,
        f64::MIN_POSITIVE,
        f64::MAX,
        f64::MIN,
        f64::INFINITY,
        f64::NEG_INFINITY,
        f64::NAN,
        -f64::NAN,
        123456.789,
        -123456.789,
    ]
}

#[test]
fn order_agrees_with_doubles() {
    for a in samples() {
        for b in samples() {
            assert_eq!(time_le(a.to_bits(), b.to_bits()), a <= b, "{} <= {}", a, b);
            assert_eq!(time_lt(a.to_bits(), b.to_bits()), a < b, "{} < {}", a, b);
            assert_eq!(time_same(a.to_bits(), b.to_bits()), a == b, "{} == {}", a, b);
        }
    }
}

#[test]
fn nan_is_recognised() {
    for a in samples() {
        assert_eq!(time_is_nan(a.to_bits()), a.is_nan(), "{}", a);
    }
}

#[test]
fn both_zeros_are_equal() {
    assert!(time_same(0.0f64.to_bits(), (-0.0f64).to_bits()));
    assert!(time_le(0.0f64.to_bits(), (-0.0f64).to_bits()));
    assert!(!time_lt((-0.0f64).to_bits(), 0.0f64.to_bits()));
}

#[test]
fn infinities_are_the_named_bits() {
    assert_eq!(f64::INFINITY.to_bits(), INFINITY);
    assert_eq!(f64::NEG_INFINITY.to_bits(), NEG_INFINITY);
}
