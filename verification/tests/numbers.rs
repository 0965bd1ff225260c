use easl::number::at_most;
use easl::number::equal;
use easl::number::less;
use easl::number::nan;
use easl::number::negate;
use easl::number::place_of;

fn samples() -> Vec<f64> {
    vec![
        0.0,
        -0.0,
        1.0,
        -1.0,
        1.5,
        -1.5,
        3.0,
        1e-320,
        -1e-320,
        f64::MIN_POSITIVE,
        f64::MAX,
        f64::MIN,
        f64::INFINITY,
        f64::NEG_INFINITY,
        f64::NAN,
        -f64::NAN,
        f64::EPSILON,
        123456789.125,
    ]
}

#[test]
fn equal_is_binary64_equality() {
    for a in samples() {
        for b in samples() {
            assert_eq!(equal(a.to_bits(), b.to_bits()), a == b, "{} == {}", a, b);
        }
    }
}

#[test]
fn less_is_binary64_order() {
    for a in samples() {
        for b in samples() {
            assert_eq!(less(a.to_bits(), b.to_bits()), a < b, "{} < {}", a, b);
        }
    }
}

#[test]
fn at_most_is_binary64_order() {
    for a in samples() {
        for b in samples() {
            assert_eq!(at_most(a.to_bits(), b.to_bits()), a <= b, "{} <= {}", a, b);
        }
    }
}

#[test]
fn negate_flips_the_sign() {
    for a in samples() {
        assert_eq!(negate(a.to_bits()), (-a).to_bits());
    }
    assert_eq!(negate(0x3ff0_0000_0000_0000), 0xbff0_0000_0000_0000);
}

#[test]
fn nan_knows_every_nan() {
    for a in samples() {
        assert_eq!(nan(a.to_bits()), a.is_nan());
    }
    assert!(nan(0x7ff0_0000_0000_0001));
    assert!(!nan(0x7ff0_0000_0000_0000));
}

#[test]
fn both_zeros_have_one_place() {
    assert_eq!(place_of(0.0f64.to_bits()), 0);
    assert_eq!(place_of((-0.0f64).to_bits()), 0);
    assert_eq!(place_of(1.0f64.to_bits()), 0x3ff0_0000_0000_0000);
    assert_eq!(place_of((-1.0f64).to_bits()), -0x3ff0_0000_0000_0000);
}
