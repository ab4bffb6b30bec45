use anise::bits::{is_finite, is_nan, order_key, to_u64, to_usize};

#[test]
fn truncating_conversion() {
    assert_eq!(to_usize(5.0f64.to_bits()), 5);
    assert_eq!(to_usize(2.7f64.to_bits()), 2);
    assert_eq!(to_usize(0.999f64.to_bits()), 0);
    assert_eq!(to_usize((-3.0f64).to_bits()), 0);
    assert_eq!(to_usize(f64::NAN.to_bits()), 0);
    assert_eq!(to_usize(f64::INFINITY.to_bits()), usize::MAX);
    assert_eq!(to_usize(1e30f64.to_bits()), usize::MAX);
    assert_eq!(to_u64(4503599627370497.0f64.to_bits()), 4503599627370497);
    assert_eq!(to_u64(1e19f64.to_bits()), 10000000000000000000);
    for v in [0.0f64, 1.5, 7.0, 123456.789, 9007199254740993.0, 1.8e19, 5e-324] {
        assert_eq!(to_u64(v.to_bits()), v as u64);
    }
}

#[test]
fn finiteness_and_order() {
    assert!(is_finite(1.0f64.to_bits()));
    assert!(!is_finite(f64::INFINITY.to_bits()));
    assert!(!is_finite(f64::NAN.to_bits()));
    assert!(is_nan(f64::NAN.to_bits()));
    assert!(!is_nan(f64::NEG_INFINITY.to_bits()));
    let vals = [f64::NEG_INFINITY, -1e10, -1.0, -0.5, 0.0, 1e-300, 2.0, 1e10, f64::INFINITY];
    for w in vals.windows(2) {
        assert!(order_key(w[0].to_bits()) < order_key(w[1].to_bits()));
    }
    assert_eq!(order_key((-0.0f64).to_bits()), order_key(0.0f64.to_bits()));
}
