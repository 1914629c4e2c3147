use fab_line::measure::{greater, is_within_half, no_greater};

#[test]
fn doubles_compare_by_their_bits() {
    let xs: Vec<f64> = vec![-30.5, -1.0, -0.0, 0.0, 5e-324, 1.0, 19.999, 20.0, 30.0, 1e300];
    for a in &xs {
        for b in &xs {
            assert_eq!(greater(a.to_bits(), b.to_bits()), a > b);
            assert_eq!(no_greater(a.to_bits(), b.to_bits()), a <= b);
        }
    }
    assert!(is_within_half(7.4f64.to_bits(), 15f64.to_bits()));
}

#[test]
fn nothing_compares_to_what_is_no_number() {
    let nan = f64::NAN.to_bits();
    for x in [0.0f64, -1.0, f64::INFINITY, f64::NAN] {
        assert!(!greater(nan, x.to_bits()) && !greater(x.to_bits(), nan));
        assert!(!no_greater(nan, x.to_bits()) && !no_greater(x.to_bits(), nan));
    }
}

#[test]
fn half_a_threshold_is_not_within_half() {
    let within = |a: f64, b: f64| is_within_half(a.to_bits(), b.to_bits());
    assert!(!within(7.5, 15.0));
    assert!(within(-7.4, 15.0));
    assert!(!within(-7.5, 15.0));
    assert!(!within(f64::NAN, 15.0));
}
