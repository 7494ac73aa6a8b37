use tableau::double::Double;

fn d(x: f64) -> Double {
    Double::from_bits(x.to_bits())
}

fn f(x: Double) -> f64 {
    f64::from_bits(x.to_bits())
}

/// Bit patterns that cover the corners of the format, then scattered ones.
fn samples() -> Vec<f64> {
    let mut v: Vec<f64> = vec![
        0.0,
        -0.0,
        1.0,
        -1.0,
        0.5,
        1.5,
        2.5,
        -2.5,
        0.1,
        0.3,
        1e-8,
        1e-9,
        1e15,
        1e16,
        1e300,
        -1e300,
        1e-300,
        1e-308,
        5e-324,
        f64::MAX,
        f64::MIN,
        f64::MIN_POSITIVE,
        f64::EPSILON,
        f64::INFINITY,
        f64::NEG_INFINITY,
        f64::NAN,
        9007199254740991.0,
        9007199254740992.0,
        9007199254740994.0,
        4503599627370496.5,
        9223372036854775807.0,
        -9223372036854775808.0,
        0.49999999999999994,
        1.9999999999999996,
        2.9999999999999996,
    ];
    let mut state: u64 = 0x9e37_79b9_7f4a_7c15;
    for _ in 0..120 {
        state = state.wrapping_mul(6364136223846793005).wrapping_add(1442695040888963407);
        v.push(f64::from_bits(state ^ (state >> 29)));
        let small = ((state >> 20) % 2000) as f64 - 1000.0;
        v.push(small / 64.0);
        v.push(small / 7.0);
    }
    v
}

fn same(a: f64, b: f64) -> bool {
    (a.is_nan() && b.is_nan()) || a.to_bits() == b.to_bits()
}

#[test]
fn arithmetic_agrees_with_the_machine() {
    let v = samples();
    for &a in &v {
        for &b in &v {
            assert!(same(f(d(a).plus(d(b))), a + b), "{:?} + {:?}", a, b);
            assert!(same(f(d(a).minus(d(b))), a - b), "{:?} - {:?}", a, b);
            assert!(same(f(d(a).times(d(b))), a * b), "{:?} * {:?}", a, b);
            assert!(same(f(d(a).over(d(b))), a / b), "{:?} / {:?}", a, b);
            assert_eq!(d(a).less_than(d(b)), a < b, "{:?} < {:?}", a, b);
        }
    }
}

#[test]
fn integer_operations_agree_with_the_machine() {
    for &a in &samples() {
        assert!(same(f(d(a).floor()), a.floor()), "floor {:?}", a);
        assert!(same(f(d(a).round()), a.round()), "round {:?}", a);
        assert!(same(f(d(a).abs()), a.abs()), "abs {:?}", a);
        assert!(same(f(d(a).negate()), -a), "neg {:?}", a);
        assert_eq!(d(a).to_i64(), a as i64, "as {:?}", a);
        assert_eq!(d(a).is_finite(), a.is_finite());
    }
    for n in 0..200u64 {
        assert_eq!(f(Double::from_u64(n)), n as f64);
    }
    assert_eq!(f(Double::from_u64(u64::MAX)), u64::MAX as f64);
}

