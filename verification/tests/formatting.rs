use tableau::decimal::push_fixed;
use tableau::double::Double;
use tableau::format::{as_fraction, fmt_num, fmt_strength, near_zero};
use tableau::options::RenderOpts;
use tableau::shortest::push_display;

fn d(x: f64) -> Double {
    Double::from_bits(x.to_bits())
}

fn samples() -> Vec<f64> {
    let mut v: Vec<f64> = vec![
        0.0, -0.0, 1.0, -1.0, 0.5, 1.5, 2.5, -2.5, 0.1, 0.3, 1.0 / 3.0, 8.0 / 3.0, 3.0 / 8.0,
        -0.25, 1e-8, 0.9e-8, -0.9e-8, 1.1e-8, 1e-9, 0.0005, 0.0004999, -0.0001, 0.0625, 0.1875,
        0.3125, 2.0625, -1000.0625, 1e14, 1e15, 999999999999999.0, 1e16, 1e17, 1e19, -1e19,
        1e22, 1e23, 1e300, -1e300, 1e-300, 1e-308, 5e-324, f64::MAX, f64::MIN,
        f64::MIN_POSITIVE, f64::EPSILON, f64::INFINITY, f64::NEG_INFINITY, f64::NAN,
        9007199254740991.0, 9007199254740993.0, 4503599627370496.5, 1125899906842624.25,
        9223372036854775807.0, -9223372036854775808.0, 1.9999999999999996, 2.9999999999999996,
        123456.789, 300.0, 12968.0, 0.000123, 65.0 / 64.0, 1.0 / 65.0, 1001001000.0, 1001000999.0,
        1000000.0, 1000.0, 2000.0, 3001002.0, 1500.0, 0.25, 2500000.5, -1500.0,
    ];
    v.push(2f64.powi(-44));
    let mut state: u64 = 0x1234_5678_9abc_def1;
    for _ in 0..60 {
        state = state.wrapping_mul(6364136223846793005).wrapping_add(1442695040888963407);
        v.push(f64::from_bits(state ^ (state >> 31)));
        let small = ((state >> 20) % 200000) as f64 - 100000.0;
        v.push(small / 64.0);
        v.push(small / 7.0);
        v.push(small / 1000.0);
        v.push(small * 1000.0 + 7.0);
    }
    v
}

fn near_zero_f(v: f64) -> bool {
    if v < 0.0 { -v < 1e-8 } else { v < 1e-8 }
}

fn fraction_f(v: f64) -> Option<String> {
    if !v.is_finite() {
        return None;
    }
    for q in 1..65u64 {
        let p = (v * q as f64).round();
        if (v - p / q as f64).abs() < 1e-9 {
            // Adding zero takes the sign from a negative zero.
            return Some(if q == 1 {
                format!("{:.0}", p + 0.0)
            } else {
                format!("{:.0}/{}", p + 0.0, q)
            });
        }
    }
    None
}

fn num_f(v: f64, fractions: bool) -> String {
    if near_zero_f(v) {
        return "0".to_string();
    }
    if fractions {
        if let Some(f) = fraction_f(v) {
            return f;
        }
    }
    if !v.is_finite() {
        return format!("{}", v);
    }
    if (v - v.round()).abs() < 1e-9 && v.abs() < 1e15 {
        return format!("{}", v.round() as i64);
    }
    fixed_f(v)
}

fn fixed_f(v: f64) -> String {
    let text = format!("{:.3}", v);
    if text == "-0.000" { "0.000".to_string() } else { text }
}

fn strength_f(s: f64) -> String {
    if near_zero_f(s) {
        return "0".to_string();
    }
    if s >= 1_001_001_000.0 {
        return "REQ".to_string();
    }
    let a = (s / 1_000_000.0).floor();
    let b = ((s - a * 1_000_000.0) / 1000.0).floor();
    let c = s - a * 1_000_000.0 - b * 1000.0;
    let mut parts: Vec<String> = Vec::new();
    for &(v, letter) in &[(a, "S"), (b, "M"), (c, "W")] {
        if v > 0.0 {
            parts.push(if (v - 1.0).abs() < 1e-9 {
                letter.to_string()
            } else {
                format!("{}{}", num_f(v, false), letter)
            });
        }
    }
    if parts.is_empty() { "0".to_string() } else { parts.join("+") }
}

#[test]
fn numbers_are_formatted_as_the_machine_formats_them() {
    for &v in &samples() {
        assert_eq!(near_zero(d(v)), near_zero_f(v), "{:?}", v);
        assert_eq!(as_fraction(d(v)), fraction_f(v), "{:?}", v);
        assert_eq!(fmt_num(d(v), &RenderOpts::dictionary()), num_f(v, false), "{:?}", v);
        assert_eq!(fmt_num(d(v), &RenderOpts::textbook()), num_f(v, true), "{:?}", v);
    }
}

#[test]
fn three_places_agree_with_the_machine() {
    for &v in &samples() {
        if v.is_finite() {
            let mut out = String::new();
            push_fixed(&mut out, d(v));
            assert_eq!(out, fixed_f(v), "{:?}", v);
        }
    }
}

#[test]
fn shortest_decimals_agree_with_the_machine() {
    for &v in &samples() {
        let mut out = String::from(">");
        push_display(&mut out, d(v));
        assert_eq!(out, format!(">{}", v), "{:?}", v);
    }
}

#[test]
fn strengths_are_formatted_as_the_machine_formats_them() {
    for &v in &samples() {
        assert_eq!(fmt_strength(d(v), &RenderOpts::dictionary()), strength_f(v), "{:?}", v);
    }
}

#[test]
fn what_rounds_to_zero_has_no_sign() {
    let opts = RenderOpts::dictionary();
    assert_eq!(fmt_num(d(-0.0001), &opts), "0.000");
    assert_eq!(fmt_num(d(0.0001), &opts), "0.000");
    assert_eq!(fmt_num(d(-0.0004999), &opts), "0.000");
    assert_eq!(fmt_num(d(-0.0006), &opts), "-0.001");
    assert_eq!(fmt_num(d(-2.0004), &opts), "-2.000");
}

#[test]
fn large_fractions_are_exact() {
    let opts = RenderOpts::textbook();
    assert_eq!(as_fraction(d(1e19)).unwrap(), "10000000000000000000");
    assert_eq!(as_fraction(d(-1e19)).unwrap(), "-10000000000000000000");
    assert_eq!(as_fraction(d(1e22)).unwrap(), "10000000000000000000000");
    assert_eq!(as_fraction(d(18446744073709551616.0)).unwrap(), "18446744073709551616");
    assert_eq!(fmt_num(d(1e19), &opts), "10000000000000000000");
    assert_eq!(as_fraction(d(-0.0)).unwrap(), "0");
    assert_eq!(as_fraction(d(4503599627370495.5)).unwrap(), "9007199254740991/2");
    assert_eq!(as_fraction(d(f64::INFINITY)), None);
}

#[test]
fn strengths_are_shown_by_their_bands() {
    let show = |s: f64| fmt_strength(d(s), &RenderOpts::dictionary());
    assert_eq!(show(0.0), "0");
    assert_eq!(show(1.0), "W");
    assert_eq!(show(1_000.0), "M");
    assert_eq!(show(1_000_000.0), "S");
    assert_eq!(show(2_000.0), "2M");
    assert_eq!(show(1_003.0), "M+3W");
    assert_eq!(show(1_001_001_000.0), "REQ");
    assert_eq!(fmt_strength(d(2_000.0), &RenderOpts::textbook()), "2000");
}

#[test]
fn near_integers_are_rounded_not_truncated() {
    let opts = RenderOpts::dictionary();
    assert_eq!(fmt_num(d(1.9999999999999996), &opts), "2");
    assert_eq!(fmt_num(d(2.9999999999999996), &opts), "3");
}

#[test]
fn small_rationals_are_shown_as_fractions() {
    assert_eq!(as_fraction(d(8.0 / 3.0)), Some("8/3".to_string()));
    assert_eq!(as_fraction(d(0.375)), Some("3/8".to_string()));
    assert_eq!(as_fraction(d(-0.25)), Some("-1/4".to_string()));
    assert_eq!(as_fraction(d(2.0)), Some("2".to_string()));
    assert_eq!(as_fraction(d(1.0 / 65.0)), None);
    assert_eq!(as_fraction(d(f64::NAN)), None);
    assert_eq!(as_fraction(d(f64::INFINITY)), None);
}
