//! Doubles behave as the machine's own.

use iris::double::Double;

fn d(x: f64) -> Double {
    Double { bits: x.to_bits() }
}

fn f(x: Double) -> f64 {
    f64::from_bits(x.bits)
}

fn same(got: Double, want: f64) -> bool {
    if want.is_nan() {
        got.is_nan()
    } else {
        got.bits == want.to_bits()
    }
}

fn samples() -> Vec<f64> {
    let mut out = vec![
        0.0,
        -0.0,
        0.1,
        0.25,
        0.5,
        -0.5,
        0.75,
        1.0,
        -1.0,
        1.5,
        2.5,
        3.0,
        10.25,
        20.75,
        100.5,
        16000.0,
        16000.000000000002,
        4503599627370495.5,
        4503599627370496.0,
        9007199254740991.0,
        9007199254740992.0,
        9007199254740993.0,
        9007199254740994.0,
        18446744073709551616.0,
        1e-300,
        -1e-300,
        1e300,
        f64::MAX,
        -f64::MAX,
        f64::MIN_POSITIVE,
        f64::from_bits(1),
        f64::from_bits(0x000F_FFFF_FFFF_FFFF),
        f64::EPSILON,
        f64::INFINITY,
        f64::NEG_INFINITY,
        f64::NAN,
        4294967295.0,
        4294967295.9,
        4294967296.0,
    ];
    let mut state: u64 = 0x9E37_79B9_7F4A_7C15;
    for _ in 0..160 {
        state ^= state << 13;
        state ^= state >> 7;
        state ^= state << 17;
        out.push(f64::from_bits(state));
        // Numbers near each other in size, where sums round.
        let near = 0x3FF0_0000_0000_0000u64 + (state % (200u64 << 52)) - (100u64 << 52);
        out.push(f64::from_bits(near));
        out.push((state % 100_000) as f64 / 64.0);
    }
    out
}

#[test]
fn sums_and_differences_round_as_the_machine_does() {
    for &a in &samples() {
        for &b in &samples() {
            assert!(same(d(a).add(d(b)), a + b), "{:e} + {:e}", a, b);
            assert!(same(d(a).subtract(d(b)), a - b), "{:e} - {:e}", a, b);
        }
    }
}

#[test]
fn order_and_limits_are_those_of_the_machine() {
    for &a in &samples() {
        for &b in &samples() {
            assert_eq!(d(a).less(d(b)), a < b);
            assert_eq!(d(a).less_or_equal(d(b)), a <= b);
            if b >= 0.0 {
                assert!(same(d(a).clamp(d(0.0), d(b)), a.clamp(0.0, b)), "{:e} in 0..{:e}", a, b);
            }
        }
    }
}

#[test]
fn products_round_as_the_machine_does() {
    for &a in &samples() {
        for n in [0u32, 1, 2, 3, 7, 900, 5333, 5334, 8000, 8001, 1_000_003, u32::MAX] {
            assert!(same(d(a).multiply(n), n as f64 * a), "{} * {:e}", n, a);
        }
    }
}

#[test]
fn whole_numbers_are_cut_out_as_the_machine_does() {
    for &a in &samples() {
        assert!(same(d(a).floor(), a.floor()), "floor {:e}", a);
        assert!(same(d(a).ceil(), a.ceil()), "ceil {:e}", a);
        if !a.is_nan() {
            assert!(d(a).floor().less_or_equal(d(a)) && d(a).less_or_equal(d(a).ceil()));
        }
        assert!(same(d(a).negate(), -a), "-{:e}", a);
        assert_eq!(d(a).to_u32(), a as u32, "u32 of {:e}", a);
        assert_eq!(d(a).is_finite(), a.is_finite());
    }
    for n in [0u64, 1, 2, 3, 16000, (1 << 53) - 1, 1 << 53, (1 << 53) + 1, (1 << 53) + 3, u64::MAX] {
        assert_eq!(f(Double::from_u64(n)), n as f64);
    }
}

#[test]
fn more_added_is_never_less() {
    let pick: Vec<f64> = samples().into_iter().filter(|x| x.is_finite()).take(120).collect();
    for &a in &pick {
        for pair in pick.windows(2) {
            let (low, high) = if pair[0] <= pair[1] { (pair[0], pair[1]) } else { (pair[1], pair[0]) };
            assert!(d(a).add(d(low)).less_or_equal(d(a).add(d(high))));
            assert!(d(a).subtract(d(high)).less_or_equal(d(a).subtract(d(low))));
            assert!(d(low).floor().less_or_equal(d(high).floor()));
            assert!(d(low).ceil().less_or_equal(d(high).ceil()));
        }
    }
}
