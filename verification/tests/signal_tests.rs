use logic_tools::analog;
use logic_tools::signal::Signal;

fn analog(v: f32) -> Signal {
    Signal::Analog(v.to_bits())
}

#[test]
fn undefined_absorbs_addition() {
    let samples = [
        Signal::Digital(true),
        Signal::Digital(false),
        analog(0.0),
        analog(-2.5),
        analog(f32::NAN),
        Signal::Undefined,
    ];
    for s in samples {
        assert_eq!(s.add(Signal::Undefined), Signal::Undefined);
        assert_eq!(Signal::Undefined.add(s), Signal::Undefined);
        assert_eq!(s.sub(Signal::Undefined), Signal::Undefined);
        assert_eq!(Signal::Undefined.sub(s), Signal::Undefined);
    }
}

#[test]
fn truthiness_follows_float_normality() {
    assert!(Signal::Digital(true).is_truthy());
    assert!(!analog(0.0).is_truthy());
    assert!(!analog(f32::NAN).is_truthy());
    assert!(analog(2.5).is_truthy());
    assert!(analog(-0.1).is_truthy());
    assert!(analog(0.1).is_truthy());
    assert!(!Signal::Undefined.is_truthy());
    assert!(!Signal::Digital(false).is_truthy());
    // subnormals and infinities are not normal
    assert!(!analog(f32::MIN_POSITIVE / 2.0).is_truthy());
    assert!(!analog(f32::INFINITY).is_truthy());
    assert!(Signal::Digital(false).is_falsy());
    assert!(analog(0.0).is_falsy());
    assert!(analog(f32::NAN).is_falsy());
    assert!(Signal::Undefined.is_falsy());
    assert!(!analog(1.0).is_falsy());
}

#[test]
fn signal_kind_predicates() {
    assert!(analog(1.0).is_analog());
    assert!(!analog(1.0).is_digital());
    assert!(Signal::Digital(false).is_digital());
    assert!(Signal::Undefined.is_undefined());
    assert!(analog(-1.0).is_sign_negative());
    assert!(analog(1.0).is_sign_positive());
    assert!(!Signal::Digital(true).is_sign_negative());
    assert!(!Signal::Undefined.is_sign_positive());
}

#[test]
fn turn_and_replace() {
    let mut s = Signal::Undefined;
    s.turn_on();
    assert_eq!(s, Signal::Digital(true));
    s.turn_off();
    assert_eq!(s, Signal::Digital(false));
    s.replace(analog(3.5));
    assert_eq!(s, analog(3.5));
    s.replace(analog(3.5));
    assert_eq!(s, analog(3.5));
}

/// The verified bit-level adder must agree with the host's floating
/// point unit on every pair tried, except that a NaN result may differ
/// in payload: the library emits the canonical quiet NaN.
fn check_sum(a: f32, b: f32) {
    let got = analog::add_bits(a.to_bits(), b.to_bits());
    let expect = a + b;
    if expect.is_nan() {
        assert!(
            f32::from_bits(got).is_nan(),
            "{a} + {b}: expected a NaN, got {got:#x}"
        );
        assert_eq!(got, 0x7fc0_0000);
    } else {
        assert_eq!(
            got,
            expect.to_bits(),
            "{a} + {b}: expected {expect} ({:#x}), got {} ({got:#x})",
            expect.to_bits(),
            f32::from_bits(got),
        );
    }
}

#[test]
fn adder_matches_hardware_on_edge_cases() {
    let interesting: [f32; 24] = [
        0.0,
        -0.0,
        1.0,
        -1.0,
        2.5,
        -2.5,
        0.1,
        1e-10,
        1e10,
        3.4028235e38,  // f32::MAX
        -3.4028235e38,
        1.1754944e-38, // smallest normal
        -1.1754944e-38,
        1e-45,         // smallest subnormal
        -1e-45,
        f32::MIN_POSITIVE / 2.0,
        f32::INFINITY,
        f32::NEG_INFINITY,
        f32::NAN,
        16777215.0, // largest odd integer exactly representable
        16777216.0,
        0.5,
        1.5,
        3.0000002,
    ];
    for &a in &interesting {
        for &b in &interesting {
            check_sum(a, b);
        }
    }
}

#[test]
fn adder_matches_hardware_on_pseudo_random_patterns() {
    // a small linear congruential walk over bit patterns
    let mut x: u32 = 0x1234_5678;
    let mut pats: Vec<u32> = Vec::new();
    for _ in 0..200 {
        x = x.wrapping_mul(1664525).wrapping_add(1013904223);
        pats.push(x);
    }
    for i in 0..pats.len() {
        let a = f32::from_bits(pats[i]);
        let b = f32::from_bits(pats[(i * 7 + 3) % pats.len()]);
        check_sum(a, b);
        check_sum(b, a);
    }
    // close magnitudes exercise cancellation and rounding ties
    for i in 0..200u32 {
        let base = 1.0f32 + (i as f32) * 1e-7;
        check_sum(base, -1.0);
        check_sum(base, 1.0);
        check_sum(-base, 1.0);
    }
}

#[test]
fn subtraction_and_negation_match_hardware() {
    let vals: [f32; 8] = [0.0, -0.0, 1.0, -2.5, 0.1, f32::INFINITY, f32::NAN, 1e-40];
    for &a in &vals {
        let n = analog::neg_bits(a.to_bits());
        assert_eq!(n, (-a).to_bits());
        for &b in &vals {
            let got = match analog(a).sub(analog(b)) {
                Signal::Analog(bits) => bits,
                _ => panic!("analog minus analog must stay analog"),
            };
            let expect = a - b;
            if expect.is_nan() {
                assert!(f32::from_bits(got).is_nan());
            } else {
                assert_eq!(got, expect.to_bits(), "{a} - {b}");
            }
        }
    }
}

#[test]
fn digital_arithmetic_coerces() {
    // digital + digital is an or
    assert_eq!(
        Signal::Digital(true).add(Signal::Digital(false)),
        Signal::Digital(true)
    );
    assert_eq!(
        Signal::Digital(false).add(Signal::Digital(false)),
        Signal::Digital(false)
    );
    // digital joins analog as one or zero
    assert_eq!(analog(2.0).add(Signal::Digital(true)), analog(3.0));
    assert_eq!(analog(2.0).add(Signal::Digital(false)), analog(2.0));
    assert_eq!(Signal::Digital(true).add(analog(2.0)), analog(3.0));
    // subtraction mirrors
    assert_eq!(analog(2.0).sub(Signal::Digital(true)), analog(1.0));
    assert_eq!(analog(2.0).sub(Signal::Digital(false)), analog(2.0));
    assert_eq!(Signal::Digital(true).sub(analog(0.5)), analog(0.5));
    assert_eq!(Signal::Digital(false).sub(analog(0.5)), analog(-0.5));
    assert_eq!(
        Signal::Digital(true).sub(Signal::Digital(false)),
        Signal::Digital(true)
    );
    assert_eq!(
        Signal::Digital(true).sub(Signal::Digital(true)),
        Signal::Digital(false)
    );
    // scalar levels
    assert_eq!(analog(1.5).add_level(0.25f32.to_bits()), analog(1.75));
    assert_eq!(
        Signal::Digital(false).add_level(0.25f32.to_bits()),
        analog(0.25)
    );
    assert_eq!(analog(1.5).sub_level(0.25f32.to_bits()), analog(1.25));
    assert_eq!(Signal::Undefined.add_level(0.25f32.to_bits()), Signal::Undefined);
}

#[test]
fn negate_flips() {
    assert_eq!(analog(2.5).negate(), analog(-2.5));
    assert_eq!(Signal::Digital(true).negate(), Signal::Digital(false));
    assert_eq!(Signal::Digital(false).negate(), Signal::Digital(true));
    assert_eq!(Signal::Undefined.negate(), Signal::Undefined);
}

/// Mirror of the magnitude-priority combinator over host floats.
fn max_abs_expected(a: Signal, b: Signal) -> Signal {
    let as_f = |s: Signal| match s {
        Signal::Analog(bits) => Some(f32::from_bits(bits)),
        _ => None,
    };
    match (a, b) {
        (Signal::Analog(_), Signal::Analog(_)) => {
            let (x, y) = (as_f(a).unwrap(), as_f(b).unwrap());
            if x.abs() >= y.abs() {
                a
            } else {
                b
            }
        }
        (Signal::Analog(_), Signal::Digital(false))
        | (Signal::Digital(false), Signal::Analog(_)) => {
            let x = match (a, b) {
                (Signal::Analog(bits), _) | (_, Signal::Analog(bits)) => f32::from_bits(bits),
                _ => unreachable!(),
            };
            if x.is_normal() {
                Signal::Analog(x.to_bits())
            } else {
                Signal::Digital(false)
            }
        }
        (Signal::Analog(_), Signal::Digital(true)) | (Signal::Digital(true), Signal::Analog(_)) => {
            let x = match (a, b) {
                (Signal::Analog(bits), _) | (_, Signal::Analog(bits)) => f32::from_bits(bits),
                _ => unreachable!(),
            };
            if x.abs() >= 1.0 {
                Signal::Analog(x.to_bits())
            } else {
                Signal::Digital(true)
            }
        }
        (Signal::Digital(x), Signal::Digital(y)) => Signal::Digital(x || y),
        (Signal::Undefined, v) => v,
        (v, Signal::Undefined) => v,
    }
}

#[test]
fn max_abs_picks_larger_magnitude() {
    let samples = [
        analog(0.0),
        analog(-0.0),
        analog(0.5),
        analog(-2.5),
        analog(3.0),
        analog(f32::NAN),
        analog(f32::INFINITY),
        analog(1e-40),
        Signal::Digital(true),
        Signal::Digital(false),
        Signal::Undefined,
    ];
    for &a in &samples {
        for &b in &samples {
            assert_eq!(a.max_abs(b), max_abs_expected(a, b), "{a:?} max_abs {b:?}");
        }
    }
    assert_eq!(analog(-2.5).max_abs(analog(2.0)), analog(-2.5));
    assert_eq!(analog(0.5).max_abs(Signal::Digital(true)), Signal::Digital(true));
    assert_eq!(analog(1.5).max_abs(Signal::Digital(true)), analog(1.5));
}
