//! The library's arithmetic against the hardware's.
use ebpf_xdp_program::binary64::Binary64;
use ebpf_xdp_program::text::fixed::fixed_text;

fn b(x: f64) -> Binary64 {
    Binary64::from_bits(x.to_bits())
}

/// A pseudo-random sequence of bit patterns.
fn patterns(mut seed: u64, n: usize) -> Vec<u64> {
    let mut r = Vec::new();
    for _ in 0..n {
        seed ^= seed << 13;
        seed ^= seed >> 7;
        seed ^= seed << 17;
        r.push(seed);
    }
    r
}

/// Numbers at the edges of the format, and a pseudo-random lot of others.
fn samples() -> Vec<f64> {
    let mut r = vec![
        0.0,
        -0.0,
        1.0,
        -1.0,
        0.1,
        0.2,
        3.0,
        10.0,
        1e-9,
        1e9,
        1.4826,
        f64::MIN_POSITIVE,
        f64::MAX,
        f64::MIN,
        f64::EPSILON,
        f64::INFINITY,
        f64::NEG_INFINITY,
        f64::NAN,
        f64::from_bits(1),
        f64::from_bits(0x000f_ffff_ffff_ffff),
        f64::from_bits(0x8000_0000_0000_0001),
        9_007_199_254_740_993.0,
        4_503_599_627_370_497.5,
    ];
    for p in patterns(0x9e37_79b9_7f4a_7c15, 60) {
        r.push(f64::from_bits(p));
        // Numbers of everyday size.
        r.push((p % 2_000_000) as f64 / 64.0 - 9_000.0);
    }
    r
}

fn same(ours: Binary64, theirs: f64) -> bool {
    ours.to_bits() == theirs.to_bits() || (ours.is_nan() && theirs.is_nan())
}

#[test]
fn sums_and_differences_are_those_of_the_hardware() {
    for x in samples() {
        for y in samples() {
            assert!(same(b(x).plus(b(y)), x + y), "{} + {}", x, y);
            assert!(same(b(x).minus(b(y)), x - y), "{} - {}", x, y);
        }
    }
}

#[test]
fn products_and_quotients_are_those_of_the_hardware() {
    for x in samples() {
        for y in samples() {
            assert!(same(b(x).times(b(y)), x * y), "{} * {}", x, y);
            assert!(same(b(x).over(b(y)), x / y), "{} / {}", x, y);
        }
    }
}

#[test]
fn square_roots_are_those_of_the_hardware() {
    for x in samples() {
        assert!(same(b(x).sqrt(), x.sqrt()), "sqrt {}", x);
        assert!(same(b(x.abs()).sqrt(), x.abs().sqrt()), "sqrt {}", x.abs());
    }
    assert_eq!(b(2.0).sqrt().to_bits(), 0x3ff6_a09e_667f_3bcd);
}

#[test]
fn order_and_signs_are_those_of_the_hardware() {
    for x in samples() {
        assert_eq!(b(x).is_nan(), x.is_nan());
        assert_eq!(b(x).is_finite(), x.is_finite());
        assert!(same(b(x).abs(), x.abs()));
        assert!(same(b(x).neg(), -x));
        for y in samples() {
            assert_eq!(b(x).lt(b(y)), x < y);
            assert_eq!(b(x).le(b(y)), x <= y);
            assert_eq!(b(x).gt(b(y)), x > y);
            assert_eq!(b(x).ge(b(y)), x >= y);
            assert_eq!(b(x) == b(y), x == y);
            // Of two zeros either may be the larger.
            if !(x == 0.0 && y == 0.0) {
                assert!(same(b(x).max(b(y)), x.max(y)), "max {} {}", x, y);
                assert!(same(b(x).min(b(y)), x.min(y)), "min {} {}", x, y);
            }
            if x <= y {
                assert!(same(b(0.5).clamp(b(x), b(y)), 0.5f64.clamp(x, y)));
            }
        }
    }
}

#[test]
fn whole_numbers_are_rounded_as_the_hardware_does() {
    let mut all = vec![0, 1, 2, 3, u64::MAX, u64::MAX - 1, 1 << 53, (1 << 53) + 1, (1 << 53) + 3];
    all.extend(patterns(88_172_645_463_325_252, 200));
    for n in all {
        assert_eq!(Binary64::from_u64(n).to_bits(), (n as f64).to_bits(), "{}", n);
    }
}

#[test]
fn named_numbers_are_what_they_are_named() {
    let named = [
        (Binary64::zero(), 0.0),
        (Binary64::one(), 1.0),
        (Binary64::two(), 2.0),
        (Binary64::three(), 3.0),
        (Binary64::six(), 6.0),
        (Binary64::ten(), 10.0),
        (Binary64::hundred(), 100.0),
        (Binary64::billion(), 1e9),
        (Binary64::thousandth(), 1e-3),
        (Binary64::millionth(), 1e-6),
        (Binary64::billionth(), 1e-9),
        (Binary64::quarter(), 0.25),
        (Binary64::two_fifths(), 0.4),
        (Binary64::three_fifths(), 0.6),
        (Binary64::mad_factor(), 1.4826),
    ];
    for (ours, theirs) in named {
        assert_eq!(ours.to_bits(), f64::to_bits(theirs));
    }
}

#[test]
fn decimal_places_are_those_of_the_formatter() {
    let mut all = samples();
    all.extend([0.0005, 0.0015, 0.5, 1.5, 2.5, 0.05, 0.25, 0.35, 0.125, 0.375, 999.9996, 0.9996]);
    for x in all {
        assert_eq!(fixed_text(b(x), 1), format!("{:.1}", x));
        assert_eq!(fixed_text(b(x), 2), format!("{:.2}", x));
        assert_eq!(fixed_text(b(x), 3), format!("{:.3}", x));
    }
}

#[test]
fn sums_of_positive_numbers_do_not_shrink() {
    for x in samples() {
        for y in samples() {
            if x >= 0.0 && y >= 0.0 && !x.is_sign_negative() && !y.is_sign_negative() {
                assert!(b(x).le(b(x).plus(b(y))));
            }
        }
    }
}
