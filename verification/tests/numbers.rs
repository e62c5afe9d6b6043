//! Byte counts and double-precision arithmetic.

use wsltray::double::Double;
use wsltray::memory::format_bytes;
use wsltray::natural::Natural;

fn decimal(s: &str) -> Double {
    let cs: Vec<char> = s.chars().collect();
    Double::from_decimal(&cs)
}

fn one_decimal(x: &Double) -> String {
    let mut s = String::new();
    x.push_one_decimal(&mut s);
    s
}

fn two_decimals(x: &Double) -> String {
    let mut s = String::new();
    x.push_two_decimals(&mut s);
    s
}

fn random(seed: &mut u64) -> u64 {
    *seed = seed.wrapping_mul(6364136223846793005).wrapping_add(1442695040888963407);
    let high = *seed >> 32;
    *seed = seed.wrapping_mul(6364136223846793005).wrapping_add(1442695040888963407);
    (high << 32) | (*seed >> 32)
}

#[test]
fn format_bytes_units() {
    assert_eq!(format_bytes(600 << 20), "600 MB");
    assert_eq!(format_bytes(1024 << 20), "1.00 GB");
    assert_eq!(format_bytes((5 << 30) + (1 << 29)), "5.50 GB");
}

#[test]
fn byte_counts_at_the_edges() {
    assert_eq!(format_bytes(0), "0 MB");
    assert_eq!(format_bytes((1 << 20) - 1), "0 MB");
    assert_eq!(format_bytes(1 << 20), "1 MB");
    assert_eq!(format_bytes((1 << 30) - 1), "1023 MB");
    assert_eq!(format_bytes((1 << 30) + (1 << 22)), "1.00 GB");
    assert_eq!(format_bytes((1 << 30) + 5368709), "1.00 GB");
    assert_eq!(format_bytes((1 << 30) + 5368710), "1.01 GB");
    assert_eq!(format_bytes(u64::MAX), "17179869184.00 GB");
}

#[test]
fn byte_counts_are_those_of_the_hardware() {
    let mut seed: u64 = 7;
    for _ in 0..20000 {
        let b = (random(&mut seed) >> (random(&mut seed) % 34)) | (1 << 30);
        assert_eq!(format_bytes(b), format!("{:.2} GB", b as f64 / (1u64 << 30) as f64), "{}", b);
    }
    // Exactly between two hundredths.
    for k in 0..64u64 {
        let b = (1 << 30) + k * (1 << 27);
        assert_eq!(format_bytes(b), format!("{:.2} GB", b as f64 / (1u64 << 30) as f64), "{}", b);
    }
}

#[test]
fn more_bytes_are_not_shown_as_less() {
    let shown = |b: u64| format_bytes(b).trim_end_matches(" GB").parse::<f64>().unwrap();
    let mut last = 0.0;
    for k in 0..4000u64 {
        let now = shown((1 << 30) + k * 1_000_003);
        assert!(now >= last);
        last = now;
    }
}

#[test]
fn decimals_are_those_of_the_hardware() {
    let mut seed: u64 = 11;
    for i in 0..3000 {
        let text = match i % 4 {
            0 => format!("{}.{}", random(&mut seed) % 200, random(&mut seed) % 100),
            1 => format!("{}.{}", random(&mut seed) % 100, random(&mut seed)),
            2 => format!("{}.{}5", random(&mut seed) % 1000, random(&mut seed) % 10),
            _ => format!("{}", random(&mut seed)),
        };
        let x: f64 = text.parse().unwrap();
        assert_eq!(one_decimal(&decimal(&text)), format!("{:.1}", x), "{}", text);
        assert_eq!(two_decimals(&decimal(&text)), format!("{:.2}", x), "{}", text);
    }
}

#[test]
fn ties_go_to_the_even_digit() {
    assert_eq!(one_decimal(&decimal("0.25")), "0.2");
    assert_eq!(one_decimal(&decimal("0.75")), "0.8");
    assert_eq!(two_decimals(&decimal("0.125")), "0.12");
    assert_eq!(two_decimals(&decimal("0.375")), "0.38");
    assert_eq!(one_decimal(&decimal("99.95")), format!("{:.1}", 99.95));
    assert_eq!(one_decimal(&Double::zero()), "0.0");
}

#[test]
fn arithmetic_is_that_of_the_hardware() {
    let mut seed: u64 = 23;
    for _ in 0..600 {
        let a = random(&mut seed) >> (random(&mut seed) % 63);
        let b = (random(&mut seed) >> (random(&mut seed) % 63)) | 1;
        let (x, y) = (Double::from_integer(a as u128), Double::from_integer(b as u128));
        let (fx, fy) = (a as f64, b as f64);
        let same = |d: &Double, f: f64| {
            for shift in [0u32, 20, 40, 60] {
                let scaled = f * (1u64 << shift) as f64;
                let expected = if scaled <= 9223372036854775808.0 {
                    Some(scaled.round() as u64)
                } else {
                    None
                };
                assert_eq!(d.times(1 << shift).round(), expected, "{} {}", a, b);
            }
        };
        same(&x, fx);
        same(&x.plus(&y), fx + fy);
        same(&x.over(&y), fx / fy);
        same(&x.over(&y).over(&y), fx / fy / fy);
        same(&x.times(100), fx * 100.0);
        same(&x.clone(), fx);
    }
}

#[test]
fn large_integers_round_to_the_nearest_double() {
    let limit = 1u128 << 53;
    let d = |n: u128| Double::from_integer(n).round();
    assert_eq!(d(limit), Some(1 << 53));
    assert_eq!(d(limit + 1), Some(1 << 53));
    assert_eq!(d(limit + 2), Some((1 << 53) + 2));
    assert_eq!(d(limit + 3), Some((1 << 53) + 4));
    assert_eq!(d((1 << 63) + 1024), Some(1 << 63));
    assert_eq!(d((1 << 63) + 1025), None);
    assert_eq!(d(u128::MAX), None);
}

#[test]
fn natural_numbers_of_any_size() {
    let text = |n: &Natural| {
        let mut s = String::new();
        n.push_decimal(&mut s);
        s
    };
    let big = Natural::from_u128(u128::MAX);
    assert_eq!(text(&big), u128::MAX.to_string());
    assert_eq!(text(&big.plus(&Natural::from_u32(1))), "340282366920938463463374607431768211456");
    assert_eq!(text(&Natural::from_u32(1).shifted(128)), "340282366920938463463374607431768211456");
    assert_eq!(text(&Natural::from_u64(0)), "0");
    assert_eq!(text(&big.minus(&Natural::from_u64(u64::MAX))), (u128::MAX - u64::MAX as u128).to_string());
    let (q, r) = big.div_rem(&Natural::from_u64(1_000_000_007));
    assert_eq!(text(&q), (u128::MAX / 1_000_000_007).to_string());
    assert_eq!(text(&r), (u128::MAX % 1_000_000_007).to_string());
    assert!(Natural::from_u32(3).less(&big));
    assert!(!big.less(&Natural::from_u32(3)));
    assert!(!big.less(&big.copy()));
}
