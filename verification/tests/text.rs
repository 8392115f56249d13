//! Texts and numbers as they are read and shown.

use rustydlp::readout::{byte_units, human_duration};
use rustydlp::text::{
    decimal_i64, is_before, join, lines, padded_u64, parse_u32, split, split_trimmed, trim, words,
};
use rustydlp::ytdlp::{Double, Single};

fn double(v: f64) -> Double {
    Double { bits: v.to_bits() }
}

fn single(v: f32) -> Single {
    Single { bits: v.to_bits() }
}

#[test]
fn durations_read_like_a_clock() {
    assert_eq!(human_duration(double(0.0)), "0:00");
    assert_eq!(human_duration(double(65.9)), "1:05");
    assert_eq!(human_duration(double(3600.0)), "1:00:00");
    assert_eq!(human_duration(double(36_125.0)), "10:02:05");
    assert_eq!(human_duration(double(-3.0)), "0:00");
    assert_eq!(human_duration(double(f64::NAN)), "0:00");
}

#[test]
fn bytes_are_told_in_the_largest_unit_that_fits() {
    let shown = |n: f64| {
        let (v, unit) = byte_units(double(n));
        format!("{:.1} {}", f64::from_bits(v.bits), unit)
    };
    assert_eq!(shown(0.0), "0.0 B");
    assert_eq!(shown(1023.0), "1023.0 B");
    assert_eq!(shown(1536.0), "1.5 KB");
    assert_eq!(shown(5.0 * 1024.0 * 1024.0), "5.0 MB");
    assert_eq!(shown(3.0 * 1024f64.powi(3)), "3.0 GB");
}

#[test]
fn numbers_are_compared_as_the_machine_does() {
    let values = [
        f32::NEG_INFINITY,
        -1.5,
        -0.0,
        0.0,
        1e-30,
        2.5,
        f32::INFINITY,
        f32::NAN,
    ];
    for a in values {
        for b in values {
            assert_eq!(single(a).is_below(single(b)), a < b, "{a} < {b}");
            assert_eq!(single(a).is_at_most(single(b)), a <= b, "{a} <= {b}");
            assert_eq!(single(a).is_equal(single(b)), a == b, "{a} == {b}");
        }
        assert_eq!(single(a).not_a_number(), a.is_nan());
        assert_eq!(single(a).is_at_most_zero(), a <= 0.0);
    }
    assert_eq!(single(f32::NAN).or_larger(single(1.0)), single(1.0));
    assert_eq!(single(2.0).or_smaller(single(1.0)), single(1.0));
    assert_eq!(single(1.5).clamp_unit(), single(1.0));
    assert_eq!(single(-1.5).clamp_unit(), single(0.0));
    for d in [0.0, 1.0, 2.75, -4.0, 1e18, 1e300, f64::NAN] {
        assert_eq!(double(d).whole(), d as u64, "{d}");
        assert_eq!(double(d).is_positive(), d > 0.0, "{d}");
    }
}

#[test]
fn texts_fall_apart_and_come_together_again() {
    assert_eq!(trim(" \t a b\u{a0}\n"), "a b");
    assert_eq!(split("a,,b", ','), ["a", "", "b"]);
    assert_eq!(split_trimmed(" en, pl ,,", ','), ["en", "pl"]);
    assert_eq!(words("  --a  b\tc "), ["--a", "b", "c"]);
    assert_eq!(lines("a\r\nb\n\nc"), ["a", "b", "", "c"]);
    assert_eq!(join(&vec!["a".to_string(), "b".to_string()], " | "), "a | b");
    assert_eq!(decimal_i64(-12), "-12");
    assert_eq!(decimal_i64(i64::MIN), i64::MIN.to_string());
    assert_eq!(padded_u64(5, 2), "05");
    assert_eq!(padded_u64(123, 2), "123");
}

#[test]
fn heights_are_read_as_whole_numbers() {
    assert_eq!(parse_u32("1080"), Some(1080));
    assert_eq!(parse_u32("4294967295"), Some(u32::MAX));
    for bad in ["", "4294967296", "-1", "12a", "1.5", " 1"] {
        assert_eq!(parse_u32(bad), bad.parse::<u32>().ok(), "{bad}");
    }
}

#[test]
fn texts_are_ordered_by_their_characters() {
    for (a, b) in [("a", "b"), ("B", "a"), ("a", "ab"), ("", "a"), ("z", "ż"), ("a", "a")] {
        assert_eq!(is_before(a, b), a < b, "{a} {b}");
        assert_eq!(is_before(b, a), b < a, "{b} {a}");
    }
}
