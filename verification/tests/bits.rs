//! Bytes, numbers by their bits, and texts.

use tyler::bytes::{pad_to, push_all, push_u16_le, push_u32_le, read_f64, read_u16_le, read_u32};
use tyler::float_bits::{
    eq_f64, is_finite_f64, is_nan_f32, is_nan_f64, le_f64, lt_f32, lt_f64, max_f32, max_f64,
    min_f32, min_f64,
};
use tyler::text::{
    begins_with, chars_of, comes_before, find_bytes, number_text, read_digits, same_text,
};

#[test]
fn reads_both_orders() {
    let b = [1u8, 2, 3, 4];
    assert_eq!(read_u32(&b, 0, true), 0x0403_0201);
    assert_eq!(read_u32(&b, 0, false), 0x0102_0304);
    assert_eq!(read_u16_le(&b, 1), 0x0302);
    let f = 1.5f64;
    assert_eq!(read_f64(&f.to_le_bytes(), 0, true), f.to_bits());
    assert_eq!(read_f64(&f.to_be_bytes(), 0, false), f.to_bits());
}

#[test]
fn writes_little_endian() {
    let mut out = vec![9u8];
    push_u16_le(&mut out, 0x0102);
    push_u32_le(&mut out, 0x0304_0506);
    push_all(&mut out, &[7, 8]);
    assert_eq!(out, vec![9, 2, 1, 6, 5, 4, 3, 7, 8]);
    pad_to(&mut out, 0, 4, 0x20);
    assert_eq!(out[9..], [0x20, 0x20, 0x20]);
    pad_to(&mut out, 28, 8, 0);
    assert_eq!(out.len(), 12);
    pad_to(&mut out, 0, 8, 1);
    assert_eq!(out.len(), 16);
    assert_eq!(out[12..], [1, 1, 1, 1]);
}

fn samples() -> Vec<f64> {
    vec![
        f64::NEG_INFINITY,
        f64::MIN,
        -1.5,
        -f64::MIN_POSITIVE / 4.0,
        -0.0,
        0.0,
        f64::MIN_POSITIVE / 4.0,
        2.0,
        f64::MAX,
        f64::INFINITY,
        f64::NAN,
        -f64::NAN,
    ]
}

#[test]
fn doubles_are_compared_by_value() {
    for a in samples() {
        assert_eq!(is_nan_f64(a.to_bits()), a.is_nan());
        assert_eq!(is_finite_f64(a.to_bits()), a.is_finite());
        for b in samples() {
            let (x, y) = (a.to_bits(), b.to_bits());
            assert_eq!(lt_f64(x, y), a < b);
            assert_eq!(le_f64(x, y), a <= b);
            assert_eq!(eq_f64(x, y), a == b);
            let (low, high) = (f64::from_bits(min_f64(x, y)), f64::from_bits(max_f64(x, y)));
            assert!(low == a.min(b) || (low.is_nan() && a.min(b).is_nan()));
            assert!(high == a.max(b) || (high.is_nan() && a.max(b).is_nan()));
        }
    }
}

#[test]
fn singles_are_compared_by_value() {
    for a in samples() {
        let a = a as f32;
        assert_eq!(is_nan_f32(a.to_bits()), a.is_nan());
        for b in samples() {
            let b = b as f32;
            let (x, y) = (a.to_bits(), b.to_bits());
            assert_eq!(lt_f32(x, y), a < b);
            let (low, high) = (f32::from_bits(min_f32(x, y)), f32::from_bits(max_f32(x, y)));
            assert!(low == a.min(b) || (low.is_nan() && a.min(b).is_nan()));
            assert!(high == a.max(b) || (high.is_nan() && a.max(b).is_nan()));
        }
    }
}

#[test]
fn texts_are_compared_by_character() {
    assert!(same_text("caf\u{e9}", "caf\u{e9}"));
    assert!(!same_text("cafe", "caf\u{e9}"));
    assert!(begins_with("rf_rmse_lod12", "rf_rmse_"));
    assert!(begins_with("x", ""));
    assert!(!begins_with("rf", "rf_"));
    assert_eq!(chars_of("a\u{e9}b"), vec!['a', '\u{e9}', 'b']);
    for (a, b) in [("", "a"), ("a", "ab"), ("Z", "a"), ("b", "\u{e9}"), ("a", "a")] {
        let (x, y) = (chars_of(a), chars_of(b));
        assert_eq!(comes_before(&x, &y), a < b);
        assert_eq!(comes_before(&y, &x), b < a);
    }
}

#[test]
fn numbers_are_written_and_read() {
    for n in [0u64, 7, 10, 4294967296, u64::MAX] {
        assert_eq!(number_text(n), n.to_string());
    }
    assert_eq!(read_digits(b"ab12c", 2, 100), Some(12));
    assert_eq!(read_digits(b"ab12c", 0, 100), None);
    assert_eq!(read_digits(b"101", 0, 100), None);
    assert_eq!(read_digits(b"0000000000100", 0, 100), Some(100));
    assert_eq!(find_bytes(b"abcabc", b"ca"), Some(2));
    assert_eq!(find_bytes(b"abcabc", b"cb"), None);
    assert_eq!(find_bytes(b"ab", b"abc"), None);
}
