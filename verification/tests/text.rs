//! Numbers and words.
use paddock_engine::text::{
    as_f64, capitalize, chars_of, contains_upper, decimal_text, parse_unsigned, push_decimal, push_gib, push_mib, same,
};

#[test]
fn decimals_agree_with_the_formatter() {
    for n in [0u64, 1, 9, 10, 99, 12_345, u64::MAX] {
        assert_eq!(decimal_text(n), n.to_string());
        assert_eq!(parse_unsigned(&n.to_string(), u64::MAX), Some(n));
    }
    let mut s = "n=".to_owned();
    push_decimal(&mut s, 42);
    assert_eq!(s, "n=42");
}

#[test]
fn numbers_are_read_as_the_standard_parser_reads_them() {
    for s in ["", "+", "-", "0", "+0", "007", "18446744073709551615", "18446744073709551616", "1 ", "1_0", "\u{661}"] {
        assert_eq!(parse_unsigned(s, u64::MAX), s.parse::<u64>().ok(), "{s}");
        assert_eq!(parse_unsigned(s, u32::MAX as u64), s.parse::<u32>().ok().map(u64::from), "{s}");
    }
}

#[test]
fn two_decimals_agree_with_the_formatter() {
    let mut n = 1u64;
    for step in 0..400u64 {
        n = n.wrapping_mul(6_364_136_223_846_793_005).wrapping_add(1_442_695_040_888_963_407);
        let bytes = n >> (step % 64);
        let mut g = String::new();
        push_gib(&mut g, bytes);
        assert_eq!(g, format!("{:.2}", bytes as f64 / (1u64 << 30) as f64), "{bytes}");
        let mut m = String::new();
        push_mib(&mut m, bytes);
        assert_eq!(m, format!("{:.2}", bytes as f64 / (1u64 << 20) as f64), "{bytes}");
    }
    // ties go to even in binary before the decimals are cut
    for bytes in [5_368_709u64, 16_106_127, (1 << 53) + 1, (1 << 53) + 3, u64::MAX] {
        let mut g = String::new();
        push_gib(&mut g, bytes);
        assert_eq!(g, format!("{:.2}", bytes as f64 / (1u64 << 30) as f64), "{bytes}");
    }
}

#[test]
fn rounding_is_the_hardwares() {
    for n in [0u64, 1, (1 << 53) - 1, 1 << 53, (1 << 53) + 1, (1 << 53) + 2, (1 << 53) + 3, (1 << 60) + 129, u64::MAX] {
        assert_eq!(as_f64(n as u128), n as f64 as u128, "{n}");
    }
}

#[test]
fn words() {
    assert_eq!(capitalize("lower max_ctx"), "Lower max_ctx");
    assert_eq!(capitalize(""), "");
    assert_eq!(capitalize("\u{df}a"), "SSa");
    assert_eq!(capitalize("9x"), "9x");
    assert_eq!(chars_of("a\u{e9}"), vec!['a', '\u{e9}']);
    assert!(contains_upper("xOut_oF", "OUT_OF"));
    assert!(contains_upper("abc", ""));
    assert!(!contains_upper("", "A"));
    assert!(same("on", "on") && !same("on", "o") && !same("on", "no"));
}
