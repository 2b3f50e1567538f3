use robot_admin::text::{
    contains, format_i64, format_u64, join, parse_i64, starts_with, str_eq, strip_prefix,
    to_chars,
};

#[test]
fn format_i64_writes_decimal() {
    assert_eq!(format_i64(0), "0");
    assert_eq!(format_i64(7), "7");
    assert_eq!(format_i64(10), "10");
    assert_eq!(format_i64(-1), "-1");
    assert_eq!(format_i64(1431648000), "1431648000");
    assert_eq!(format_i64(i64::MAX), "9223372036854775807");
    assert_eq!(format_i64(i64::MIN), "-9223372036854775808");
    assert_eq!(format_u64(u64::MAX), "18446744073709551615");
}

#[test]
fn format_i64_agrees_with_std() {
    let samples: [i64; 12] =
        [0, 1, -1, 9, 10, 99, 100, -100, 123456789, -987654321, i64::MAX, i64::MIN];
    for n in samples {
        assert_eq!(format_i64(n), n.to_string());
    }
}

#[test]
fn parse_i64_reads_what_format_writes() {
    let samples: [i64; 10] = [0, 5, -5, 42, 1000, -1000, 1431648000, i64::MAX, i64::MIN, -9];
    for n in samples {
        assert_eq!(parse_i64(&format_i64(n)), Some(n));
    }
}

#[test]
fn parse_i64_agrees_with_std() {
    let samples = [
        "", "0", "-0", "+0", "007", "+7", "-7", "--7", "+-7", "+", "-", " 7", "7 ", "7a", "a7",
        "1.5", "9223372036854775807", "9223372036854775808", "-9223372036854775808",
        "-9223372036854775809", "99999999999999999999999999", "-99999999999999999999999999",
        "\u{661}\u{662}", "1\u{a0}", "12345",
    ];
    for s in samples {
        assert_eq!(parse_i64(s), s.parse::<i64>().ok(), "for {:?}", s);
    }
}

#[test]
fn str_eq_compares_characters() {
    assert!(str_eq("", ""));
    assert!(str_eq("abc", "abc"));
    assert!(!str_eq("abc", "abd"));
    assert!(!str_eq("abc", "ab"));
    assert!(!str_eq("ab", "abc"));
    assert!(str_eq("\u{e9}t\u{e9}", "\u{e9}t\u{e9}"));
    assert!(!str_eq("\u{e9}", "e"));
}

#[test]
fn starts_with_and_strip_prefix() {
    assert!(starts_with("parameter_dx", "parameter_"));
    assert!(starts_with("parameter_", "parameter_"));
    assert!(!starts_with("parameter", "parameter_"));
    assert!(!starts_with("xparameter_", "parameter_"));
    assert!(starts_with("anything", ""));
    assert!(starts_with("", ""));
    assert!(!starts_with("", "a"));
    assert_eq!(strip_prefix("parameter_dx", "parameter_"), Some("dx".to_string()));
    assert_eq!(strip_prefix("parameter_", "parameter_"), Some(String::new()));
    assert_eq!(strip_prefix("status", "parameter_"), None);
    assert_eq!(strip_prefix("parameter_\u{e9}t\u{e9}", "parameter_"), Some("\u{e9}t\u{e9}".to_string()));
    assert_eq!(strip_prefix("\u{e9}t\u{e9}!", "\u{e9}t"), Some("\u{e9}!".to_string()));
}

#[test]
fn contains_finds_a_needle_anywhere() {
    assert!(contains("status: transport error, try again", "transport error"));
    assert!(contains("transport error", "transport error"));
    assert!(contains("xx connection refused", "connection refused"));
    assert!(!contains("transport erro", "transport error"));
    assert!(!contains("", "a"));
    assert!(contains("", ""));
    assert!(contains("abc", ""));
    assert!(contains("aab", "ab"));
    assert!(!contains("aba", "bb"));
    for (s, n) in [("hello world", "o w"), ("hello", "lo"), ("hello", "hello!"), ("a\u{e9}b", "\u{e9}")] {
        assert_eq!(contains(s, n), s.contains(n));
    }
}

#[test]
fn join_and_to_chars() {
    assert_eq!(join("parameter_", "dx"), "parameter_dx");
    assert_eq!(join("", ""), "");
    assert_eq!(to_chars("a\u{e9}b"), vec!['a', '\u{e9}', 'b']);
    assert_eq!(to_chars(""), Vec::<char>::new());
}
