use taurin::numbers::{decimal_chars, parse_usize};
use taurin::text::{chars_of, split_lines, str_eq, trim_str};

fn chars(s: &str) -> Vec<char> {
    s.chars().collect()
}

#[test]
fn trim_removes_unicode_white_space() {
    assert_eq!(trim_str("  a b \t\n"), "a b");
    assert_eq!(trim_str("\u{85}\u{a0}x\u{2028}\u{3000}"), "x");
    assert_eq!(trim_str("   "), "");
    assert_eq!(trim_str("\u{200b}x"), "\u{200b}x");
}

#[test]
fn lines_follow_std() {
    for text in ["", "a", "a\n", "a\nb", "a\r\nb\r\n", "\n\n", "a\r", "a\r\r\n", "\r\n"] {
        let expected: Vec<Vec<char>> = text.lines().map(chars).collect();
        assert_eq!(split_lines(&chars(text)), expected, "lines of {:?}", text);
    }
}

#[test]
fn chars_and_equality() {
    assert_eq!(chars_of("héllo"), chars("héllo"));
    assert!(str_eq("abc", "abc"));
    assert!(!str_eq("abc", "abd"));
    assert!(!str_eq("abc", "ab"));
}

#[test]
fn parse_usize_follows_std() {
    for text in ["0", "42", "+7", "007", "", "+", "-1", " 1", "1 ", "12a", "18446744073709551615", "18446744073709551616", "99999999999999999999"] {
        assert_eq!(parse_usize(&chars(text)), text.parse::<usize>().ok(), "parse of {:?}", text);
    }
}

#[test]
fn decimal_follows_to_string() {
    for n in [0usize, 7, 10, 99, 100, 65535, usize::MAX] {
        assert_eq!(decimal_chars(n), chars(&n.to_string()));
    }
}
