use jybot_rs::decimal::{decimal_u64, parse_i64, signed_decimal_i64};
use jybot_rs::text::{split_lines, trim_str};

#[test]
fn trims_unicode_whitespace() {
    assert_eq!(trim_str("\u{3000} a b\u{a0}\n"), "a b");
    assert_eq!(trim_str("   "), "");
}

#[test]
fn lines_like_std() {
    for s in ["", "a", "a\n", "a\r\nb", "a\r\r\n\nb\r", "\n\n"] {
        let v: Vec<char> = s.chars().collect();
        let got: Vec<String> = split_lines(&v).into_iter().map(|l| l.into_iter().collect()).collect();
        let want: Vec<String> = s.lines().map(|l| l.to_string()).collect();
        assert_eq!(got, want, "{s:?}");
    }
}

#[test]
fn numerals_like_std() {
    for s in ["0", "+12", "-12", "", "-", "+", "1a", "00042", "9223372036854775807", "-9223372036854775809"] {
        let v: Vec<char> = s.chars().collect();
        assert_eq!(parse_i64(&v), s.parse::<i64>().ok(), "{s}");
    }
    for n in [0i64, 7, -7, i64::MIN, i64::MAX] {
        assert_eq!(signed_decimal_i64(n).into_iter().collect::<String>(), n.to_string());
    }
    assert_eq!(decimal_u64(u64::MAX).into_iter().collect::<String>(), u64::MAX.to_string());
}
