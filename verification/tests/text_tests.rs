use icie::text::{is_blank, is_whitespace, join_strings, parse_i64, parse_usize, split_at_char, starts_with, str_eq, trim, usize_string};

#[test]
fn whitespace_matches_std() {
    for c in ['\t', '\n', '\u{b}', '\u{c}', '\r', ' ', '\u{85}', '\u{a0}', '\u{1680}', '\u{2000}', '\u{200a}', '\u{2028}', '\u{2029}', '\u{202f}', '\u{205f}', '\u{3000}', 'a', '0', '\u{200b}', '\u{feff}', '\u{180e}'] {
        assert_eq!(is_whitespace(c), c.is_whitespace(), "{:?}", c);
    }
}

#[test]
fn trims_like_std() {
    for s in ["", "  ", " a ", "\ta b\n", "x", "\u{3000}y\u{3000}"] {
        assert_eq!(trim(s), s.trim());
    }
}

#[test]
fn parses_like_std() {
    for s in ["0", "12", "+7", "-7", "-0", "", "+", "-", "1a", " 1", "00012", "9223372036854775807", "9223372036854775808", "-9223372036854775808", "-9223372036854775809", "18446744073709551615", "18446744073709551616"] {
        assert_eq!(parse_i64(s), s.parse::<i64>().ok(), "{:?}", s);
        assert_eq!(parse_usize(s), s.parse::<usize>().ok(), "{:?}", s);
    }
}

#[test]
fn splits_like_std() {
    for s in ["", "a", "a.b", ".a.", "a..b"] {
        let ours = split_at_char(s, '.');
        let std: Vec<String> = s.split('.').map(str::to_owned).collect();
        assert_eq!(ours, std);
    }
}

#[test]
fn small_helpers() {
    assert!(is_blank(" \n"));
    assert!(!is_blank(" a"));
    assert!(starts_with("abc", "ab"));
    assert!(!starts_with("ab", "abc"));
    assert!(str_eq("x", "x"));
    assert!(!str_eq("x", "y"));
    assert_eq!(join_strings(&vec!["a".to_owned(), "b".to_owned(), "c".to_owned()], ", "), "a, b, c");
    assert_eq!(join_strings(&vec![], ", "), "");
    assert_eq!(usize_string(0), "0");
    assert_eq!(usize_string(1234), "1234");
}
