use flaky::text::{trim_text, int_string, join_texts, parse_i64, split_text, split_words, utf8_len, has_char};

#[test]
fn parsing_integers() {
    assert_eq!(parse_i64("42"), Some(42));
    assert_eq!(parse_i64("-7"), Some(-7));
    assert_eq!(parse_i64("+5"), Some(5));
    assert_eq!(parse_i64("007"), Some(7));
    assert_eq!(parse_i64(""), None);
    assert_eq!(parse_i64("-"), None);
    assert_eq!(parse_i64("+"), None);
    assert_eq!(parse_i64("12a"), None);
    assert_eq!(parse_i64(" 1"), None);
    assert_eq!(parse_i64("1_000"), None);
    assert_eq!(parse_i64("9223372036854775807"), Some(i64::MAX));
    assert_eq!(parse_i64("9223372036854775808"), None);
    assert_eq!(parse_i64("-9223372036854775808"), Some(i64::MIN));
    assert_eq!(parse_i64("-9223372036854775809"), None);
    assert_eq!(parse_i64("99999999999999999999999x"), None);
}

#[test]
fn parsing_agrees_with_std() {
    for s in ["0", "-0", "+0", "12", "-12", "x", "", "--1", "+-1", "18446744073709551616", "٣"] {
        assert_eq!(parse_i64(s), s.parse::<i64>().ok(), "{s}");
    }
}

#[test]
fn integers_written() {
    assert_eq!(int_string(0), "0");
    assert_eq!(int_string(-15), "-15");
    assert_eq!(int_string(i64::MIN), i64::MIN.to_string());
    assert_eq!(int_string(i64::MAX), i64::MAX.to_string());
}

#[test]
fn split_then_join_round_trips() {
    for s in ["a.b.c", "", ".", "a..b", ".lead", "trail."] {
        let parts = split_text(s, '.');
        let expect: Vec<String> = s.split('.').map(|p| p.to_string()).collect();
        assert_eq!(parts, expect);
        assert_eq!(join_texts(&parts, "."), s);
    }
}

#[test]
fn words_like_std() {
    for s in ["  a b\tc\n", "", "   ", "x", "a\u{3000}b"] {
        let expect: Vec<String> = s.split_whitespace().map(|p| p.to_string()).collect();
        assert_eq!(split_words(s), expect);
    }
}

#[test]
fn lengths_and_chars() {
    assert_eq!(utf8_len("héllo"), Some(6));
    assert_eq!(utf8_len(""), Some(0));
    assert!(has_char("a.b", '.'));
    assert!(!has_char("ab", '.'));
}

#[test]
fn trimming_like_std() {
    for s in ["  a b  ", "", "   ", "x", "\u{3000}x\u{2003}", "\n\tmid dle\r\n"] {
        assert_eq!(trim_text(s), s.trim());
    }
}
