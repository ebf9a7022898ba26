use yp_quote::text::{
    chars_eq_ignore_case, chars_of, is_whitespace, join_strings,
    parse_unsigned_chars, push_decimal, split_chars, tokens_of, trim_chars,
};

fn s(v: &[&str]) -> Vec<String> {
    v.iter().map(|x| x.to_string()).collect()
}

fn text(v: &Vec<char>) -> String {
    v.iter().collect()
}

#[test]
fn whitespace_follows_unicode() {
    assert!(is_whitespace(' '));
    assert!(is_whitespace('\t'));
    assert!(is_whitespace('\n'));
    assert!(is_whitespace('\u{85}'));
    assert!(is_whitespace('\u{3000}'));
    assert!(!is_whitespace('a'));
    assert!(!is_whitespace('\u{200B}'));
    for c in ['x', ' ', '\u{A0}', '\u{2009}', '\u{1680}', '|', ','] {
        assert_eq!(is_whitespace(c), c.is_whitespace());
    }
}

#[test]
fn trim_matches_std() {
    for t in ["  Ping \r\n", "", "   ", "a b", "\u{3000}x\u{85}"] {
        assert_eq!(text(&trim_chars(&chars_of(t))), t.trim());
    }
}

#[test]
fn split_keeps_empty_pieces() {
    assert_eq!(split_chars(&chars_of("AAPL,,MSFT"), ','), s(&["AAPL", "", "MSFT"]));
    assert_eq!(split_chars(&chars_of(""), ','), s(&[""]));
    assert_eq!(split_chars(&chars_of("a|b|c|d"), '|'), s(&["a", "b", "c", "d"]));
}

#[test]
fn tokens_match_split_whitespace() {
    for t in ["STREAM 127.0.0.1:1 AAPL", "  a\t b  c ", "", "one"] {
        let expected: Vec<String> = t.split_whitespace().map(|x| x.to_string()).collect();
        assert_eq!(tokens_of(&chars_of(t)), expected);
    }
}

#[test]
fn ignore_case_compares_ascii_letters_only() {
    assert!(chars_eq_ignore_case(&chars_of("PiNG"), &chars_of("ping")));
    assert!(!chars_eq_ignore_case(&chars_of("Pings"), &chars_of("ping")));
    assert!(!chars_eq_ignore_case(&chars_of("É"), &chars_of("é")));
    assert!(chars_eq_ignore_case(&chars_of(""), &chars_of("")));
}

#[test]
fn join_puts_separator_between() {
    assert_eq!(join_strings(&s(&["AAPL", "MSFT"]), ","), "AAPL,MSFT");
    assert_eq!(join_strings(&s(&["*"]), ","), "*");
    assert_eq!(join_strings(&Vec::new(), ","), "");
}

#[test]
fn decimal_text_and_back() {
    let mut v = Vec::new();
    push_decimal(&mut v, 0);
    assert_eq!(text(&v), "0");
    push_decimal(&mut v, 34254);
    assert_eq!(text(&v), "034254");
    let mut w = Vec::new();
    push_decimal(&mut w, u64::MAX);
    assert_eq!(text(&w), u64::MAX.to_string());
    assert_eq!(parse_unsigned_chars(&chars_of("+17"), 100), Some(17));
    assert_eq!(parse_unsigned_chars(&chars_of("101"), 100), None);
    assert_eq!(parse_unsigned_chars(&chars_of("4294967295"), u32::MAX as u64), Some(4294967295));
    assert_eq!(parse_unsigned_chars(&chars_of("4294967296"), u32::MAX as u64), None);
    assert_eq!(parse_unsigned_chars(&chars_of("18446744073709551615"), u64::MAX), Some(u64::MAX));
    assert_eq!(parse_unsigned_chars(&chars_of("18446744073709551616"), u64::MAX), None);
    assert_eq!(parse_unsigned_chars(&chars_of("99999999999999999999x"), u64::MAX), None);
    for t in ["", "+", "-1", " 1", "1 ", "1a", "++1"] {
        assert_eq!(parse_unsigned_chars(&chars_of(t), u64::MAX), None, "{t:?}");
    }
}
