use codex_plus_core::text::{
    before_first, contains, decimal_text, ends_with, equal_ignoring_ascii_case, lines,
    parse_number, same_text, split_once, starts_with, to_ascii_lowercase, trim, trim_end_char,
    trim_start_text, white_space, words,
};

#[test]
fn texts_are_trimmed_like_strings() {
    for s in ["", "  ", " a b ", "\u{3000}\u{a0}x\u{2028}", "\u{200b}y", "\u{85}z\u{1680}", "\0"] {
        assert_eq!(trim(s), s.trim());
    }
}

#[test]
fn white_space_is_that_of_unicode() {
    let mut code: u32 = 0;
    while code < 0x110000 {
        if let Some(c) = char::from_u32(code) {
            assert_eq!(white_space(c), c.is_whitespace());
        }
        code += 1;
    }
}

#[test]
fn texts_are_split_like_strings() {
    for s in ["", "a", "a\n", "a\r\nb\rc\n\nd", "\n", "\r\n\r\n", "x\r", "  one\ttwo \u{3000}three"] {
        assert_eq!(lines(s), s.lines().map(|line| line.to_string()).collect::<Vec<_>>());
        assert_eq!(
            words(s),
            s.split_whitespace().map(|word| word.to_string()).collect::<Vec<_>>()
        );
    }
}

#[test]
fn parts_are_found() {
    assert!(contains("hello", "ell"));
    assert!(contains("hello", ""));
    assert!(contains("", ""));
    assert!(!contains("hello", "hello!"));
    assert!(starts_with("hello", "he"));
    assert!(!starts_with("hello", "el"));
    assert!(ends_with("hello", "lo"));
    assert!(!ends_with("lo", "hello"));
    assert!(same_text("é", "é"));
    assert!(!same_text("é", "e"));
}

#[test]
fn only_ascii_letters_change_their_case() {
    assert_eq!(to_ascii_lowercase("AbZ[É"), "AbZ[É".to_ascii_lowercase());
    assert!(equal_ignoring_ascii_case("Codex.EXE", "codex.exe"));
    assert!(!equal_ignoring_ascii_case("É", "é"));
}

#[test]
fn texts_are_cut() {
    assert_eq!(trim_end_char("a//", '/'), "a");
    assert_eq!(trim_end_char("//", '/'), "");
    assert_eq!(trim_start_text("/v1/v1/x", "/v1"), "/v1/v1/x".trim_start_matches("/v1"));
    assert_eq!(before_first("a?b?c", '?'), "a");
    assert_eq!(before_first("abc", '?'), "abc");
    assert_eq!(split_once("a:b:c", ':'), Some(("a".to_string(), "b:c".to_string())));
    assert_eq!(split_once("abc", ':'), None);
}

#[test]
fn numbers_are_written_and_read() {
    for n in [0, 7, 10, 65535, u64::MAX] {
        assert_eq!(decimal_text(n), n.to_string());
        assert_eq!(parse_number(&n.to_string(), u64::MAX), Some(n));
    }
    for s in ["", "+", "+5", "-5", "5 ", "007", "4294967295", "4294967296", "99999999999999999999999", "٣"] {
        assert_eq!(parse_number(s, u32::MAX as u64), s.parse::<u32>().ok().map(u64::from));
    }
}
