use lib::number::{i32_to_text, parse_i32};
use lib::text::{
    is_whitespace, is_all_alphanumeric, is_all_numeric, split_chars, string_chars, strip_comment,
    strip_whitespace, trim_end,
};

fn chars(s: &str) -> Vec<char> {
    s.chars().collect()
}

fn text(v: &[char]) -> String {
    v.iter().collect()
}

#[test]
fn character_classes() {
    assert_eq!(text(&strip_whitespace(&chars(" x\u{2003}y"))), "xy");
    assert!(is_all_numeric(&chars("7\u{0663}")));
    assert!(!is_all_numeric(&chars("a")));
    assert!(is_all_alphanumeric(&chars("é")));
    assert!(!is_all_alphanumeric(&chars("[")));
    assert!(is_all_numeric(&chars("0123")));
    assert!(!is_all_numeric(&chars("01a")));
    assert!(is_all_alphanumeric(&chars("R2d2")));
    assert!(!is_all_alphanumeric(&chars("R-2")));
}

#[test]
fn string_conversions() {
    assert_eq!(string_chars("héllo"), chars("héllo"));
}

#[test]
fn splitting_keeps_empty_pieces() {
    let pieces = split_chars(&chars("a\n\nb\n"), '\n');
    let texts: Vec<String> = pieces.iter().map(|p| text(p)).collect();
    assert_eq!(texts, vec!["a", "", "b", ""]);
    assert_eq!(split_chars(&chars(""), ' ').len(), 1);
}

#[test]
fn comments_trailing_space_and_whitespace_removal() {
    assert_eq!(text(&strip_comment(&chars("ADD R1 ;; R2 ;; x"))), "ADD R1 ");
    assert_eq!(text(&strip_comment(&chars("ADD ; R1"))), "ADD ; R1");
    assert_eq!(text(&strip_comment(&chars(";"))), ";");
    assert_eq!(text(&trim_end(&chars("  a b \t\u{3000}"))), "  a b");
    assert_eq!(text(&strip_whitespace(&chars(" a\tb\u{2003}c "))), "abc");
}

#[test]
fn parsing_decimal_integers() {
    assert_eq!(parse_i32(&chars("0")), Some(0));
    assert_eq!(parse_i32(&chars("00042")), Some(42));
    assert_eq!(parse_i32(&chars("2147483647")), Some(2147483647));
    assert_eq!(parse_i32(&chars("2147483648")), None);
    assert_eq!(parse_i32(&chars("99999999999999999999")), None);
    assert_eq!(parse_i32(&chars("")), None);
    assert_eq!(parse_i32(&chars("12a")), None);
    assert_eq!(parse_i32(&chars("\u{0663}")), None);
}

#[test]
fn writing_decimal_integers() {
    assert_eq!(text(&i32_to_text(0)), "0");
    assert_eq!(text(&i32_to_text(1234)), "1234");
    assert_eq!(text(&i32_to_text(-1)), "-1");
    assert_eq!(text(&i32_to_text(i32::MIN)), "-2147483648");
    assert_eq!(text(&i32_to_text(i32::MAX)), "2147483647");
}

#[test]
fn text_then_parse_gives_back_the_number() {
    for v in [0, 7, 10, 1234, 2147483647] {
        assert_eq!(parse_i32(&i32_to_text(v)), Some(v));
    }
}

#[test]
fn whitespace_is_the_unicode_white_space_set() {
    let spaces = [
        '\t', '\n', '\u{0B}', '\u{0C}', '\r', ' ', '\u{85}', '\u{A0}', '\u{1680}', '\u{2000}',
        '\u{2005}', '\u{200A}', '\u{2028}', '\u{2029}', '\u{202F}', '\u{205F}', '\u{3000}',
    ];
    for c in spaces {
        assert!(is_whitespace(c), "{:?}", c);
    }
    let others = ['a', '0', '\u{08}', '\u{0E}', '\u{200B}', '\u{180E}', '\u{FEFF}', '\u{3001}'];
    for c in others {
        assert!(!is_whitespace(c), "{:?}", c);
    }
}
