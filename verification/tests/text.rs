use taylorchat::text::{
    contains_str, decimal_padded_string, decimal_string, ends_with, first_chars, is_alphanumeric,
    is_blank, is_whitespace, signed_decimal_string, starts_with, text_from_bytes, to_lower,
    trim_str,
};

#[test]
fn white_space_is_unicode_white_space() {
    assert_eq!(trim_str("\u{3000} abc\t\u{a0}\n"), "abc");
    assert!(is_whitespace('\u{2003}'));
    assert!(!is_whitespace('x'));
    assert!(is_blank(" \u{85}\r\n"));
    assert!(!is_blank(" a "));
}

#[test]
fn letters_and_digits_of_any_script() {
    assert!(is_alphanumeric('ç'));
    assert!(is_alphanumeric('٣'));
    assert!(!is_alphanumeric('-'));
    assert!(!is_alphanumeric('🎨'));
}

#[test]
fn lower_case_of_any_script() {
    assert_eq!(to_lower("FOTO.PNG"), "foto.png");
    assert_eq!(to_lower("ÁGUA Ä"), "água ä");
}

#[test]
fn bytes_that_are_not_utf8_are_replaced() {
    assert_eq!(text_from_bytes(b"ok"), "ok");
    assert_eq!(text_from_bytes(&[b'a', 0xff, b'b']), "a\u{fffd}b");
}

#[test]
fn searching_in_text() {
    assert!(contains_str("bom dia", "m d"));
    assert!(!contains_str("bom dia", "noite"));
    assert!(contains_str("x", ""));
    assert!(starts_with("chat-1.db", "chat-"));
    assert!(ends_with("chat-1.db", ".db"));
    assert!(!ends_with("db", "x.db"));
    assert_eq!(first_chars("ação", 2), "aç");
}

#[test]
fn decimal_numbers() {
    assert_eq!(decimal_string(0), "0");
    assert_eq!(decimal_string(u64::MAX), "18446744073709551615");
    assert_eq!(decimal_padded_string(7, 2), "07");
    assert_eq!(decimal_padded_string(123, 2), "123");
    assert_eq!(signed_decimal_string(i64::MIN), "-9223372036854775808");
    assert_eq!(signed_decimal_string(-5), "-5");
}

#[test]
fn white_space_agrees_with_std_on_every_char() {
    for c in (0u32..=0x10FFFF).filter_map(char::from_u32) {
        assert_eq!(is_whitespace(c), c.is_whitespace(), "{:?}", c);
    }
    assert!(is_whitespace('\u{85}') && is_whitespace('\u{3000}'));
    assert!(!is_whitespace('\u{200B}') && !is_whitespace('\u{180E}'));
}
