//! Text as sequences of characters.
use miden_debug::text::{
    chars_of, ends_with, find, not_after, pad_left, parse_number, part_behind_last,
    render, render_decimal, render_usize, repeat, same, split_once, starts_with,
    string_of, to_lower, trim, NumberError,
};

#[test]
fn texts_are_taken_apart_and_put_together() {
    let chars = chars_of("häuser");
    assert_eq!(chars.len(), 6);
    assert_eq!(string_of(&chars, 1, 3), "äu");
    assert_eq!(miden_debug::text::concat("ab", "cd"), "abcd");
    assert_eq!(part_behind_last("a/b/c.masm", '/'), "c.masm");
    assert_eq!(part_behind_last("c.masm", '/'), "c.masm");
    assert_eq!(part_behind_last("a/", '/'), "");
}

#[test]
fn texts_are_searched() {
    assert!(same("a", "a"));
    assert!(!same("a", "b"));
    assert!(starts_with("0xabc", "0x"));
    assert!(ends_with("src/main.masm", "main.masm"));
    assert!(!ends_with("masm", "main.masm"));
    assert_eq!(find("a::b::c", "::"), Some(1));
    assert_eq!(find("abc", "x"), None);
    assert_eq!(split_once("a=b=c", "="), Some(("a".into(), "b=c".into())));
    assert_eq!(split_once("abc", "="), None);
}

#[test]
fn texts_are_ordered_by_their_first_difference() {
    assert!(not_after("abc", "abd"));
    assert!(not_after("ab", "abc"));
    assert!(not_after("abc", "abc"));
    assert!(!not_after("b", "abc"));
}

#[test]
fn white_space_and_case_are_dealt_with() {
    assert_eq!(trim("  a b\t\n"), "a b");
    assert_eq!(trim("\u{2003}x\u{a0}"), "x");
    assert_eq!(to_lower("0xAbC"), "0xabc");
}

#[test]
fn numbers_are_written_and_read() {
    assert_eq!(render(255, 16), "ff");
    assert_eq!(render(5, 2), "101");
    assert_eq!(render_decimal(0), "0");
    assert_eq!(render_decimal(u64::MAX), "18446744073709551615");
    assert_eq!(render_usize(42), "42");
    assert_eq!(repeat(' ', 3), "   ");
    assert_eq!(pad_left("7", '0', 3), "007");
    assert_eq!(pad_left("1234", '0', 3), "1234");
    assert_eq!(parse_number("18446744073709551615", u64::MAX), Ok(u64::MAX));
    assert_eq!(parse_number("+5", u64::MAX), Ok(5));
    assert_eq!(parse_number("", 9), Err(NumberError::Empty));
    assert_eq!(parse_number("1x", 99), Err(NumberError::InvalidDigit));
    assert_eq!(parse_number("-1", 99), Err(NumberError::InvalidDigit));
    assert_eq!(parse_number("100", 99), Err(NumberError::TooLarge));
}

#[test]
fn faulty_numbers_are_described_as_std_does() {
    let std_text = |s: &str| s.parse::<usize>().unwrap_err().to_string();
    assert_eq!(NumberError::Empty.message(), std_text(""));
    assert_eq!(NumberError::InvalidDigit.message(), std_text("x"));
    assert_eq!(NumberError::TooLarge.message(), std_text("99999999999999999999999"));
}
