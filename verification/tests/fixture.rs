//! Captures as text.

use bsdroid::fixture::{hex_value, load, FixtureError};

#[test]
fn a_digit_reads_in_either_case() {
    assert_eq!(hex_value(b'0'), 0);
    assert_eq!(hex_value(b'9'), 9);
    assert_eq!(hex_value(b'a'), 10);
    assert_eq!(hex_value(b'F'), 15);
}

#[test]
fn a_comment_ends_at_the_end_of_its_line() {
    assert_eq!(load("0c 00 # length 0xff\n\n01\t0A#x"), Ok(vec![0x0c, 0x00, 0x01, 0x0a]));
    assert_eq!(load("# nothing but a comment"), Ok(vec![]));
    assert_eq!(load(""), Ok(vec![]));
}

#[test]
fn a_pair_may_be_split_by_white_space() {
    assert_eq!(load("a\r\nb c\u{a0}d"), Ok(vec![0xab, 0xcd]));
}

#[test]
fn a_character_that_is_no_digit_is_named() {
    assert_eq!(load("0c 0g zz"), Err(FixtureError::NotADigit('g')));
    assert_eq!(load("0c \u{e9}"), Err(FixtureError::NotADigit('\u{e9}')));
    // A character that is no digit counts before an odd count.
    assert_eq!(load("0 x"), Err(FixtureError::NotADigit('x')));
}

#[test]
fn an_odd_count_of_digits_is_an_error() {
    assert_eq!(load("0c 0"), Err(FixtureError::OddCount(3)));
}

#[test]
fn every_byte_reads_back() {
    let all: Vec<u8> = (0..=255).collect();
    let text: String = all.iter().map(|b| format!("{b:02x} ")).collect();
    assert_eq!(load(&text), Ok(all));
}
