//! Characters and strings on the wire.

use bsdroid::ptp::error::ParseError;
use bsdroid::ptp::reader::{parse_u32_array, push_ptp_string, Reader};
use bsdroid::ptp::utf16::{decode_utf16, encode_utf16};
use bsdroid::text;

#[test]
fn a_string_survives_the_wire() {
    for s in ["", "a", "r\u{e9}sum\u{e9}", "\u{65e5}\u{672c}", "\u{1f4f1}\u{10ffff}"] {
        let mut out = Vec::new();
        push_ptp_string(&mut out, s);
        assert_eq!(Reader::new(&out).read_string("s").unwrap(), s);
        let units = encode_utf16(s);
        assert_eq!(units, s.encode_utf16().collect::<Vec<u16>>());
        assert_eq!(decode_utf16(&units), Some(s.to_string()));
    }
}

#[test]
fn half_of_a_pair_is_no_text() {
    assert_eq!(decode_utf16(&[0xd800]), None);
    assert_eq!(decode_utf16(&[0xdc00, 0xd800]), None);
    assert_eq!(decode_utf16(&[0x61, 0xd83d, 0xdcf1]), Some("a\u{1f4f1}".to_string()));
    let mut r = Reader::new(&[2, 0x00, 0xd8, 0, 0]);
    assert_eq!(r.read_string("model"), Err(ParseError::BadString { field: "model" }));
}

#[test]
fn an_array_gives_its_values() {
    assert_eq!(parse_u32_array(&[2, 0, 0, 0, 1, 0, 0, 0, 0, 0, 0, 1]), Ok(vec![1, 0x0100_0000]));
    assert!(parse_u32_array(&[2, 0, 0, 0, 1, 0, 0, 0]).is_err());
    assert!(parse_u32_array(&[]).is_err());
}

#[test]
fn numbers_are_written_in_full() {
    let mut s = String::new();
    text::push_decimal(&mut s, 0);
    text::push_decimal(&mut s, 340_282_366_920_938_463_463_374_607_431_768_211_455);
    text::push_signed_decimal(&mut s, i32::MIN);
    text::push_hex(&mut s, 0x00ab, 4);
    assert_eq!(s, "0340282366920938463463374607431768211455-214748364800ab");
}

#[test]
fn white_space_is_trimmed_on_both_sides() {
    assert_eq!(text::trim(" \t\u{a0}a b\u{3000}\n"), "a b");
    assert_eq!(text::trim("   "), "");
    let chars: Vec<char> = "+007".chars().collect();
    assert_eq!(text::parse_byte(&chars), Some(7));
    let chars: Vec<char> = "256".chars().collect();
    assert_eq!(text::parse_byte(&chars), None);
    assert_eq!(text::parse_byte(&['+']), None);
    for c in ['\u{0}', '\u{9}', '\u{d}', '\u{20}', '\u{85}', '\u{200b}', '\u{2029}', '\u{feff}'] {
        assert_eq!(text::white(c), c.is_whitespace(), "{c:?}");
    }
}
