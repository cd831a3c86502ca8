use lib::omci::config::str_chars;
use lib::omci::text::{decimal, hex_bytes, json_string, parse_unsigned, split, words};

fn chars(text: &str) -> Vec<char> {
    text.chars().collect()
}

#[test]
fn decimal_prints_without_leading_zeros() {
    assert_eq!(decimal(0), "0");
    assert_eq!(decimal(7), "7");
    assert_eq!(decimal(65535), "65535");
    assert_eq!(decimal(u64::MAX as u128), "18446744073709551615");
}

#[test]
fn hex_bytes_prints_two_lower_case_digits_a_byte() {
    assert_eq!(hex_bytes(&[]), "");
    assert_eq!(hex_bytes(&[0x00, 0x0a, 0xff, 0x7b]), "000aff7b");
}

#[test]
fn json_string_escapes_quotes_backslashes_and_controls() {
    assert_eq!(json_string("plain"), "\"plain\"");
    assert_eq!(json_string("a\"b\\c"), "\"a\\\"b\\\\c\"");
    assert_eq!(json_string("line\nbreak\r\ttab"), "\"line\\nbreak\\r\\ttab\"");
    assert_eq!(json_string("\u{1}\u{7f}\u{9f}"), "\"\\u0001\\u007f\\u009f\"");
    assert_eq!(json_string("é"), "\"é\"");
}

#[test]
fn words_split_at_any_white_space() {
    let pieces = words(&chars("  configured=1\tpath=1:2 \n"));
    let pieces: Vec<String> = pieces.iter().map(|w| w.iter().collect()).collect();
    assert_eq!(pieces, vec!["configured=1".to_string(), "path=1:2".to_string()]);
    assert!(words(&chars("   ")).is_empty());
}

#[test]
fn split_keeps_empty_pieces() {
    let pieces = split(&chars("path=1::2:"), 5, ':');
    let pieces: Vec<String> = pieces.iter().map(|w| w.iter().collect()).collect();
    assert_eq!(pieces, vec!["1".to_string(), String::new(), "2".to_string(), String::new()]);
}

#[test]
fn parse_unsigned_follows_from_str_radix() {
    assert_eq!(parse_unsigned(&chars("65535"), 10, 0xffff), Some(65535));
    assert_eq!(parse_unsigned(&chars("65536"), 10, 0xffff), None);
    assert_eq!(parse_unsigned(&chars("+12"), 10, 0xffff), Some(12));
    assert_eq!(parse_unsigned(&chars("+"), 10, 0xffff), None);
    assert_eq!(parse_unsigned(&chars(""), 10, 0xffff), None);
    assert_eq!(parse_unsigned(&chars("1a"), 10, 0xffff), None);
    assert_eq!(parse_unsigned(&chars("fF"), 16, 0xff), Some(255));
    assert_eq!(parse_unsigned(&chars("100"), 16, 0xff), None);
    assert_eq!(parse_unsigned(&chars("-1"), 10, 0xffff), None);
    assert_eq!(str_chars("ab"), vec!['a', 'b']);
}

#[test]
fn decode_hex_reads_back_hex_bytes() {
    let bytes = vec![0x00, 0x01, 0x7f, 0x80, 0xab, 0xff];
    let text = hex_bytes(&bytes);
    assert_eq!(lib::omci::config::decode_hex(&text), Ok(bytes));
}
