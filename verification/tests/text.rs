//! Text.

use serialmux::text::{
    comes_before, is_hex_text, lower_hex_text, parse_number, render_number, same_text,
    socket_address, split, starts_with,
};

#[test]
fn texts_are_split_at_separators() {
    assert_eq!(split("a:b::c", ':'), vec!["a", "b", "", "c"]);
    assert_eq!(split("", ':'), vec![""]);
    assert_eq!(split(":", ':'), vec!["", ""]);
    assert_eq!(split("mcu:\u{e9}\u{4e16}:x", ':'), vec!["mcu", "\u{e9}\u{4e16}", "x"]);
}

#[test]
fn numbers_are_read() {
    assert_eq!(parse_number("0", 255), Some(0));
    assert_eq!(parse_number("255", 255), Some(255));
    assert_eq!(parse_number("256", 255), None);
    assert_eq!(parse_number("+7", 255), Some(7));
    assert_eq!(parse_number("007", 255), Some(7));
    assert_eq!(parse_number("", 255), None);
    assert_eq!(parse_number("+", 255), None);
    assert_eq!(parse_number("-1", 255), None);
    assert_eq!(parse_number(" 1", 255), None);
    assert_eq!(parse_number("1x", 255), None);
    assert_eq!(parse_number("4294967295", u32::MAX), Some(u32::MAX));
    assert_eq!(parse_number("4294967296", u32::MAX), None);
    assert_eq!(parse_number("99999999999999999999", u32::MAX), None);
}

#[test]
fn numbers_are_written() {
    assert_eq!(render_number(0), "0");
    assert_eq!(render_number(1205), "1205");
    assert_eq!(render_number(u64::MAX), "18446744073709551615");
    for n in [0u32, 9, 10, 65535, u32::MAX] {
        assert_eq!(parse_number(&render_number(n as u64), u32::MAX), Some(n));
    }
}

#[test]
fn hex_texts() {
    assert!(is_hex_text("1d6B"));
    assert!(!is_hex_text(""));
    assert!(!is_hex_text("1g"));
    assert_eq!(lower_hex_text("1D6b"), "1d6b");
}

#[test]
fn texts_are_compared() {
    assert!(same_text("abc", "abc"));
    assert!(!same_text("abc", "abd"));
    assert!(starts_with("ttyACM0", "ttyACM"));
    assert!(!starts_with("tty", "ttyACM"));
    assert!(comes_before("ttyACM10", "ttyACM2"));
    assert!(comes_before("ttyACM", "ttyACM0"));
    assert!(!comes_before("ttyACM0", "ttyACM0"));
}

#[test]
fn socket_addresses_are_written() {
    assert_eq!(socket_address("127.0.0.1", 7125), "127.0.0.1:7125");
    assert_eq!(socket_address("", 0), ":0");
}
