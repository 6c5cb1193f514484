use pars::decimal::{numeral, parse_i32, parse_u16};
use pars::launch::wakeup_command;

#[test]
fn parse_u16_reads_plain_and_signed_numerals() {
    assert_eq!(parse_u16("80"), Some(80));
    assert_eq!(parse_u16("+80"), Some(80));
    assert_eq!(parse_u16("0"), Some(0));
    assert_eq!(parse_u16("65535"), Some(65535));
    assert_eq!(parse_u16("007"), Some(7));
}

#[test]
fn parse_u16_refuses_what_std_refuses() {
    assert_eq!(parse_u16("65536"), None);
    assert_eq!(parse_u16("-1"), None);
    assert_eq!(parse_u16("-0"), None);
    assert_eq!(parse_u16(""), None);
    assert_eq!(parse_u16("+"), None);
    assert_eq!(parse_u16("8a"), None);
    assert_eq!(parse_u16(" 8"), None);
    assert_eq!(parse_u16("99999999999999999999"), None);
}

#[test]
fn parse_u16_agrees_with_std() {
    for s in ["1", "+1", "-1", "", "+", "-", "65535", "65536", "12x", "x12", "0000065535", "٣"] {
        assert_eq!(parse_u16(s), s.parse::<u16>().ok(), "on {:?}", s);
    }
}

#[test]
fn parse_i32_reads_both_signs() {
    assert_eq!(parse_i32("-7"), Some(-7));
    assert_eq!(parse_i32("+7"), Some(7));
    assert_eq!(parse_i32("2147483647"), Some(i32::MAX));
    assert_eq!(parse_i32("-2147483648"), Some(i32::MIN));
}

#[test]
fn parse_i32_refuses_out_of_range_and_junk() {
    assert_eq!(parse_i32("2147483648"), None);
    assert_eq!(parse_i32("-2147483649"), None);
    assert_eq!(parse_i32("-"), None);
    assert_eq!(parse_i32("--1"), None);
    assert_eq!(parse_i32("1.5"), None);
}

#[test]
fn parse_i32_agrees_with_std() {
    for s in ["0", "-0", "+0", "-", "+", "", "2147483647", "2147483648", "-2147483648", "-2147483649", "+-1", "4 ", "12"] {
        assert_eq!(parse_i32(s), s.parse::<i32>().ok(), "on {:?}", s);
    }
}

#[test]
fn numeral_writes_like_to_string() {
    assert_eq!(numeral(0), "0");
    assert_eq!(numeral(-123), "-123");
    assert_eq!(numeral(4466), "4466");
    assert_eq!(numeral(i32::MAX), i32::MAX.to_string());
    assert_eq!(numeral(i32::MIN), i32::MIN.to_string());
}

#[test]
fn numeral_round_trip() {
    for n in [0, 1, -1, 9, 10, -10, 99999, i32::MAX, i32::MIN] {
        assert_eq!(parse_i32(&numeral(n)), Some(n));
    }
}

#[test]
fn wakeup_command_lists_program_flag_and_numbers() {
    let cmd = wakeup_command(3, 1);
    assert_eq!(cmd, vec!["pars", "--client-remote", "3", "1"]);
    let cmd = wakeup_command(-4, 2);
    assert_eq!(cmd, vec!["pars", "--client-remote", "-4", "2"]);
}

#[test]
fn wakeup_reads_back() {
    let cmd = wakeup_command(12, 2);
    assert_eq!(parse_i32(&cmd[2]), Some(12));
    assert_eq!(parse_i32(&cmd[3]), Some(2));
}
