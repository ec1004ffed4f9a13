use backside::number::{
    check_decimal, parse_hex, parse_integer, parse_numeral, parse_time, parse_tristate,
};

#[test]
fn integers_in_base_ten() {
    assert_eq!(parse_integer(b"0", -128, 127), Some(0));
    assert_eq!(parse_integer(b"20", -128, 127), Some(20));
    assert_eq!(parse_integer(b"-1", -128, 127), Some(-1));
    assert_eq!(parse_integer(b"+7", -128, 127), Some(7));
    assert_eq!(parse_integer(b"007", -128, 127), Some(7));
    assert_eq!(parse_integer(b"-0", -128, 127), Some(0));
}

#[test]
fn integers_at_the_edge_of_their_width() {
    assert_eq!(parse_integer(b"127", -128, 127), Some(127));
    assert_eq!(parse_integer(b"128", -128, 127), None);
    assert_eq!(parse_integer(b"-128", -128, 127), Some(-128));
    assert_eq!(parse_integer(b"-129", -128, 127), None);
    assert_eq!(parse_integer(b"32767", -32768, 32767), Some(32767));
    assert_eq!(parse_integer(b"32768", -32768, 32767), None);
    assert_eq!(parse_integer(b"2147483647", -2147483648, 2147483647), Some(2147483647));
    assert_eq!(parse_integer(b"2147483648", -2147483648, 2147483647), None);
    assert_eq!(parse_integer(b"-2147483648", -2147483648, 2147483647), Some(-2147483648));
}

#[test]
fn integers_at_the_edge_of_the_machine() {
    assert_eq!(
        parse_integer(b"9223372036854775807", i64::MIN, i64::MAX),
        Some(i64::MAX)
    );
    assert_eq!(parse_integer(b"9223372036854775808", i64::MIN, i64::MAX), None);
    assert_eq!(
        parse_integer(b"-9223372036854775808", i64::MIN, i64::MAX),
        Some(i64::MIN)
    );
    assert_eq!(parse_integer(b"-9223372036854775809", i64::MIN, i64::MAX), None);
    assert_eq!(
        parse_integer(b"99999999999999999999999999999999", i64::MIN, i64::MAX),
        None
    );
    assert_eq!(
        parse_integer(b"00000000000000000000000000000012", i64::MIN, i64::MAX),
        Some(12)
    );
}

#[test]
fn what_is_no_integer() {
    assert_eq!(parse_integer(b"", -128, 127), None);
    assert_eq!(parse_integer(b"-", -128, 127), None);
    assert_eq!(parse_integer(b"+", -128, 127), None);
    assert_eq!(parse_integer(b" 1", -128, 127), None);
    assert_eq!(parse_integer(b"1 ", -128, 127), None);
    assert_eq!(parse_integer(b"1a", -128, 127), None);
    assert_eq!(parse_integer(b"--1", -128, 127), None);
    assert_eq!(parse_integer(b"1.0", -128, 127), None);
}

#[test]
fn numerals_have_no_sign() {
    assert_eq!(parse_numeral(b"42", 100), Some(42));
    assert_eq!(parse_numeral(b"100", 100), Some(100));
    assert_eq!(parse_numeral(b"101", 100), None);
    assert_eq!(parse_numeral(b"+42", 100), None);
    assert_eq!(parse_numeral(b"", 100), None);
    assert_eq!(parse_numeral(b"18446744073709551615", u64::MAX), Some(u64::MAX));
    assert_eq!(parse_numeral(b"18446744073709551616", u64::MAX), None);
}

#[test]
fn tristate_takes_two_literals_only() {
    assert_eq!(parse_tristate(b"-1"), Some(true));
    assert_eq!(parse_tristate(b"0"), Some(false));
    assert_eq!(parse_tristate(b"1"), None);
    assert_eq!(parse_tristate(b""), None);
    assert_eq!(parse_tristate(b"-0"), None);
    assert_eq!(parse_tristate(b"00"), None);
    assert_eq!(parse_tristate(b"-01"), None);
    assert_eq!(parse_tristate(b"-1 "), None);
    assert_eq!(parse_tristate(b"-2"), None);
    assert_eq!(parse_tristate(b"true"), None);
}

#[test]
fn hexadecimal_in_either_case() {
    assert_eq!(parse_hex(b"FF0000"), Some(0xFF0000));
    assert_eq!(parse_hex(b"ff"), Some(0xff));
    assert_eq!(parse_hex(b"A0a0A"), Some(0xA0A0A));
    assert_eq!(parse_hex(b"0"), Some(0));
    assert_eq!(parse_hex(b"FFFFFFFF"), Some(0xFFFF_FFFF));
    assert_eq!(parse_hex(b"0FFFFFFFF"), Some(0xFFFF_FFFF));
    assert_eq!(parse_hex(b"100000000"), None);
    assert_eq!(parse_hex(b""), None);
    assert_eq!(parse_hex(b"G"), None);
    assert_eq!(parse_hex(b"12 "), None);
}

#[test]
fn decimal_notation() {
    assert!(check_decimal(b"0"));
    assert!(check_decimal(b"12.5"));
    assert!(check_decimal(b"-0.5"));
    assert!(check_decimal(b"+3"));
    assert!(check_decimal(b".5"));
    assert!(check_decimal(b"5."));
    assert!(!check_decimal(b""));
    assert!(!check_decimal(b"."));
    assert!(!check_decimal(b"-"));
    assert!(!check_decimal(b"1.2.3"));
    assert!(!check_decimal(b"1e3"));
    assert!(!check_decimal(b"abc"));
    assert!(!check_decimal(b" 1"));
    assert!(!check_decimal(b"--1"));
    assert!(!check_decimal(b"inf"));
}

#[test]
fn every_accepted_decimal_is_a_float() {
    let accepted: [&str; 6] = ["0", "12.5", "-0.5", "+3", ".5", "5."];
    for text in accepted {
        assert!(check_decimal(text.as_bytes()));
        assert!(text.parse::<f32>().is_ok());
    }
    assert_eq!("12.5".parse::<f32>().unwrap(), 12.5f32);
}

#[test]
fn times_in_hundredths_of_a_second() {
    assert_eq!(parse_time(b"0:00:00.00"), Some(0));
    assert_eq!(parse_time(b"0:00:05.00"), Some(500));
    assert_eq!(parse_time(b"0:01:02.03"), Some(6203));
    assert_eq!(parse_time(b"1:00:00.00"), Some(360000));
    assert_eq!(parse_time(b"12:34:56.78"), Some(((12 * 60 + 34) * 60 + 56) * 100 + 78));
    assert_eq!(parse_time(b"0:59:59.99"), Some(359999));
}

#[test]
fn what_is_no_time() {
    assert_eq!(parse_time(b""), None);
    assert_eq!(parse_time(b"0:00:00"), None);
    assert_eq!(parse_time(b"0:0:00.00"), None);
    assert_eq!(parse_time(b"0:60:00.00"), None);
    assert_eq!(parse_time(b"0:00:60.00"), None);
    assert_eq!(parse_time(b":00:00.00"), None);
    assert_eq!(parse_time(b"a:00:00.00"), None);
    assert_eq!(parse_time(b"0:00:00.000"), None);
    assert_eq!(parse_time(b"0:00:00,00"), None);
    assert_eq!(parse_time(b"0.00:00.00"), None);
    assert_eq!(parse_time(b"0:00.00.00"), None);
}

#[test]
fn times_that_thirty_two_bits_cannot_hold() {
    assert_eq!(parse_time(b"11930:27:52.95"), Some(u32::MAX));
    assert_eq!(parse_time(b"11930:27:52.96"), None);
    assert_eq!(parse_time(b"11931:00:00.00"), None);
    assert_eq!(parse_time(b"99999999999999999999999:00:00.00"), None);
}
