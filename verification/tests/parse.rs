use skystore::config::parse::{parse_bool, parse_decimal, parse_digits, parse_ipv4};
use skystore::config::ConfigValue;

#[test]
fn decimal_numbers() {
    assert_eq!(parse_decimal(b"0", 65535), Some(0));
    assert_eq!(parse_decimal(b"65535", 65535), Some(65535));
    assert_eq!(parse_decimal(b"65536", 65535), None);
    assert_eq!(parse_decimal(b"+12", 65535), Some(12));
    assert_eq!(parse_decimal(b"0012", 65535), Some(12));
    assert_eq!(parse_decimal(b"", 65535), None);
    assert_eq!(parse_decimal(b"+", 65535), None);
    assert_eq!(parse_decimal(b"-1", 65535), None);
    assert_eq!(parse_decimal(b"12 ", 65535), None);
    assert_eq!(parse_decimal(b"++1", 65535), None);
    assert_eq!(parse_decimal(b"18446744073709551615", u64::MAX), Some(u64::MAX));
    assert_eq!(parse_decimal(b"18446744073709551616", u64::MAX), None);
    assert_eq!(parse_decimal(b"99999999999999999999999", u64::MAX), None);
    assert_eq!(parse_digits(b"ab42", 2, 100), Some(42));
    assert_eq!(parse_digits(b"ab42", 4, 100), None);
}

#[test]
fn numbers_agree_with_the_standard_library() {
    for text in ["0", "7", "+7", "007", "65535", "65536", "", "+", "1_0", "١"] {
        assert_eq!(<u16 as ConfigValue>::parse(text), text.parse::<u16>().ok());
        assert_eq!(<u64 as ConfigValue>::parse(text), text.parse::<u64>().ok());
        assert_eq!(<usize as ConfigValue>::parse(text), text.parse::<usize>().ok());
    }
}

#[test]
fn truth_values() {
    assert_eq!(parse_bool(b"true"), Some(true));
    assert_eq!(parse_bool(b"false"), Some(false));
    assert_eq!(parse_bool(b"True"), None);
    assert_eq!(parse_bool(b"truee"), None);
    assert_eq!(parse_bool(b"fals"), None);
    assert_eq!(parse_bool(b""), None);
    assert_eq!(parse_bool(b"1"), None);
}

#[test]
fn addresses() {
    assert_eq!(parse_ipv4(b"127.0.0.1"), Some([127, 0, 0, 1]));
    assert_eq!(parse_ipv4(b"0.0.0.0"), Some([0, 0, 0, 0]));
    assert_eq!(parse_ipv4(b"255.255.255.255"), Some([255, 255, 255, 255]));
    assert_eq!(parse_ipv4(b"256.0.0.1"), None);
    assert_eq!(parse_ipv4(b"1.2.3"), None);
    assert_eq!(parse_ipv4(b"1.2.3.4.5"), None);
    assert_eq!(parse_ipv4(b"1.2.3.4."), None);
    assert_eq!(parse_ipv4(b".1.2.3.4"), None);
    assert_eq!(parse_ipv4(b"1..2.3"), None);
    assert_eq!(parse_ipv4(b"01.2.3.4"), None);
    assert_eq!(parse_ipv4(b"1.2.3.04"), None);
    assert_eq!(parse_ipv4(b"1.2.3.4A"), None);
    assert_eq!(parse_ipv4(b"?127.0.0.1"), None);
    assert_eq!(parse_ipv4(b"1.2.3.+4"), None);
    assert_eq!(parse_ipv4(b"1000.2.3.4"), None);
    assert_eq!(parse_ipv4(b""), None);
    assert_eq!(parse_ipv4(b"::1"), None);
}

#[test]
fn text_settings_take_any_text() {
    assert_eq!(<String as ConfigValue>::parse("key.pem"), Some("key.pem".to_owned()));
    assert_eq!(<String as ConfigValue>::parse(""), Some(String::new()));
    assert_eq!(<bool as ConfigValue>::parse("false"), Some(false));
    assert_eq!(<[u8; 4] as ConfigValue>::parse("10.0.0.7"), Some([10, 0, 0, 7]));
}
