use timers::Config;
use timers::ParserError;

#[test]
fn test_parse_time_string() {
    // checking with integral timestamp
    assert_eq!(Config::parse_time_string("1h").unwrap(), 60 * 60);
    assert_eq!(Config::parse_time_string("1m").unwrap(), 60);
    assert_eq!(Config::parse_time_string("1s").unwrap(), 1);

    // checking with combined timestamp
    assert_eq!(Config::parse_time_string("1h2m").unwrap(), 60 * 60 + 2 * 60);
    assert_eq!(Config::parse_time_string("10m10s").unwrap(), 10 * 60 + 10);
}

#[test]
fn test_parse_empty_fails() {
    assert!(Config::parse_time_string("").is_err());
}

#[test]
fn test_parse_bare_digits_fail() {
    // digits with no unit letter are rejected, not silently dropped
    assert!(Config::parse_time_string("5").is_err());
}

#[test]
fn test_parse_trailing_digits_fail() {
    assert!(Config::parse_time_string("1h30").is_err());
}

#[test]
fn test_parse_unit_without_digits_fails() {
    assert!(Config::parse_time_string("h").is_err());
    assert!(Config::parse_time_string("1hm").is_err());
    assert!(Config::parse_time_string("m5s").is_err());
}

#[test]
fn test_parse_repeated_unit_fails() {
    assert!(Config::parse_time_string("1h2h").is_err());
    assert!(Config::parse_time_string("1s1s").is_err());
}

#[test]
fn test_parse_unrecognized_character_fails() {
    assert!(Config::parse_time_string("1x").is_err());
    assert!(Config::parse_time_string("1h 2m").is_err());
    assert!(Config::parse_time_string("-5s").is_err());
}

#[test]
fn test_parse_canonical_combined() {
    assert_eq!(
        Config::parse_time_string("123h45m6s").unwrap(),
        123 * 3600 + 45 * 60 + 6
    );
    assert_eq!(Config::parse_time_string("0h0m0s").unwrap(), 0);
    assert_eq!(
        Config::parse_time_string("999999h999999m999999s").unwrap(),
        999999 * 3600 + 999999 * 60 + 999999
    );
}

#[test]
fn test_parse_units_in_any_order() {
    assert_eq!(Config::parse_time_string("10s2m").unwrap(), 2 * 60 + 10);
}

#[test]
fn test_parse_leading_zeros() {
    assert_eq!(Config::parse_time_string("007s").unwrap(), 7);
    assert_eq!(Config::parse_time_string("0s").unwrap(), 0);
}

#[test]
fn test_parse_overflow_fails() {
    assert!(Config::parse_time_string("99999999999999999999999999999999s").is_err());
    assert!(Config::parse_time_string("18446744073709551615h").is_err());
}

#[test]
fn test_from_time_string() {
    let config = Config::from_time_string("2m30s").unwrap();
    assert_eq!(config.seconds, 150);
    assert!(Config::from_time_string("later").is_err());
}

#[test]
fn test_parser_error_message() {
    let e = ParserError;
    assert_eq!(e.message(), "Error parsing arguments");
}
