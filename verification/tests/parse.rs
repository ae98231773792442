use mac_address::MacAddress;
use mac_address::MacParseError;

#[test]
fn parse_str_colon() {
    let string = "80:FA:5B:41:10:6B";
    let address = string.parse::<MacAddress>().unwrap();
    assert_eq!(address.bytes(), [128, 250, 91, 65, 16, 107]);
    assert_eq!(&address.to_text(), string);
}

#[test]
fn parse_str_hyphen() {
    let string = "01-23-45-67-89-AB";
    let address = string.parse::<MacAddress>().unwrap();
    assert_eq!(address.bytes(), [0x01, 0x23, 0x45, 0x67, 0x89, 0xAB]);
    assert_eq!(address.to_text(), string.replace("-", ":"));
}

#[test]
fn parse_invalid_length() {
    let string = "80:FA:5B:41:10:6B:AC";
    let address = string.parse::<MacAddress>().unwrap_err();
    assert_eq!(MacParseError::InvalidLength, address);

    let string = "80:FA:5B:41";
    let address = string.parse::<MacAddress>().unwrap_err();
    assert_eq!(MacParseError::InvalidLength, address);
}

#[test]
fn parse_invalid_digit() {
    let string = "80:FA:ZZ:41:10:6B:AC";
    let address = string.parse::<MacAddress>().unwrap_err();
    assert_eq!(MacParseError::InvalidDigit, address);
}

#[test]
fn parse_mixed_separators() {
    let address = "01-23:45-67:89-AB".parse::<MacAddress>().unwrap();
    assert_eq!(address.bytes(), [0x01, 0x23, 0x45, 0x67, 0x89, 0xAB]);
}

#[test]
fn parse_same_for_both_separators() {
    let hyphen = "01-23-45-67-89-AB".parse::<MacAddress>().unwrap();
    let colon = "01:23:45:67:89:AB".parse::<MacAddress>().unwrap();
    assert_eq!(hyphen.bytes(), colon.bytes());
}

#[test]
fn parse_lowercase_digits() {
    let address = "0a:bc:de:f0:12:34".parse::<MacAddress>().unwrap();
    assert_eq!(address.bytes(), [0x0A, 0xBC, 0xDE, 0xF0, 0x12, 0x34]);
}

#[test]
fn parse_empty_is_invalid_digit() {
    let err = "".parse::<MacAddress>().unwrap_err();
    assert_eq!(MacParseError::InvalidDigit, err);
}

#[test]
fn parse_group_overflow_is_invalid_digit() {
    let err = "100:23:45:67:89:AB".parse::<MacAddress>().unwrap_err();
    assert_eq!(MacParseError::InvalidDigit, err);
}

#[test]
fn parse_seventh_group_reports_length_first() {
    let err = "80:FA:5B:41:10:6B:ZZ".parse::<MacAddress>().unwrap_err();
    assert_eq!(MacParseError::InvalidLength, err);
}

#[test]
fn round_trip_bytes() {
    let cases: [[u8; 6]; 3] = [
        [0, 0, 0, 0, 0, 0],
        [0x80, 0xFA, 0x5B, 0x41, 0x10, 0x6B],
        [255, 255, 255, 255, 255, 255],
    ];
    for bytes in cases {
        let address = MacAddress::new(bytes);
        let parsed = address.to_text().parse::<MacAddress>().unwrap();
        assert_eq!(parsed.bytes(), bytes);
    }
}

#[test]
fn format_is_fixed_width() {
    let address = MacAddress::new([0x06, 0x00, 0x0A, 0x0F, 0xAB, 0x01]);
    assert_eq!(address.to_text(), "06:00:0A:0F:AB:01");
}

#[test]
fn format_is_uppercase() {
    let address = MacAddress::new([0xab, 0xcd, 0xef, 0x0a, 0x0b, 0x0c]);
    assert_eq!(address.to_text(), "AB:CD:EF:0A:0B:0C");
}

#[test]
fn parse_error_messages() {
    assert_eq!(MacParseError::InvalidDigit.message(), "invalid digit");
    assert_eq!(MacParseError::InvalidLength.message(), "invalid length");
}

#[test]
fn from_bytes_matches_new() {
    let address = MacAddress::from([1, 2, 3, 4, 5, 6]);
    assert_eq!(address.bytes(), [1, 2, 3, 4, 5, 6]);
}

#[test]
fn parse_trailing_separator_is_invalid_length() {
    let err = "01:23:45:67:89:AB:".parse::<MacAddress>().unwrap_err();
    assert_eq!(MacParseError::InvalidLength, err);
}

#[test]
fn parse_leading_separator_is_invalid_digit() {
    let err = ":01:23:45:67:89:AB".parse::<MacAddress>().unwrap_err();
    assert_eq!(MacParseError::InvalidDigit, err);
}

#[test]
fn parse_tolerates_one_leading_plus_per_group() {
    let address = "+1A:23:45:67:89:AB".parse::<MacAddress>().unwrap();
    assert_eq!(address.bytes(), [0x1A, 0x23, 0x45, 0x67, 0x89, 0xAB]);
    let err = "++1A:23:45:67:89:AB".parse::<MacAddress>().unwrap_err();
    assert_eq!(MacParseError::InvalidDigit, err);
}

#[test]
fn parse_tolerates_leading_zero_digits() {
    let address = "001:23:45:67:89:AB".parse::<MacAddress>().unwrap();
    assert_eq!(address.bytes(), [0x01, 0x23, 0x45, 0x67, 0x89, 0xAB]);
}
