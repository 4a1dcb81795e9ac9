use wol_hub::{parse_mac, ParseMacError};

#[test]
fn parses_six_groups() {
    assert_eq!(parse_mac("AA-BB-CC-DD-EE-FF").unwrap(), [0xAA, 0xBB, 0xCC, 0xDD, 0xEE, 0xFF]);
}

#[test]
fn accepts_lower_case() {
    assert_eq!(parse_mac("0a-1b-2c-3d-4e-5f").unwrap(), [0x0A, 0x1B, 0x2C, 0x3D, 0x4E, 0x5F]);
}

#[test]
fn five_groups_is_wrong_count() {
    match parse_mac("AA-BB-CC-DD-EE") {
        Err(ParseMacError::WrongGroupCount(n)) => assert_eq!(n, 5),
        other => panic!("unexpected: {:?}", other),
    }
}

#[test]
fn seven_groups_is_wrong_count() {
    match parse_mac("AA-BB-CC-DD-EE-FF-00") {
        Err(ParseMacError::WrongGroupCount(n)) => assert_eq!(n, 7),
        other => panic!("unexpected: {:?}", other),
    }
}

#[test]
fn empty_text_is_one_group() {
    match parse_mac("") {
        Err(ParseMacError::WrongGroupCount(n)) => assert_eq!(n, 1),
        other => panic!("unexpected: {:?}", other),
    }
}

#[test]
fn colon_separators_are_not_accepted() {
    match parse_mac("AA:BB:CC:DD:EE:FF") {
        Err(ParseMacError::WrongGroupCount(n)) => assert_eq!(n, 1),
        other => panic!("unexpected: {:?}", other),
    }
}

#[test]
fn bad_hex_group_is_reported() {
    match parse_mac("ZZ-BB-CC-DD-EE-FF") {
        Err(ParseMacError::InvalidHexDigit { group, position }) => {
            assert_eq!(group, "ZZ");
            assert_eq!(position, 0);
        }
        other => panic!("unexpected: {:?}", other),
    }
}

#[test]
fn first_bad_group_is_reported() {
    match parse_mac("AA-BB-CC-XY-EE-G1") {
        Err(ParseMacError::InvalidHexDigit { group, position }) => {
            assert_eq!(group, "XY");
            assert_eq!(position, 3);
        }
        other => panic!("unexpected: {:?}", other),
    }
}

#[test]
fn empty_group_is_invalid() {
    match parse_mac("AA--CC-DD-EE-FF") {
        Err(ParseMacError::InvalidHexDigit { group, position }) => {
            assert_eq!(group, "");
            assert_eq!(position, 1);
        }
        other => panic!("unexpected: {:?}", other),
    }
}

#[test]
fn group_above_a_byte_is_invalid() {
    match parse_mac("AA-BB-CC-DD-EE-100") {
        Err(ParseMacError::InvalidHexDigit { group, position }) => {
            assert_eq!(group, "100");
            assert_eq!(position, 5);
        }
        other => panic!("unexpected: {:?}", other),
    }
}

#[test]
fn leading_zeros_and_plus_sign_are_read_as_numbers() {
    assert_eq!(parse_mac("00FF-+1-1-02-0-F").unwrap(), [0xFF, 0x01, 0x01, 0x02, 0x00, 0x0F]);
}

#[test]
fn lone_plus_sign_is_invalid() {
    match parse_mac("+-BB-CC-DD-EE-FF") {
        Err(ParseMacError::InvalidHexDigit { group, position }) => {
            assert_eq!(group, "+");
            assert_eq!(position, 0);
        }
        other => panic!("unexpected: {:?}", other),
    }
}

#[test]
fn error_messages_name_the_problem() {
    assert_eq!(
        parse_mac("AA-BB").unwrap_err().message(),
        "wrong number of groups: 2"
    );
    assert_eq!(
        parse_mac("AA-BB-CC-DD-EE-QQ").unwrap_err().message(),
        "invalid hex byte 'QQ' in group 5"
    );
}
