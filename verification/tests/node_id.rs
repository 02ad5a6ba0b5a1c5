use dht_id::node_id::{IdError, NodeId};

#[test]
fn from_number_invalid_input() {
    assert_eq!(
        NodeId::from_number("1234567890J"),
        Err(IdError::InvalidValue(String::from(
            "The input string is invalid."
        )))
    );
}

#[test]
fn from_number_value_too_large() {
    assert_eq!(
        NodeId::from_number("1234567890"),
        Err(IdError::ValueOutOfRange(String::from(
            "The value is to large!",
        )))
    );
}

#[test]
fn from_number_success() {
    assert_eq!(
        NodeId::from_number("510"),
        Ok(NodeId([
            0, 0, 0, 0, 0, 0, 0, 0, 0, 0, 0, 0, 0, 0, 0, 0, 0, 0, 255, 255
        ]))
    );
}

#[test]
fn from_number_success_partial_remaining() {
    assert_eq!(
        NodeId::from_number("530"),
        Ok(NodeId([
            0, 0, 0, 0, 0, 0, 0, 0, 0, 0, 0, 0, 0, 0, 0, 0, 0, 20, 255, 255
        ]))
    );
}

#[test]
fn from_hex_invalid_input() {
    assert_eq!(
        NodeId::from_hex("NotAHexString"),
        Err(IdError::InvalidValue(String::from(
            "The input is not a valid hex string."
        )))
    );
}

#[test]
fn from_hex_value_too_large() {
    assert_eq!(
        NodeId::from_hex("0x75BCD15"),
        Err(IdError::ValueOutOfRange(String::from(
            "The value is to large!",
        )))
    );

    assert_eq!(
        NodeId::from_hex("0x75bcd15"),
        Err(IdError::ValueOutOfRange(String::from(
            "The value is to large!",
        )))
    );
}

#[test]
fn from_hex_success() {
    assert_eq!(
        NodeId::from_hex("0x1FE"),
        Ok(NodeId([
            0, 0, 0, 0, 0, 0, 0, 0, 0, 0, 0, 0, 0, 0, 0, 0, 0, 0, 255, 255
        ]))
    );

    assert_eq!(
        NodeId::from_hex("0x1fe"),
        Ok(NodeId([
            0, 0, 0, 0, 0, 0, 0, 0, 0, 0, 0, 0, 0, 0, 0, 0, 0, 0, 255, 255
        ]))
    );
}

#[test]
fn from_hex_success_partial_remaining() {
    assert_eq!(
        NodeId::from_hex("0x212"),
        Ok(NodeId([
            0, 0, 0, 0, 0, 0, 0, 0, 0, 0, 0, 0, 0, 0, 0, 0, 0, 20, 255, 255
        ]))
    );
}

#[test]
fn from_number_single_byte_round_trip() {
    // 255 fits one byte, so the buffer read back big-endian is the value.
    assert_eq!(
        NodeId::from_number("255"),
        Ok(NodeId([
            0, 0, 0, 0, 0, 0, 0, 0, 0, 0, 0, 0, 0, 0, 0, 0, 0, 0, 0, 255
        ]))
    );
}

#[test]
fn from_number_zero() {
    assert_eq!(NodeId::from_number("0"), Ok(NodeId([0; 20])));
}

#[test]
fn from_number_empty_is_invalid() {
    assert_eq!(
        NodeId::from_number(""),
        Err(IdError::InvalidValue(String::from(
            "The input string is invalid."
        )))
    );
    assert_eq!(
        NodeId::from_number(","),
        Err(IdError::InvalidValue(String::from(
            "The input string is invalid."
        )))
    );
}

#[test]
fn from_number_comma_insensitive() {
    assert_eq!(NodeId::from_number("1,234"), NodeId::from_number("1234"));
    assert_eq!(
        NodeId::from_number("1,234"),
        Ok(NodeId([
            0, 0, 0, 0, 0, 0, 0, 0, 0, 0, 0, 0, 0, 0, 0, 214, 255, 255, 255, 255
        ]))
    );
}

#[test]
fn from_number_boundary() {
    // 5100 = 20 * 255 is the largest value the carry-splitting emission can
    // place into 20 bytes; one more does not fit.
    assert_eq!(NodeId::from_number("5,100"), Ok(NodeId([255; 20])));
    assert_eq!(
        NodeId::from_number("5101"),
        Err(IdError::ValueOutOfRange(String::from(
            "The value is to large!",
        )))
    );
}

#[test]
fn from_number_very_large_value() {
    // The decimal spelling of 2 to the 160th power.
    assert_eq!(
        NodeId::from_number("1461501637330902918203684832716283019655932542976"),
        Err(IdError::ValueOutOfRange(String::from(
            "The value is to large!",
        )))
    );
}

#[test]
fn from_hex_matches_from_number() {
    // 0x1FE and 510 spell the same integer, so the buffers coincide.
    assert_eq!(NodeId::from_hex("0x1FE"), NodeId::from_number("510"));
}

#[test]
fn from_hex_capital_header() {
    assert_eq!(
        NodeId::from_hex("0X1fe"),
        Ok(NodeId([
            0, 0, 0, 0, 0, 0, 0, 0, 0, 0, 0, 0, 0, 0, 0, 0, 0, 0, 255, 255
        ]))
    );
}

#[test]
fn from_hex_no_digits_is_invalid() {
    assert_eq!(
        NodeId::from_hex("0x"),
        Err(IdError::InvalidValue(String::from(
            "The input is not a valid hex string."
        )))
    );
}

#[test]
fn decode_twice_compares_equal() {
    let a = NodeId::from_number("530").unwrap();
    let b = NodeId::from_number("530").unwrap();
    assert_eq!(a, b);
    let c = NodeId::from_hex("0x212").unwrap();
    let d = NodeId::from_hex("0x212").unwrap();
    assert_eq!(c, d);
}
