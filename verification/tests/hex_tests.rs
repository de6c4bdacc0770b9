use monero_oracle::errors::OracleError;
use monero_oracle::hexutil::{decode_hex, parse_hex_to_b256, parse_hex_to_b256_padded};

#[test]
fn test_parse_hex_to_b256() {
    let hex = "a".repeat(64);
    let result = parse_hex_to_b256(&hex).unwrap();
    assert_eq!(result.as_slice(), &[0xaa; 32]);
}

#[test]
fn test_parse_hex_to_b256_with_prefix() {
    let hex = format!("0x{}", "b".repeat(64));
    let result = parse_hex_to_b256(&hex).unwrap();
    assert_eq!(result.as_slice(), &[0xbb; 32]);
}

#[test]
fn decode_matches_reference_decoder() {
    for s in ["", "00", "deadbeef", "0123456789abcdefABCDEF01", "ff00ff00"] {
        let ours = decode_hex(s).unwrap();
        let theirs = hex::decode(s).unwrap();
        assert_eq!(ours, theirs);
    }
}

#[test]
fn decode_rejects_odd_length() {
    assert!(matches!(decode_hex("abc"), Err(OracleError::Encoding)));
    assert!(hex::decode("abc").is_err());
}

#[test]
fn decode_rejects_bad_digit() {
    assert!(matches!(decode_hex("zz"), Err(OracleError::Encoding)));
    assert!(hex::decode("zz").is_err());
}

#[test]
fn parse_b256_rejects_wrong_length() {
    assert!(matches!(parse_hex_to_b256("aabb"), Err(OracleError::Encoding)));
    let too_long = "a".repeat(66);
    assert!(matches!(parse_hex_to_b256(&too_long), Err(OracleError::Encoding)));
}

#[test]
fn padded_short_field_pads_left() {
    let result = parse_hex_to_b256_padded("ff").unwrap();
    let mut expected = vec![0u8; 31];
    expected.push(0xff);
    assert_eq!(result, expected);
}

#[test]
fn padded_sixteen_byte_amount_pads_left() {
    let result = parse_hex_to_b256_padded(&"7b".repeat(16)).unwrap();
    let mut expected = vec![0u8; 16];
    expected.extend_from_slice(&[0x7b; 16]);
    assert_eq!(result, expected);
}

#[test]
fn padded_full_field_unchanged() {
    let result = parse_hex_to_b256_padded(&"c".repeat(64)).unwrap();
    assert_eq!(result, vec![0xcc; 32]);
}

#[test]
fn padded_overlong_field_rejected() {
    let too_long = "a".repeat(66);
    assert!(matches!(parse_hex_to_b256_padded(&too_long), Err(OracleError::Encoding)));
}

#[test]
fn padded_accepts_prefix_marker() {
    let result = parse_hex_to_b256_padded("0xff").unwrap();
    let bare = parse_hex_to_b256_padded("ff").unwrap();
    assert_eq!(result, bare);
}

#[test]
fn empty_padded_field_is_all_zero() {
    let result = parse_hex_to_b256_padded("").unwrap();
    assert_eq!(result, vec![0u8; 32]);
}
