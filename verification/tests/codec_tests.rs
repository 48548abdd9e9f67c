use token_ledger::codec::{encode_hex, is_valid_name, is_valid_symbol, parse_20bytes_from_hex, parse_u128};
use token_ledger::amount::{u128_from_be_bytes, u128_to_be_bytes};
use token_ledger::error::Error;

#[test]
fn address_decodes_to_expected_bytes() {
    let hex = "000102030405060708090a0b0c0d0e0f10111213";
    let bytes = parse_20bytes_from_hex(hex).unwrap();
    let expected: Vec<u8> = (0u8..20).collect();
    assert_eq!(bytes, expected);
}

#[test]
fn address_accepts_mixed_case() {
    let bytes = parse_20bytes_from_hex("AAbbCCddEEff00112233445566778899aAbBcCdD").unwrap();
    assert_eq!(bytes[0], 0xaa);
    assert_eq!(bytes[1], 0xbb);
    assert_eq!(bytes[19], 0xdd);
}

#[test]
fn address_rejects_wrong_length_and_bad_digits() {
    assert_eq!(parse_20bytes_from_hex("").unwrap_err(), Error::InvalidAddress);
    assert_eq!(parse_20bytes_from_hex("abcd").unwrap_err(), Error::InvalidAddress);
    // 41 digits
    let long: String = "a".repeat(41);
    assert_eq!(parse_20bytes_from_hex(&long).unwrap_err(), Error::InvalidAddress);
    // right length, one digit out of range
    let bad = "g".to_string() + &"0".repeat(39);
    assert_eq!(parse_20bytes_from_hex(&bad).unwrap_err(), Error::InvalidAddress);
}

#[test]
fn hex_round_trip_recovers_bytes() {
    let original: Vec<u8> = (100u8..120).collect();
    let encoded = encode_hex(&original);
    assert_eq!(encoded.len(), 40);
    let text = String::from_utf8(encoded).unwrap();
    let decoded = parse_20bytes_from_hex(&text).unwrap();
    assert_eq!(decoded, original);
}

#[test]
fn amount_parses_decimal_text() {
    assert_eq!(parse_u128("0").unwrap(), 0);
    assert_eq!(parse_u128("150").unwrap(), 150);
    assert_eq!(parse_u128("007").unwrap(), 7);
    assert_eq!(
        parse_u128("340282366920938463463374607431768211455").unwrap(),
        u128::MAX
    );
}

#[test]
fn amount_rejects_malformed_text() {
    assert_eq!(parse_u128("").unwrap_err(), Error::InvalidAmount);
    assert_eq!(parse_u128("12x").unwrap_err(), Error::InvalidAmount);
    assert_eq!(parse_u128("-1").unwrap_err(), Error::InvalidAmount);
    assert_eq!(parse_u128("1 0").unwrap_err(), Error::InvalidAmount);
    // one past the largest 128-bit value
    assert_eq!(
        parse_u128("340282366920938463463374607431768211456").unwrap_err(),
        Error::InvalidAmount
    );
}

#[test]
fn name_length_bounds() {
    assert!(!is_valid_name("ab"));
    assert!(is_valid_name("abc"));
    assert!(is_valid_name(&"x".repeat(30)));
    assert!(!is_valid_name(&"x".repeat(31)));
    // multibyte characters count as their UTF-8 bytes
    assert!(is_valid_name("éé"));
    assert!(!is_valid_name(&"é".repeat(16)));
}

#[test]
fn symbol_shape() {
    assert!(is_valid_symbol("ABC"));
    assert!(is_valid_symbol("CASHER"));
    assert!(!is_valid_symbol("AB"));
    assert!(!is_valid_symbol("TOOLONGG"));
    assert!(!is_valid_symbol("cash"));
    assert!(!is_valid_symbol("CAS1"));
}

#[test]
fn amount_encoding_is_big_endian_16_bytes() {
    let bytes = u128_to_be_bytes(0x0102030405060708090a0b0c0d0e0f10);
    assert_eq!(
        bytes,
        vec![1, 2, 3, 4, 5, 6, 7, 8, 9, 10, 11, 12, 13, 14, 15, 16]
    );
    assert_eq!(u128_from_be_bytes(&bytes), 0x0102030405060708090a0b0c0d0e0f10);
    let zero = u128_to_be_bytes(0);
    assert_eq!(zero, vec![0u8; 16]);
    let max = u128_to_be_bytes(u128::MAX);
    assert_eq!(max, vec![0xffu8; 16]);
    assert_eq!(u128_from_be_bytes(&max), u128::MAX);
}
