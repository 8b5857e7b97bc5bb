use paymaster::codec::{
    parse_address, parse_amount, parse_digest, parse_signature, Address, Digest, Reason, Uint256,
};
use paymaster::text::decimal_text;

fn signature_hex(last: &str) -> String {
    format!("0x{}{}{}", "11".repeat(32), "22".repeat(32), last)
}

#[test]
fn address_with_prefix_is_decoded() {
    let a = parse_address("0x000102030405060708090a0b0c0d0e0f10111213").unwrap();
    let expected: [u8; 20] = [0, 1, 2, 3, 4, 5, 6, 7, 8, 9, 10, 11, 12, 13, 14, 15, 16, 17, 18, 19];
    assert_eq!(a, Address { bytes: expected });
}

#[test]
fn address_without_prefix_is_decoded() {
    let a = parse_address("ffffffffffffffffffffffffffffffffffffffff").unwrap();
    assert_eq!(a.bytes, [0xffu8; 20]);
}

#[test]
fn address_case_does_not_matter() {
    let lower = parse_address("0xabcdefabcdefabcdefabcdefabcdefabcdefabcd").unwrap();
    let upper = parse_address("0XABCDEFABCDEFABCDEFABCDEFABCDEFABCDEFABCD").unwrap();
    let mixed = parse_address("0xAbCdEfAbCdEfAbCdEfAbCdEfAbCdEfAbCdEfAbCd").unwrap();
    assert_eq!(lower, upper);
    assert_eq!(lower, mixed);
    assert_eq!(lower.bytes[0], 0xab);
    assert_eq!(lower.bytes[1], 0xcd);
    assert_eq!(lower.bytes[2], 0xef);
}

#[test]
fn address_of_wrong_length_is_rejected() {
    assert_eq!(parse_address(""), Err(Reason::WrongLength));
    assert_eq!(parse_address("0x"), Err(Reason::WrongLength));
    assert_eq!(parse_address("0x1234"), Err(Reason::WrongLength));
    assert_eq!(parse_address("0xNFT"), Err(Reason::WrongLength));
    // 41 digits
    assert_eq!(
        parse_address("0x000102030405060708090a0b0c0d0e0f101112131"),
        Err(Reason::WrongLength)
    );
    // 40 characters of which the first two are a prefix: 38 digits are left
    assert_eq!(
        parse_address("0x0102030405060708090a0b0c0d0e0f1011121314"[..40].to_string().as_str()),
        Err(Reason::WrongLength)
    );
}

#[test]
fn address_with_a_foreign_character_is_rejected() {
    assert_eq!(
        parse_address("0x00010203040506070809zz0b0c0d0e0f10111213"),
        Err(Reason::NonHex)
    );
    assert_eq!(
        parse_address("0x000102030405060708090a0b0c0d0e0f1011121g"),
        Err(Reason::NonHex)
    );
    // forty characters, one of them outside ASCII
    assert_eq!(
        parse_address("0x000102030405060708090a0b0c0d0e0f1011121\u{e9}"),
        Err(Reason::NonHex)
    );
}

#[test]
fn digest_is_decoded() {
    let text = format!("0x{}", "a1".repeat(32));
    assert_eq!(parse_digest(&text), Ok(Digest { bytes: [0xa1u8; 32] }));
    let bare = "0f".repeat(32);
    assert_eq!(parse_digest(&bare), Ok(Digest { bytes: [0x0fu8; 32] }));
}

#[test]
fn digest_of_wrong_length_or_content_is_rejected() {
    assert_eq!(parse_digest(&format!("0x{}", "a1".repeat(31))), Err(Reason::WrongLength));
    assert_eq!(parse_digest(&format!("0x{}", "a1".repeat(33))), Err(Reason::WrongLength));
    assert_eq!(parse_digest(&format!("0x{}a", "a1".repeat(31))), Err(Reason::WrongLength));
    assert_eq!(parse_digest(&format!("0x{}xy", "a1".repeat(31))), Err(Reason::NonHex));
    assert_eq!(parse_digest("not hex at all"), Err(Reason::WrongLength));
}

#[test]
fn amount_is_decoded() {
    assert_eq!(parse_amount("100"), Ok(Uint256 { limbs: [100, 0, 0, 0] }));
    assert_eq!(parse_amount("0"), Ok(Uint256 { limbs: [0, 0, 0, 0] }));
    assert_eq!(parse_amount("007"), Ok(Uint256 { limbs: [7, 0, 0, 0] }));
    assert_eq!(
        parse_amount("18446744073709551615"),
        Ok(Uint256 { limbs: [u64::MAX, 0, 0, 0] })
    );
    assert_eq!(parse_amount("18446744073709551616"), Ok(Uint256 { limbs: [0, 1, 0, 0] }));
    assert_eq!(
        parse_amount("340282366920938463463374607431768211456"),
        Ok(Uint256 { limbs: [0, 0, 1, 0] })
    );
}

#[test]
fn empty_amount_is_zero() {
    assert_eq!(parse_amount(""), Ok(Uint256 { limbs: [0, 0, 0, 0] }));
}

#[test]
fn amount_at_the_limit() {
    let max = "115792089237316195423570985008687907853269984665640564039457584007913129639935";
    assert_eq!(parse_amount(max), Ok(Uint256 { limbs: [u64::MAX; 4] }));
    let over = "115792089237316195423570985008687907853269984665640564039457584007913129639936";
    assert_eq!(parse_amount(over), Err(Reason::OutOfRange));
    let far_over = "9".repeat(200);
    assert_eq!(parse_amount(&far_over), Err(Reason::OutOfRange));
}

#[test]
fn negative_amount_is_rejected() {
    assert_eq!(parse_amount("-5"), Err(Reason::NegativeSign));
    assert_eq!(parse_amount("-"), Err(Reason::NegativeSign));
    assert_eq!(parse_amount("-x"), Err(Reason::NegativeSign));
}

#[test]
fn amount_with_a_foreign_character_is_rejected() {
    assert_eq!(parse_amount("12a"), Err(Reason::NonDecimal));
    assert_eq!(parse_amount("1_000"), Err(Reason::NonDecimal));
    assert_eq!(parse_amount("+5"), Err(Reason::NonDecimal));
    assert_eq!(parse_amount("1.5"), Err(Reason::NonDecimal));
    assert_eq!(parse_amount(" 1"), Err(Reason::NonDecimal));
    assert_eq!(parse_amount("0x10"), Err(Reason::NonDecimal));
    assert_eq!(parse_amount("5-"), Err(Reason::NonDecimal));
    assert_eq!(parse_amount("\u{663}"), Err(Reason::NonDecimal));
}

#[test]
fn signature_is_decoded() {
    let bytes = parse_signature(&signature_hex("1b")).unwrap();
    assert_eq!(bytes.len(), 65);
    assert_eq!(&bytes[..32], &[0x11u8; 32]);
    assert_eq!(&bytes[32..64], &[0x22u8; 32]);
    assert_eq!(bytes[64], 27);
    for last in ["00", "01", "1b", "1c", "23", "ff"] {
        assert!(parse_signature(&signature_hex(last)).is_ok());
    }
}

#[test]
fn truncated_signature_is_rejected() {
    let whole = signature_hex("1b");
    assert_eq!(parse_signature(&whole[..whole.len() - 2]), Err(Reason::WrongLength));
    assert_eq!(parse_signature(&whole[..whole.len() - 1]), Err(Reason::WrongLength));
    assert_eq!(parse_signature("0x"), Err(Reason::WrongLength));
    assert_eq!(parse_signature(""), Err(Reason::WrongLength));
}

#[test]
fn signature_with_a_foreign_character_is_rejected() {
    let mut text = signature_hex("1b");
    text.replace_range(10..11, "g");
    assert_eq!(parse_signature(&text), Err(Reason::NonHex));
}

#[test]
fn signature_with_an_unknown_recovery_byte_is_rejected() {
    for last in ["02", "03", "1a", "1d", "22"] {
        assert_eq!(parse_signature(&signature_hex(last)), Err(Reason::InvalidRecoveryId));
    }
}

#[test]
fn numbers_are_written_in_decimal() {
    assert_eq!(decimal_text(0), "0");
    assert_eq!(decimal_text(7), "7");
    assert_eq!(decimal_text(10), "10");
    assert_eq!(decimal_text(4096), "4096");
    assert_eq!(decimal_text(usize::MAX), usize::MAX.to_string());
}

#[test]
fn written_numbers_read_back() {
    for n in [0usize, 1, 9, 10, 99, 100, 65535, 1 << 40] {
        let text = decimal_text(n);
        assert_eq!(parse_amount(&text), Ok(Uint256 { limbs: [n as u64, 0, 0, 0] }));
    }
}
