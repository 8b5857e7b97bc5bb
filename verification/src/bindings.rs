//! Calls into `alloy` and `serde_json`.
//!
//! Each function here makes one outside call, with what it takes to hand the
//! arguments over and to take the result back. Its body is not verified: the
//! contract says what the outside crate does, as its source shows it, and
//! everything else in this library is proved from these contracts.

use crate::authority::recovered_signer;
use crate::codec::{limbs_value, uint256_limit};
use crate::json::json_quoted;
use crate::text::{all_decimal, decimal_value, hex_bytes, hex_payload, is_fixed_hex, is_hex_text};
use alloy::primitives::{Address, Bytes, FixedBytes, PrimitiveSignature, U256};
use vstd::prelude::*;

verus! {

/// `Address::from_str` of `alloy`: accepts exactly 40 hexadecimal digits in
/// either case, after an optional `0x` or `0X`, and yields the 20 bytes they
/// spell. It checks no checksum.
#[verifier::external_body]
pub(crate) fn address_from_hex(s: &str) -> (r: Option<[u8; 20]>)
    ensures
        r is Some <==> is_fixed_hex(s@, 20),
        r matches Some(b) ==> b@ == hex_bytes(hex_payload(s@)),
{
    match s.parse::<Address>() {
        Ok(a) => Some(a.into_array()),
        Err(_) => None,
    }
}

/// `FixedBytes::<32>::from_str` of `alloy`: accepts exactly 64 hexadecimal
/// digits in either case, after an optional `0x` or `0X`, and yields the 32
/// bytes they spell.
#[verifier::external_body]
pub(crate) fn digest_from_hex(s: &str) -> (r: Option<[u8; 32]>)
    ensures
        r is Some <==> is_fixed_hex(s@, 32),
        r matches Some(b) ==> b@ == hex_bytes(hex_payload(s@)),
{
    match s.parse::<FixedBytes<32>>() {
        Ok(d) => Some(d.0),
        Err(_) => None,
    }
}

/// `Bytes::from_str` of `alloy`: accepts an even number of hexadecimal digits
/// in either case, after an optional `0x` or `0X`, and yields the bytes they
/// spell.
#[verifier::external_body]
pub(crate) fn bytes_from_hex(s: &str) -> (r: Option<Vec<u8>>)
    ensures
        r is Some <==> is_hex_text(s@),
        r matches Some(b) ==> b@ == hex_bytes(hex_payload(s@)),
{
    match s.parse::<Bytes>() {
        Ok(b) => Some(b.to_vec()),
        Err(_) => None,
    }
}

/// `U256::from_str_radix` of `alloy`, in base 10, on text of decimal digits
/// only: yields the number the digits spell, as limbs with the least
/// significant first, unless it takes more than 256 bits.
#[verifier::external_body]
pub(crate) fn u256_from_decimal(s: &str) -> (r: Option<[u64; 4]>)
    requires
        all_decimal(s@),
    ensures
        r is Some <==> decimal_value(s@) < uint256_limit(),
        r matches Some(l) ==> limbs_value(l@) == decimal_value(s@),
{
    match U256::from_str_radix(s, 10) {
        Ok(v) => Some(v.into_limbs()),
        Err(_) => None,
    }
}

/// `PrimitiveSignature::recover_address_from_msg` of `alloy`, on the signature
/// that `PrimitiveSignature::try_from` reads from raw bytes: the address of
/// the key that signed `message` as a personal message, or nothing where the
/// bytes are no signature or no key is recovered. The result is a function of
/// the two byte strings; what it is, this contract does not say.
#[verifier::external_body]
pub(crate) fn recover_signer(signature: &[u8], message: &[u8]) -> (r: Option<[u8; 20]>)
    ensures
        r is Some <==> recovered_signer(signature@, message@) is Some,
        r matches Some(a) ==> recovered_signer(signature@, message@) == Some(a@),
{
    match PrimitiveSignature::try_from(signature) {
        Ok(sig) => match sig.recover_address_from_msg(message) {
            Ok(a) => Some(a.into_array()),
            Err(_) => None,
        },
        Err(_) => None,
    }
}

/// `serde_json::to_string` of `serde_json`, on a string: yields it as a JSON
/// string literal, in quotes, with `"`, `\` and the control characters
/// below U+0020 escaped and every other character as it is. Writing into
/// memory, it does not fail.
#[verifier::external_body]
pub(crate) fn json_quote(s: &str) -> (r: String)
    ensures
        r@ == json_quoted(s@),
{
    match serde_json::to_string(s) {
        Ok(q) => q,
        Err(_) => String::new(),
    }
}

} // verus!
