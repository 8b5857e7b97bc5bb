//! Decoding of the request's text fields into binary values.
//!
//! Each function either yields the value that the text spells or says why
//! the text is malformed. Nothing is decoded in part.

use crate::bindings::{address_from_hex, bytes_from_hex, digest_from_hex, u256_from_decimal};
use crate::text::{
    all_decimal, all_hex, decimal_value, hex_bytes, hex_payload, is_decimal_digit, is_fixed_hex,
};
use vstd::prelude::*;
use vstd::string::{is_ascii_spec_bytes, StrSliceExecFns, StringSliceAdditionalSpecFns};

verus! {

/// The number that four 64-bit limbs spell, least significant limb first.
pub open spec fn limbs_value(limbs: Seq<u64>) -> nat {
    (limbs[0] as nat) + (limbs[1] as nat) * 0x1_0000_0000_0000_0000nat + (limbs[2] as nat)
        * 0x1_0000_0000_0000_0000_0000_0000_0000_0000nat + (limbs[3] as nat)
        * 0x1_0000_0000_0000_0000_0000_0000_0000_0000_0000_0000_0000_0000nat
}

/// The first number that does not fit in 256 bits.
pub open spec fn uint256_limit() -> nat {
    0x1_0000_0000_0000_0000_0000_0000_0000_0000_0000_0000_0000_0000_0000_0000_0000_0000nat
}

/// Why a text field could not be decoded.
#[derive(Clone, Copy, Debug, PartialEq, Eq, Structural)]
pub enum Reason {
    /// Not the number of hexadecimal digits that the value takes.
    WrongLength,
    /// A character that is no hexadecimal digit.
    NonHex,
    /// A leading minus sign.
    NegativeSign,
    /// A character that is no decimal digit.
    NonDecimal,
    /// A number that takes more than 256 bits.
    OutOfRange,
    /// A last signature byte that names no recovery id.
    InvalidRecoveryId,
}

/// The length of a signature in bytes: two 32-byte scalars and a recovery byte.
pub const SIGNATURE_LEN: usize = 65;

/// A 20-byte account address.
#[derive(Clone, Copy, Debug, PartialEq, Eq)]
pub struct Address {
    pub bytes: [u8; 20],
}

/// A 32-byte digest.
#[derive(Clone, Copy, Debug, PartialEq, Eq)]
pub struct Digest {
    pub bytes: [u8; 32],
}

/// An unsigned integer of 256 bits, as four limbs with the least significant
/// first.
#[derive(Clone, Copy, Debug, PartialEq, Eq)]
pub struct Uint256 {
    pub limbs: [u64; 4],
}

impl View for Address {
    type V = Seq<u8>;

    open spec fn view(&self) -> Seq<u8> {
        self.bytes@
    }
}

impl View for Digest {
    type V = Seq<u8>;

    open spec fn view(&self) -> Seq<u8> {
        self.bytes@
    }
}

impl View for Uint256 {
    type V = nat;

    open spec fn view(&self) -> nat {
        limbs_value(self.limbs@)
    }
}

/// Why `s` does not spell `n` bytes in hexadecimal.
pub open spec fn hex_reason(s: Seq<char>, n: nat) -> Reason {
    if hex_payload(s).len() != 2 * n {
        Reason::WrongLength
    } else {
        Reason::NonHex
    }
}

/// The address that `s` spells, or why it spells none.
pub open spec fn address_of(s: Seq<char>) -> Result<Seq<u8>, Reason> {
    if is_fixed_hex(s, 20) {
        Ok(hex_bytes(hex_payload(s)))
    } else {
        Err(hex_reason(s, 20))
    }
}

/// The digest that `s` spells, or why it spells none.
pub open spec fn digest_of(s: Seq<char>) -> Result<Seq<u8>, Reason> {
    if is_fixed_hex(s, 32) {
        Ok(hex_bytes(hex_payload(s)))
    } else {
        Err(hex_reason(s, 32))
    }
}

/// The number that `s` spells in decimal, or why it spells none. The empty
/// text spells zero.
pub open spec fn amount_of(s: Seq<char>) -> Result<nat, Reason> {
    if s.len() > 0 && s[0] == '-' {
        Err(Reason::NegativeSign)
    } else if !all_decimal(s) {
        Err(Reason::NonDecimal)
    } else if decimal_value(s) >= uint256_limit() {
        Err(Reason::OutOfRange)
    } else {
        Ok(decimal_value(s))
    }
}

/// `v` is a last signature byte that names a recovery id: 0, 1, 27, 28, or a
/// chain-bound value from 35 on.
pub open spec fn is_recovery_byte(v: u8) -> bool {
    v <= 1 || v == 27 || v == 28 || v >= 35
}

/// The signature bytes that `s` spells, or why it spells none.
pub open spec fn signature_of(s: Seq<char>) -> Result<Seq<u8>, Reason> {
    if hex_payload(s).len() != 2 * SIGNATURE_LEN {
        Err(Reason::WrongLength)
    } else if !all_hex(hex_payload(s)) {
        Err(Reason::NonHex)
    } else if !is_recovery_byte(hex_bytes(hex_payload(s))[SIGNATURE_LEN - 1]) {
        Err(Reason::InvalidRecoveryId)
    } else {
        Ok(hex_bytes(hex_payload(s)))
    }
}

/// The number of characters of `s` after its `0x` or `0X`, if it has one.
fn payload_len(s: &str) -> (n: usize)
    ensures
        n == hex_payload(s@).len(),
{
    let n: usize = s.unicode_len();
    if n >= 2 && s.get_char(0) == '0' && (s.get_char(1) == 'x' || s.get_char(1) == 'X') {
        n - 2
    } else {
        n
    }
}

/// Decodes an address from hexadecimal text.
pub fn parse_address(s: &str) -> (r: Result<Address, Reason>)
    ensures
        match r {
            Ok(a) => address_of(s@) == Ok::<Seq<u8>, Reason>(a@),
            Err(e) => address_of(s@) == Err::<Seq<u8>, Reason>(e),
        },
{
    match address_from_hex(s) {
        Some(bytes) => Ok(Address { bytes }),
        None => {
            if payload_len(s) != 40 {
                Err(Reason::WrongLength)
            } else {
                Err(Reason::NonHex)
            }
        },
    }
}

/// Decodes a 32-byte digest from hexadecimal text.
pub fn parse_digest(s: &str) -> (r: Result<Digest, Reason>)
    ensures
        match r {
            Ok(d) => digest_of(s@) == Ok::<Seq<u8>, Reason>(d@),
            Err(e) => digest_of(s@) == Err::<Seq<u8>, Reason>(e),
        },
{
    match digest_from_hex(s) {
        Some(bytes) => Ok(Digest { bytes }),
        None => {
            if payload_len(s) != 64 {
                Err(Reason::WrongLength)
            } else {
                Err(Reason::NonHex)
            }
        },
    }
}

/// Decodes the raw bytes of a recoverable signature from hexadecimal text.
pub fn parse_signature(s: &str) -> (r: Result<Vec<u8>, Reason>)
    ensures
        match r {
            Ok(b) => signature_of(s@) == Ok::<Seq<u8>, Reason>(b@),
            Err(e) => signature_of(s@) == Err::<Seq<u8>, Reason>(e),
        },
{
    if payload_len(s) != 2 * SIGNATURE_LEN {
        return Err(Reason::WrongLength);
    }
    match bytes_from_hex(s) {
        None => Err(Reason::NonHex),
        Some(bytes) => {
            let v: u8 = bytes[SIGNATURE_LEN - 1];
            if v <= 1 || v == 27 || v == 28 || v >= 35 {
                Ok(bytes)
            } else {
                Err(Reason::InvalidRecoveryId)
            }
        },
    }
}

/// Whether every character of `s` is a decimal digit.
fn is_all_decimal(s: &str) -> (r: bool)
    ensures
        r == all_decimal(s@),
{
    if !s.is_ascii() {
        proof {
            if all_decimal(s@) {
                assert forall|i: int| 0 <= i < s@.len() implies '\0' <= #[trigger] s@[i]
                    <= '\u{7f}' by {
                    assert(is_decimal_digit(s@[i]));
                }
            }
        }
        return false;
    }
    let bytes = s.as_bytes();
    proof {
        is_ascii_spec_bytes(s);
    }
    let mut i: usize = 0;
    while i < bytes.len()
        invariant
            i <= bytes@.len(),
            bytes@.len() == s@.len(),
            vstd::string::is_ascii(s),
            forall|j: int| 0 <= j < bytes@.len() ==> bytes@[j] == s@[j] as u8,
            forall|j: int| 0 <= j < i ==> is_decimal_digit(#[trigger] s@[j]),
        decreases bytes@.len() - i,
    {
        let b: u8 = bytes[i];
        assert('\0' <= s@[i as int] <= '\u{7f}');
        if b < 0x30 || b > 0x39 {
            assert(!is_decimal_digit(s@[i as int]));
            return false;
        }
        i += 1;
    }
    true
}

/// Decodes an unsigned 256-bit integer from decimal text.
pub fn parse_amount(s: &str) -> (r: Result<Uint256, Reason>)
    ensures
        match r {
            Ok(v) => amount_of(s@) == Ok::<nat, Reason>(v@),
            Err(e) => amount_of(s@) == Err::<nat, Reason>(e),
        },
{
    let n: usize = s.unicode_len();
    if n > 0 && s.get_char(0) == '-' {
        return Err(Reason::NegativeSign);
    }
    if !is_all_decimal(s) {
        return Err(Reason::NonDecimal);
    }
    match u256_from_decimal(s) {
        Some(limbs) => Ok(Uint256 { limbs }),
        None => Err(Reason::OutOfRange),
    }
}

} // verus!
