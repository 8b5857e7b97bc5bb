//! The authorization gate: a request is authorized when the signer of its
//! canonical message, recovered from the signature, is the claiming user.

use crate::bindings::recover_signer;
use crate::codec::{address_of, parse_address, parse_signature, signature_of, Address, Reason};
use crate::text::{lemma_hex_text_case, lower_text};
use vstd::prelude::*;

verus! {

/// The address of the key that signed `message` with `signature`, where the
/// signature recovers one. It is computed outside this library, by ECDSA
/// recovery over secp256k1 on the Keccak-256 hash of the message framed as a
/// personal message.
pub uninterp spec fn recovered_signer(signature: Seq<u8>, message: Seq<u8>) -> Option<Seq<u8>>;

/// Whether the authorization signature is checked.
#[derive(Clone, Copy, Debug, PartialEq, Eq, Structural)]
pub enum VerificationPolicy {
    /// Every request must carry a signature of the claiming user.
    Enforce,
    /// No signature is checked and every request counts as authorized. For
    /// operation outside production only.
    Bypass,
}

impl Default for VerificationPolicy {
    /// Signatures are checked unless asked otherwise.
    fn default() -> (p: VerificationPolicy)
        ensures
            p == VerificationPolicy::Enforce,
    {
        VerificationPolicy::Enforce
    }
}

/// What stands for a recovered address in contracts.
pub open spec fn address_view(a: Option<Address>) -> Option<Seq<u8>> {
    match a {
        Some(a) => Some(a@),
        None => None,
    }
}

/// `user` spells an address, and `recovered` is that address.
pub open spec fn signer_is(user: Seq<char>, recovered: Option<Seq<u8>>) -> bool {
    match address_of(user) {
        Ok(a) => recovered == Some(a),
        Err(_) => false,
    }
}

/// `signature` is well-formed, and the signer it recovers for `message` is
/// the address that `user` spells.
pub open spec fn authority_holds(user: Seq<char>, signature: Seq<char>, message: Seq<u8>) -> bool {
    match signature_of(signature) {
        Ok(raw) => signer_is(user, recovered_signer(raw, message)),
        Err(_) => false,
    }
}

/// Whether two addresses are the same 20 bytes.
pub fn same_address(a: &Address, b: &Address) -> (r: bool)
    ensures
        r == (a@ == b@),
{
    let mut i: usize = 0;
    while i < 20
        invariant
            i <= 20,
            forall|j: int| 0 <= j < i ==> a.bytes@[j] == b.bytes@[j],
        decreases 20 - i,
    {
        if a.bytes[i] != b.bytes[i] {
            return false;
        }
        i += 1;
    }
    assert(a.bytes@ =~= b.bytes@);
    true
}

/// Whether `recovered` is the address that `user` spells. Text that spells
/// no address equals no signer.
pub fn signer_matches(user: &str, recovered: Option<Address>) -> (ok: bool)
    ensures
        ok == signer_is(user@, address_view(recovered)),
{
    match recovered {
        None => false,
        Some(signer) => match parse_address(user) {
            Ok(claimed) => same_address(&claimed, &signer),
            Err(_) => false,
        },
    }
}

/// Whether `signature` over `message` is that of `user`.
///
/// It is not where the signature is malformed, where it recovers no signer,
/// where `user` spells no address, or where the signer is another address.
pub fn check_authority(user: &str, signature: &str, message: &[u8]) -> (ok: bool)
    ensures
        ok == authority_holds(user@, signature@, message@),
{
    match parse_signature(signature) {
        Err(_) => false,
        Ok(raw) => {
            let recovered = match recover_signer(raw.as_slice(), message) {
                Some(bytes) => Some(Address { bytes }),
                None => None,
            };
            signer_matches(user, recovered)
        },
    }
}

/// A signature over a message authorizes one address only: if it holds for
/// two users, they spell the same address.
pub proof fn lemma_authority_one_signer(
    user: Seq<char>,
    other: Seq<char>,
    signature: Seq<char>,
    message: Seq<u8>,
)
    requires
        authority_holds(user, signature, message),
        authority_holds(other, signature, message),
    ensures
        address_of(user) == address_of(other),
{
}

/// A malformed signature authorizes nobody.
pub proof fn lemma_malformed_signature_unauthorized(
    user: Seq<char>,
    signature: Seq<char>,
    message: Seq<u8>,
    reason: Reason,
)
    requires
        signature_of(signature) == Err::<Seq<u8>, Reason>(reason),
    ensures
        !authority_holds(user, signature, message),
{
}

/// Addresses and signatures are compared by what they spell, not by the
/// letter case they are written in.
pub proof fn lemma_authority_ignores_case(
    user: Seq<char>,
    signature: Seq<char>,
    message: Seq<u8>,
)
    ensures
        authority_holds(lower_text(user), signature, message) == authority_holds(
            user,
            signature,
            message,
        ),
        authority_holds(user, lower_text(signature), message) == authority_holds(
            user,
            signature,
            message,
        ),
{
    lemma_hex_text_case(user);
    lemma_hex_text_case(signature);
    assert(address_of(lower_text(user)) == address_of(user));
    assert(signature_of(lower_text(signature)) == signature_of(signature));
}

} // verus!
