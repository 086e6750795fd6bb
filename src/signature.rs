//! Checking a BLS12-381 signature over a message against the authorized key.
//!
//! Keys and signatures travel as hexadecimal text: a public key is 48 bytes
//! (a G1 point), a signature 96 bytes (a G2 point).
use vstd::prelude::*;
use vstd::utf8::encode_utf8;

verus! {

pub open spec fn is_hex_digit(c: char) -> bool {
    ('0' <= c && c <= '9') || ('a' <= c && c <= 'f') || ('A' <= c && c <= 'F')
}

pub open spec fn hex_digit_value(c: char) -> nat {
    if '0' <= c && c <= '9' {
        (c as u32 - '0' as u32) as nat
    } else if 'a' <= c && c <= 'f' {
        (c as u32 - 'a' as u32 + 10) as nat
    } else {
        (c as u32 - 'A' as u32 + 10) as nat
    }
}

/// `s` is the hexadecimal text of exactly `n` bytes, in either case.
pub open spec fn is_hex_of_len(s: Seq<char>, n: nat) -> bool {
    &&& s.len() == 2 * n
    &&& forall|i: int| 0 <= i < s.len() ==> is_hex_digit(#[trigger] s[i])
}

/// The bytes that the hexadecimal text `s` spells, two digits per byte,
/// high digit first.
pub open spec fn hex_decode(s: Seq<char>) -> Seq<u8> {
    Seq::new(
        s.len() / 2,
        |i: int| (16 * hex_digit_value(s[2 * i]) + hex_digit_value(s[2 * i + 1])) as u8,
    )
}

/// Whether `signature` is a valid BLS12-381 (G2, proof-of-possession
/// ciphersuite) signature of `message` under `public_key`.
pub uninterp spec fn bls12381_v1_verifies(
    message: Seq<u8>,
    public_key: Seq<u8>,
    signature: Seq<u8>,
) -> bool;

/// Relies on `Bls12381G1PublicKey::from_str`: hex decoding (`hex::decode`,
/// either case, even length) followed by a check that exactly 48 bytes came
/// out.
#[verifier::external_body]
pub(crate) fn decode_public_key(s: &str) -> (r: Option<[u8; 48]>)
    ensures
        r.is_some() <==> is_hex_of_len(s@, 48),
        r matches Some(k) ==> k@ == hex_decode(s@),
{
    <scrypto::crypto::Bls12381G1PublicKey as std::str::FromStr>::from_str(s).ok().map(|k| k.0)
}

/// Relies on `Bls12381G2Signature::from_str`: hex decoding (`hex::decode`,
/// either case, even length) followed by a check that exactly 96 bytes came
/// out.
#[verifier::external_body]
fn decode_signature(s: &str) -> (r: Option<[u8; 96]>)
    ensures
        r.is_some() <==> is_hex_of_len(s@, 96),
        r matches Some(g) ==> g@ == hex_decode(s@),
{
    <scrypto::crypto::Bls12381G2Signature as std::str::FromStr>::from_str(s).ok().map(|g| g.0)
}

/// Relies on `verify_bls12381_v1`: a pure pairing check of the three byte
/// strings, false for encodings that are not curve points.
#[verifier::external_body]
fn verify_bls12381_v1(message: &[u8], public_key: &[u8; 48], signature: &[u8; 96]) -> (r: bool)
    ensures
        r == bls12381_v1_verifies(message@, public_key@, signature@),
{
    scrypto::crypto::verify_bls12381_v1(
        message,
        &scrypto::crypto::Bls12381G1PublicKey(*public_key),
        &scrypto::crypto::Bls12381G2Signature(*signature),
    )
}

/// Whether the hexadecimal `signature` is a valid signature of the UTF-8
/// bytes of `message` under `public_key`.
pub open spec fn signature_accepted(
    public_key: Seq<u8>,
    message: Seq<char>,
    signature: Seq<char>,
) -> bool {
    &&& is_hex_of_len(signature, 96)
    &&& bls12381_v1_verifies(encode_utf8(message), public_key, hex_decode(signature))
}

/// Checks the hexadecimal `signature` of `message` against `public_key`; a
/// signature that is not well-formed hexadecimal of 96 bytes is refused.
pub fn check_signature(message: &str, signature: &str, public_key: &[u8; 48]) -> (r: bool)
    ensures
        r == signature_accepted(public_key@, message@, signature@),
{
    match decode_signature(signature) {
        Some(sig) => verify_bls12381_v1(message.as_bytes(), public_key, &sig),
        None => false,
    }
}

} // verus!
