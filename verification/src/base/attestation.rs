//! Payload signing stubs: a signature is the lowercase hex SHA-256 digest of
//! `signer_id ":" key_id ":" payload`.

use sha2::Digest;
use vstd::prelude::*;
use vstd::utf8::encode_utf8;

use crate::base::types::SignatureEnvelope;
use crate::text::{hex_lower, hex_string, push_bytes};

verus! {

/// The SHA-256 digest of a byte string, as `sha2` computes it.
pub uninterp spec fn sha256(data: Seq<u8>) -> Seq<u8>;

/// Calls `sha2::Sha256::digest`. Trusted: the result is the digest that the
/// name `sha256` stands for, applied to the input bytes, and it is 32 bytes
/// long (the output size of `Sha256`). Nothing else about SHA-256 is stated.
#[verifier::external_body]
pub(crate) fn sha256_digest(data: &[u8]) -> (r: Vec<u8>)
    ensures
        r@ == sha256(data@),
        r@.len() == 32,
{
    sha2::Sha256::digest(data).to_vec()
}

/// Lowercase hex rendering of the SHA-256 digest of `data`.
pub open spec fn sha256_hex(data: Seq<u8>) -> Seq<char> {
    hex_lower(sha256(data))
}

/// Hashes `data` and renders the digest in lowercase hex.
pub fn sha256_hex_string(data: &[u8]) -> (r: String)
    ensures
        r@ == sha256_hex(data@),
{
    let digest = sha256_digest(data);
    hex_string(digest.as_slice())
}

/// The bytes that a signature covers.
pub open spec fn signing_input(payload: Seq<u8>, signer_id: Seq<char>, key_id: Seq<char>) -> Seq<u8> {
    encode_utf8(signer_id) + seq![58u8] + encode_utf8(key_id) + seq![58u8] + payload
}

/// The signature hex that `sign_payload` produces.
pub open spec fn signature_hex_for(payload: Seq<u8>, signer_id: Seq<char>, key_id: Seq<char>) -> Seq<char> {
    sha256_hex(signing_input(payload, signer_id, key_id))
}

/// Whether an envelope's signature is the one for `payload` under its own
/// signer and key.
pub open spec fn envelope_signs(signature: SignatureEnvelope, payload: Seq<u8>) -> bool {
    signature.signature_hex@ == signature_hex_for(payload, signature.signer_id@, signature.key_id@)
}

/// Signs `payload` for `signer_id` with `key_id`.
pub fn sign_payload(payload: &[u8], signer_id: &str, key_id: &str) -> (r: SignatureEnvelope)
    ensures
        r.signer_id@ == signer_id@,
        r.key_id@ == key_id@,
        r.signature_hex@ == signature_hex_for(payload@, signer_id@, key_id@),
{
    let mut input: Vec<u8> = Vec::new();
    push_bytes(&mut input, signer_id.as_bytes());
    input.push(58u8);
    push_bytes(&mut input, key_id.as_bytes());
    input.push(58u8);
    push_bytes(&mut input, payload);
    assert(input@ =~= signing_input(payload@, signer_id@, key_id@));
    let hex = sha256_hex_string(input.as_slice());
    SignatureEnvelope { signer_id: signer_id.to_owned(), signature_hex: hex, key_id: key_id.to_owned() }
}

/// Whether `signature` is the signature of `payload` under the envelope's
/// signer and key.
pub fn verify_payload(signature: &SignatureEnvelope, payload: &[u8]) -> (r: bool)
    ensures
        r == envelope_signs(*signature, payload@),
{
    let expected = sign_payload(payload, signature.signer_id.as_str(), signature.key_id.as_str());
    expected.signature_hex == signature.signature_hex
}

/// A payload signed with `sign_payload` verifies against the same payload:
/// the envelope that signing produces satisfies `envelope_signs`.
pub proof fn law_signed_payload_verifies(signature: SignatureEnvelope, payload: Seq<u8>, signer_id: Seq<char>, key_id: Seq<char>)
    requires
        signature.signer_id@ == signer_id,
        signature.key_id@ == key_id,
        signature.signature_hex@ == signature_hex_for(payload, signer_id, key_id),
    ensures
        envelope_signs(signature, payload),
{
}

} // verus!
