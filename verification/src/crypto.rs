//! The calls into the outside crates: base64 text, SHA-256, lower-case hex
//! and Ed25519 keys and signatures. Everything here is trusted: the contracts
//! state what the crates' sources and documentation show of each function.
use base64::Engine as _;
use ed25519_dalek::{Signer as _, Verifier as _};
use sha2::Digest as _;
use vstd::prelude::*;

use crate::encoding::base64_text;
use crate::encoding::Base64Failure;
use crate::encoding::base64_value;
use crate::encoding::hex_text;

verus! {

/// An Ed25519 signing key of `ed25519_dalek`.
#[verifier::external_type_specification]
#[verifier::external_body]
pub struct ExSigningKey(ed25519_dalek::SigningKey);

/// The `DecodeError` that the standard base64 engine reports for a text that
/// it rejects: which failure, at which offset, comes first in its scan.
pub uninterp spec fn base64_failure_of(text: Seq<char>) -> Base64Failure;

/// The 32 secret bytes that a signing key holds (what `SigningKey::to_bytes`
/// gives back).
pub uninterp spec fn signing_key_secret(key: ed25519_dalek::SigningKey) -> Seq<u8>;

/// The 32-byte SHA-256 digest of `data`.
pub uninterp spec fn sha256_digest_of(data: Seq<u8>) -> Seq<u8>;

/// The compressed Edwards point (public key) that `ed25519_dalek` derives from
/// a 32-byte secret key.
pub uninterp spec fn ed25519_public_key_of(secret: Seq<u8>) -> Seq<u8>;

/// The 64-byte Ed25519 signature of `message` under a 32-byte secret key.
pub uninterp spec fn ed25519_signature_of(secret: Seq<u8>, message: Seq<u8>) -> Seq<u8>;

/// Whether 32 bytes decompress to a point of the curve (a usable public key).
pub uninterp spec fn ed25519_point_decodes(public: Seq<u8>) -> bool;

/// Whether `ed25519_dalek` accepts `signature` on `message` under `public`.
pub uninterp spec fn ed25519_accepts(public: Seq<u8>, message: Seq<u8>, signature: Seq<u8>) -> bool;

/// `base64::engine::general_purpose::STANDARD.encode`: the standard alphabet
/// with `=` padding. The contract states the whole encoding.
#[verifier::external_body]
pub(crate) fn base64_encode(bytes: &[u8]) -> (text: String)
    ensures
        text@ == base64_text(bytes@),
{
    base64::engine::general_purpose::STANDARD.encode(bytes)
}

/// `base64::engine::general_purpose::STANDARD.decode`. That engine requires
/// canonical padding and rejects non-zero trailing bits, so it accepts exactly
/// the texts that its encoder produces, and gives back the encoded bytes. A
/// `DecodeError` is carried over variant by variant, its fields moved, and is
/// named by `base64_failure_of`.
#[verifier::external_body]
pub(crate) fn base64_decode(text: &str) -> (r: Result<Vec<u8>, Base64Failure>)
    ensures
        r is Ok <==> base64_value(text@) is Some,
        r matches Ok(bytes) ==> base64_text(bytes@) == text@,
        r matches Err(failure) ==> failure == base64_failure_of(text@),
{
    match base64::engine::general_purpose::STANDARD.decode(text) {
        Ok(bytes) => Ok(bytes),
        Err(base64::DecodeError::InvalidByte(at, byte)) => Err(Base64Failure::InvalidByte(at, byte)),
        Err(base64::DecodeError::InvalidLength(n)) => Err(Base64Failure::InvalidLength(n)),
        Err(base64::DecodeError::InvalidLastSymbol(at, byte)) => Err(Base64Failure::InvalidLastSymbol(at, byte)),
        Err(base64::DecodeError::InvalidPadding) => Err(Base64Failure::InvalidPadding),
    }
}

/// `sha2::Sha256::digest`: the SHA-256 digest of `data`, named by
/// `sha256_digest_of`; the contract claims only that it has 32 bytes.
#[verifier::external_body]
pub(crate) fn sha256(data: &[u8]) -> (digest: Vec<u8>)
    ensures
        digest@ == sha256_digest_of(data@),
        digest@.len() == 32,
{
    sha2::Sha256::digest(data).to_vec()
}

/// `hex::encode`: two lower-case hex digits per byte, high nibble first. The
/// contract states the whole encoding.
#[verifier::external_body]
pub(crate) fn hex_encode(bytes: &[u8]) -> (text: String)
    ensures
        text@ == hex_text(bytes@),
{
    hex::encode(bytes)
}

/// `SigningKey::generate` with `rand::rngs::OsRng`, kept as its secret bytes
/// (`SigningKey::to_bytes`). Nothing is claimed of the bytes but their number.
#[verifier::external_body]
pub(crate) fn random_secret_key() -> (secret: Vec<u8>)
    ensures
        secret@.len() == 32,
{
    ed25519_dalek::SigningKey::generate(&mut rand::rngs::OsRng).to_bytes().to_vec()
}

/// `SigningKey::from_bytes` on a 32-byte secret key. The key stores the
/// secret as given, and `SigningKey::to_bytes` returns it.
#[verifier::external_body]
pub(crate) fn signing_key_from_bytes(secret: &[u8]) -> (key: ed25519_dalek::SigningKey)
    requires
        secret@.len() == 32,
    ensures
        signing_key_secret(key) == secret@,
{
    let secret: &[u8; 32] = secret.try_into().unwrap();
    ed25519_dalek::SigningKey::from_bytes(secret)
}

/// `SigningKey::from_bytes(secret).verifying_key().to_bytes()`: the public key
/// of a secret key. The key that `ed25519_dalek` derives is a compressed point
/// of the curve, so `VerifyingKey::from_bytes` accepts it.
#[verifier::external_body]
pub(crate) fn ed25519_public_key(secret: &[u8]) -> (public: Vec<u8>)
    requires
        secret@.len() == 32,
    ensures
        public@ == ed25519_public_key_of(secret@),
        public@.len() == 32,
        ed25519_point_decodes(public@),
{
    let secret: &[u8; 32] = secret.try_into().unwrap();
    ed25519_dalek::SigningKey::from_bytes(secret).verifying_key().to_bytes().to_vec()
}

/// `SigningKey::from_bytes(secret).sign(message).to_bytes()`: the deterministic
/// Ed25519 signature. Ed25519 signing is correct: `VerifyingKey::verify`
/// accepts the signature under the public key of the same secret.
#[verifier::external_body]
pub(crate) fn ed25519_sign(secret: &[u8], message: &[u8]) -> (signature: Vec<u8>)
    requires
        secret@.len() == 32,
    ensures
        signature@ == ed25519_signature_of(secret@, message@),
        signature@.len() == 64,
        ed25519_accepts(ed25519_public_key_of(secret@), message@, signature@),
{
    let secret: &[u8; 32] = secret.try_into().unwrap();
    ed25519_dalek::SigningKey::from_bytes(secret).sign(message).to_bytes().to_vec()
}

/// `VerifyingKey::from_bytes(public).is_ok()`: whether 32 bytes decompress to
/// a curve point.
#[verifier::external_body]
pub(crate) fn ed25519_point_check(public: &[u8]) -> (ok: bool)
    requires
        public@.len() == 32,
    ensures
        ok == ed25519_point_decodes(public@),
{
    let public: &[u8; 32] = public.try_into().unwrap();
    ed25519_dalek::VerifyingKey::from_bytes(public).is_ok()
}

/// `VerifyingKey::verify` (the `Verifier` trait) on a public key that
/// decompresses and a 64-byte signature (`Signature::from_bytes`).
#[verifier::external_body]
pub(crate) fn ed25519_verify(public: &[u8], message: &[u8], signature: &[u8]) -> (ok: bool)
    requires
        public@.len() == 32,
        signature@.len() == 64,
        ed25519_point_decodes(public@),
    ensures
        ok == ed25519_accepts(public@, message@, signature@),
{
    let public: &[u8; 32] = public.try_into().unwrap();
    let signature: &[u8; 64] = signature.try_into().unwrap();
    match ed25519_dalek::VerifyingKey::from_bytes(public) {
        Ok(key) => key.verify(message, &ed25519_dalek::Signature::from_bytes(signature)).is_ok(),
        Err(_) => false,
    }
}

} // verus!
