//! Trusted boundary around the cryptographic primitives: SHA-256 digests and
//! Ed25519 key handling, signing and verification. Each wrapper's contract
//! states what the underlying crate documents; the digest and signature
//! contents themselves are named, not spelled out.

use vstd::prelude::*;

use ed25519_dalek::Signer;
use ed25519_dalek::Verifier;
use sha2::Digest;

verus! {

/// The SHA-256 digest of a byte sequence.
pub uninterp spec fn sha256_of(data: Seq<u8>) -> Seq<u8>;

/// Relies on sha2's Sha256: the digest is a pure function of the input bytes
/// and is 32 bytes long.
#[verifier::external_body]
pub fn sha256(data: &[u8]) -> (r: Vec<u8>)
    ensures
        r@ == sha256_of(data@),
        r@.len() == 32,
{
    sha2::Sha256::digest(data).to_vec()
}

/// The Ed25519 public key derived from a 32-byte secret key.
pub uninterp spec fn ed25519_pubkey_of(secret: Seq<u8>) -> Seq<u8>;

/// The Ed25519 signature over a message under a 32-byte secret key.
pub uninterp spec fn ed25519_sign_of(secret: Seq<u8>, msg: Seq<u8>) -> Seq<u8>;

/// Whether Ed25519 verification accepts a signature over a message under a
/// public key.
pub uninterp spec fn ed25519_verifies(pubkey: Seq<u8>, msg: Seq<u8>, sig: Seq<u8>) -> bool;

/// Relies on rand's thread_rng and ed25519_dalek's SigningKey::generate:
/// a fresh secret key of 32 bytes.
#[verifier::external_body]
pub fn ed25519_generate() -> (r: Vec<u8>)
    ensures
        r@.len() == 32,
{
    ed25519_dalek::SigningKey::generate(&mut rand::thread_rng()).to_bytes().to_vec()
}

/// Relies on ed25519_dalek's SigningKey::verifying_key: the public key is a
/// pure function of the secret key and is 32 bytes long.
#[verifier::external_body]
pub fn ed25519_public_key(secret: &[u8]) -> (r: Vec<u8>)
    requires
        secret@.len() == 32,
    ensures
        r@ == ed25519_pubkey_of(secret@),
        r@.len() == 32,
{
    let bytes: [u8; 32] = secret.try_into().unwrap();
    ed25519_dalek::SigningKey::from_bytes(&bytes).verifying_key().to_bytes().to_vec()
}

/// Relies on ed25519_dalek's Signer::sign: RFC 8032 signing is deterministic
/// in the secret key and message, produces 64 bytes, and the produced
/// signature is accepted by verification under the corresponding public key.
#[verifier::external_body]
pub fn ed25519_sign(secret: &[u8], msg: &[u8]) -> (r: Vec<u8>)
    requires
        secret@.len() == 32,
    ensures
        r@ == ed25519_sign_of(secret@, msg@),
        r@.len() == 64,
        ed25519_verifies(ed25519_pubkey_of(secret@), msg@, r@),
{
    let bytes: [u8; 32] = secret.try_into().unwrap();
    ed25519_dalek::SigningKey::from_bytes(&bytes).sign(msg).to_vec()
}

/// Relies on ed25519_dalek's VerifyingKey::from_bytes and Verifier::verify:
/// acceptance is a pure function of the public key, message and signature
/// bytes; a byte string that is no valid public key accepts nothing.
#[verifier::external_body]
pub fn ed25519_verify(pubkey: &[u8], msg: &[u8], sig: &[u8]) -> (r: bool)
    requires
        pubkey@.len() == 32,
        sig@.len() == 64,
    ensures
        r == ed25519_verifies(pubkey@, msg@, sig@),
{
    let pk: [u8; 32] = pubkey.try_into().unwrap();
    let sg: [u8; 64] = sig.try_into().unwrap();
    match ed25519_dalek::VerifyingKey::from_bytes(&pk) {
        Ok(vk) => vk.verify(msg, &ed25519_dalek::Signature::from_bytes(&sg)).is_ok(),
        Err(_) => false,
    }
}

} // verus!
