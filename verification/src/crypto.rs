//! Trusted boundary to the cryptographic primitives: content hashing
//! through `sha2` and Ed25519 signatures through `everscale_crypto`.
//! Everything else in the crate is verified against the names and
//! contracts stated here.

use vstd::prelude::*;

use crate::models::{Digest, PeerId, Signature};

verus! {

/// The SHA-256 digest of a byte string.
pub uninterp spec fn sha256_of(data: Seq<u8>) -> Seq<u8>;

/// Whether `signature` is a valid Ed25519 signature over `message` by the
/// holder of the public key `author`.
pub uninterp spec fn sig_valid(author: Seq<u8>, message: Seq<u8>, signature: Seq<u8>) -> bool;

/// Relies on `sha2::Sha256::digest`: the digest is a function of the input
/// bytes alone and is 32 bytes long.
#[verifier::external_body]
pub fn sha256(data: &[u8]) -> (r: Digest)
    ensures
        r@ == sha256_of(data@),
        r@.len() == 32,
{
    Digest(<sha2::Sha256 as sha2::Digest>::digest(data).into())
}

/// Relies on `everscale_crypto::ed25519::PublicKey::from_bytes` and
/// `PublicKey::verify_raw`: both are functions of their byte arguments
/// alone; a byte string that is no valid public key verifies nothing.
#[verifier::external_body]
pub fn ed25519_verify(author: &PeerId, message: &[u8], signature: &Signature) -> (r: bool)
    ensures
        r == sig_valid(author@, message@, signature@),
{
    match everscale_crypto::ed25519::PublicKey::from_bytes(author.0) {
        Some(public_key) => public_key.verify_raw(message, &signature.0),
        None => false,
    }
}

/// An Ed25519 key pair of the local node, as `everscale_crypto` holds it.
#[verifier::external_type_specification]
#[verifier::external_body]
pub struct ExKeyPair(everscale_crypto::ed25519::KeyPair);

/// Relies on `everscale_crypto::ed25519::KeyPair::sign_raw`. Nothing is
/// assumed of the returned bytes.
#[verifier::external_body]
pub fn keypair_sign(key_pair: &everscale_crypto::ed25519::KeyPair, message: &[u8]) -> (r:
    Signature) {
    Signature(key_pair.sign_raw(message))
}

} // verus!
