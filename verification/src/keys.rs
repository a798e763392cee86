//! Key agreement and signatures.
use ed25519_dalek::{Signer, Verifier};
use vstd::prelude::*;

verus! {

/// The secret bytes of a signing key.
pub type SigningKey = [u8; 32];

/// The bytes of a verifying key.
pub type VerifyingKey = [u8; 32];

/// The bytes of a signature.
pub type Signature = [u8; 64];

/// The public key that `x25519_dalek::PublicKey::from` computes for a secret.
pub uninterp spec fn x25519_public(secret: Seq<u8>) -> Seq<u8>;

/// What `x25519_dalek::StaticSecret::diffie_hellman` returns.
pub uninterp spec fn x25519_shared(secret: Seq<u8>, public: Seq<u8>) -> Seq<u8>;

/// The public key of the `ed25519_dalek::SigningKey` with the given secret bytes.
pub uninterp spec fn ed25519_public(secret: Seq<u8>) -> Seq<u8>;

/// The signature that `ed25519_dalek::SigningKey::sign` returns.
pub uninterp spec fn ed25519_sign(secret: Seq<u8>, message: Seq<u8>) -> Seq<u8>;

/// Whether `ed25519_dalek::VerifyingKey::from_bytes` accepts the bytes.
pub uninterp spec fn ed25519_key_valid(public: Seq<u8>) -> bool;

/// Whether `ed25519_dalek::VerifyingKey::verify` accepts the signature.
pub uninterp spec fn ed25519_verify(public: Seq<u8>, message: Seq<u8>, sig: Seq<u8>) -> bool;

/// Calls `PublicKey::from` on the `StaticSecret` with the given bytes.
#[verifier::external_body]
pub(crate) fn x25519_public_key(secret: &[u8; 32]) -> (r: [u8; 32])
    ensures
        r@ == x25519_public(secret@),
{
    x25519_dalek::PublicKey::from(&x25519_dalek::StaticSecret::from(*secret)).to_bytes()
}

/// Calls `StaticSecret::diffie_hellman`. The holder of the other secret computes
/// the same value from this side's public key.
#[verifier::external_body]
pub(crate) fn x25519_agree(secret: &[u8; 32], public: &[u8; 32]) -> (r: [u8; 32])
    ensures
        r@ == x25519_shared(secret@, public@),
        forall|other: Seq<u8>|
            other.len() == 32 && public@ == #[trigger] x25519_public(other) ==> r@
                == x25519_shared(other, x25519_public(secret@)),
{
    let sk = x25519_dalek::StaticSecret::from(*secret);
    sk.diffie_hellman(&x25519_dalek::PublicKey::from(*public)).to_bytes()
}

/// Calls `SigningKey::verifying_key`. The result is a valid verifying key.
#[verifier::external_body]
pub(crate) fn ed25519_public_key(secret: &[u8; 32]) -> (r: [u8; 32])
    ensures
        r@ == ed25519_public(secret@),
        ed25519_key_valid(r@),
{
    ed25519_dalek::SigningKey::from_bytes(secret).verifying_key().to_bytes()
}

/// Calls `SigningKey::sign`. The signature verifies under the key's public half.
#[verifier::external_body]
pub(crate) fn sign(secret: &[u8; 32], message: &[u8]) -> (r: [u8; 64])
    ensures
        r@ == ed25519_sign(secret@, message@),
        ed25519_verify(ed25519_public(secret@), message@, r@),
{
    ed25519_dalek::SigningKey::from_bytes(secret).sign(message).to_bytes()
}

/// Calls `VerifyingKey::from_bytes` and reports whether it succeeded.
#[verifier::external_body]
pub(crate) fn verifying_key_is_valid(public: &[u8; 32]) -> (r: bool)
    ensures
        r == ed25519_key_valid(public@),
{
    ed25519_dalek::VerifyingKey::from_bytes(public).is_ok()
}

/// Calls `VerifyingKey::verify` on the key with the given bytes. Bytes that are no
/// key verify nothing.
#[verifier::external_body]
pub(crate) fn verify(public: &[u8; 32], message: &[u8], sig: &[u8; 64]) -> (r: bool)
    ensures
        r == ed25519_verify(public@, message@, sig@),
        !ed25519_key_valid(public@) ==> !r,
{
    match ed25519_dalek::VerifyingKey::from_bytes(public) {
        Ok(key) => key.verify(message, &ed25519_dalek::Signature::from_bytes(sig)).is_ok(),
        Err(_) => false,
    }
}

} // verus!
