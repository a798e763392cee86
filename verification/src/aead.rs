//! Authenticated encryption with detached tags.
use chacha20poly1305::aead::{generic_array::GenericArray, AeadInPlace, KeyInit};
use chacha20poly1305::{XChaCha20Poly1305, XNonce};
use vstd::prelude::*;

use crate::bytes;
use crate::rng::Rng;

verus! {

pub const NONCE_LEN: usize = 24;

pub const TAG_LEN: usize = 16;

/// The length from which `XChaCha20Poly1305` refuses a plaintext.
pub const MAX_PLAINTEXT: u64 = 0x3f_ffff_ffc0;

/// The ciphertext and the tag that `XChaCha20Poly1305::encrypt_in_place_detached` gives.
pub uninterp spec fn xchacha_seal(
    key: Seq<u8>,
    nonce: Seq<u8>,
    aad: Seq<u8>,
    plaintext: Seq<u8>,
) -> (Seq<u8>, Seq<u8>);

/// The plaintext that `XChaCha20Poly1305::decrypt_in_place_detached` recovers, or
/// `None` where it reports an error.
pub uninterp spec fn xchacha_open(
    key: Seq<u8>,
    nonce: Seq<u8>,
    aad: Seq<u8>,
    ct: Seq<u8>,
    tag: Seq<u8>,
) -> Option<Seq<u8>>;

/// Calls `XChaCha20Poly1305::encrypt_in_place_detached`. The ciphertext is as long
/// as the plaintext, and decryption with the same key, nonce and associated data
/// gives the plaintext back.
#[verifier::external_body]
fn seal<const PT_LEN: usize>(
    key: &[u8; 32],
    nonce: &[u8; 24],
    aad: &[u8],
    plaintext: &[u8; PT_LEN],
) -> (r: ([u8; PT_LEN], [u8; 16]))
    requires
        PT_LEN < MAX_PLAINTEXT,
    ensures
        (r.0@, r.1@) == xchacha_seal(key@, nonce@, aad@, plaintext@),
        xchacha_open(key@, nonce@, aad@, r.0@, r.1@) == Some(plaintext@),
{
    let cipher = XChaCha20Poly1305::new(GenericArray::from_slice(key));
    let mut ct = *plaintext;
    let tag = cipher.encrypt_in_place_detached(XNonce::from_slice(nonce), aad, &mut ct).unwrap();
    (ct, tag.into())
}

/// Calls `XChaCha20Poly1305::decrypt_in_place_detached`; its error is `None`.
#[verifier::external_body]
fn open_sealed<const PT_LEN: usize>(
    key: &[u8; 32],
    nonce: &[u8; 24],
    aad: &[u8],
    ct: &[u8; PT_LEN],
    tag: &[u8; 16],
) -> (r: Option<[u8; PT_LEN]>)
    ensures
        match r {
            Some(pt) => xchacha_open(key@, nonce@, aad@, ct@, tag@) == Some(pt@),
            None => xchacha_open(key@, nonce@, aad@, ct@, tag@) is None,
        },
{
    let cipher = XChaCha20Poly1305::new(GenericArray::from_slice(key));
    let mut pt = *ct;
    let tag = GenericArray::from_slice(tag);
    cipher.decrypt_in_place_detached(XNonce::from_slice(nonce), aad, &mut pt, tag).ok().map(|_| pt)
}

/// A nonce, a ciphertext and a tag.
#[verifier::ext_equal]
pub struct Blob {
    pub nonce: Seq<u8>,
    pub ct: Seq<u8>,
    pub tag: Seq<u8>,
}

impl Blob {
    /// The three fields, one after the other.
    pub open spec fn flat(self) -> Seq<u8> {
        self.nonce + self.ct + self.tag
    }
}

/// What encryption of `plaintext` under a nonce yields.
pub open spec fn sealed(key: Seq<u8>, aad: Seq<u8>, plaintext: Seq<u8>, nonce: Seq<u8>) -> Blob {
    let (ct, tag) = xchacha_seal(key, nonce, aad, plaintext);
    Blob { nonce, ct, tag }
}

/// What decryption of a blob yields.
pub open spec fn opened(key: Seq<u8>, aad: Seq<u8>, blob: Blob) -> Option<Seq<u8>> {
    xchacha_open(key, blob.nonce, aad, blob.ct, blob.tag)
}

/// A ciphertext of a plaintext of `PT_LEN` bytes.
#[derive(Clone, Copy, Debug)]
pub struct CtBlob<const PT_LEN: usize> {
    pub nonce: [u8; 24],
    pub ct: [u8; PT_LEN],
    pub tag: [u8; 16],
}

impl<const PT_LEN: usize> View for CtBlob<PT_LEN> {
    type V = Blob;

    open spec fn view(&self) -> Blob {
        Blob { nonce: self.nonce@, ct: self.ct@, tag: self.tag@ }
    }
}

/// Reported when a ciphertext does not authenticate.
#[derive(Clone, Copy, Debug, PartialEq, Eq, Structural)]
pub struct AeadError;

/// Encrypts under a nonce taken from `rng`.
pub fn xchacha_encrypt_detached<const PT_LEN: usize>(
    key: &[u8; 32],
    aad: &[u8],
    plaintext: &[u8; PT_LEN],
    rng: &mut Rng,
) -> (r: CtBlob<PT_LEN>)
    requires
        PT_LEN < MAX_PLAINTEXT,
    ensures
        r@ == sealed(key@, aad@, plaintext@, old(rng)@.bytes(24)),
        opened(key@, aad@, r@) == Some(plaintext@),
        final(rng)@ == old(rng)@.skip(24),
{
    let nonce = rng.take_array::<24>();
    xchacha_encrypt_detached_with_nonce(key, aad, plaintext, &nonce)
}

/// Encrypts under the given nonce.
pub fn xchacha_encrypt_detached_with_nonce<const PT_LEN: usize>(
    key: &[u8; 32],
    aad: &[u8],
    plaintext: &[u8; PT_LEN],
    nonce: &[u8; 24],
) -> (r: CtBlob<PT_LEN>)
    requires
        PT_LEN < MAX_PLAINTEXT,
    ensures
        r@ == sealed(key@, aad@, plaintext@, nonce@),
        opened(key@, aad@, r@) == Some(plaintext@),
{
    let (ct, tag) = seal(key, nonce, aad, plaintext);
    CtBlob { nonce: *nonce, ct, tag }
}

/// Decrypts and authenticates.
pub fn xchacha_decrypt_detached<const PT_LEN: usize>(
    key: &[u8; 32],
    aad: &[u8],
    blob: &CtBlob<PT_LEN>,
) -> (r: Result<[u8; PT_LEN], AeadError>)
    ensures
        match r {
            Ok(pt) => opened(key@, aad@, blob@) == Some(pt@),
            Err(_) => opened(key@, aad@, blob@) is None,
        },
{
    match open_sealed(key, &blob.nonce, aad, &blob.ct, &blob.tag) {
        Some(pt) => Ok(pt),
        None => Err(AeadError),
    }
}

} // verus!
