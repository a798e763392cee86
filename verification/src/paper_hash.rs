//! Hashing and stream encryption for the RSA-based scheme.
use aes::Aes128;
use cipher::{KeyIvInit, StreamCipher};
use sha2::{Digest, Sha256, Sha512};
use vstd::prelude::*;

use crate::bytes::{self, cat2};
use crate::decimal::{decimal, decimal_bytes};

verus! {

/// What `Sha256::digest` returns for `input`.
pub uninterp spec fn sha256(input: Seq<u8>) -> Seq<u8>;

/// What `Sha512::digest` returns for `input`.
pub uninterp spec fn sha512(input: Seq<u8>) -> Seq<u8>;

/// The byte that `apply_keystream` of a fresh `Ofb<Aes128>` adds at a place of the data.
pub uninterp spec fn aes128_ofb_mask(key: Seq<u8>, iv: Seq<u8>, place: nat) -> u8;

/// Calls `Sha256::digest`: the digest is a function of the input alone.
#[verifier::external_body]
pub(crate) fn sha256_digest(input: &[u8]) -> (r: [u8; 32])
    ensures
        r@ == sha256(input@),
{
    Sha256::digest(input).into()
}

/// Calls `Sha512::digest`: the digest is a function of the input alone.
#[verifier::external_body]
pub(crate) fn sha512_digest(input: &[u8]) -> (r: [u8; 64])
    ensures
        r@ == sha512(input@),
{
    Sha512::digest(input).into()
}

/// Calls `apply_keystream` of a fresh `Ofb<Aes128>` on the whole of `data`. To each byte the
/// byte of the keystream at its place is added bit by bit. The keystream is the vector
/// encrypted over and over, and so depends on the key and the vector alone.
#[verifier::external_body]
fn ofb_apply(key: &[u8; 16], iv: &[u8; 16], data: &mut [u8])
    ensures
        final(data)@.len() == old(data)@.len(),
        forall|i: int|
            0 <= i < old(data)@.len() ==> #[trigger] final(data)@[i] == old(data)@[i]
                ^ aes128_ofb_mask(key@, iv@, i as nat),
{
    ofb::Ofb::<Aes128>::new(key.into(), iv.into()).apply_keystream(data);
}

/// What encryption or decryption under the first half of some key material gives.
pub open spec fn ofb_applied(key_material: Seq<u8>, iv: Seq<u8>, data: Seq<u8>) -> Seq<u8> {
    Seq::new(
        data.len(),
        |i: int| data[i] ^ aes128_ofb_mask(key_material.subrange(0, 16), iv, i as nat),
    )
}

/// What is encrypted under some key material is decrypted under every key material with the
/// same first half, with the same vector.
pub proof fn ofb_undone(a: Seq<u8>, b: Seq<u8>, iv: Seq<u8>, data: Seq<u8>)
    requires
        a.subrange(0, 16) == b.subrange(0, 16),
    ensures
        ofb_applied(b, iv, ofb_applied(a, iv, data)) == data,
{
    let key = a.subrange(0, 16);
    let there = ofb_applied(a, iv, data);
    let back = ofb_applied(b, iv, there);
    assert forall|i: int| 0 <= i < data.len() implies back[i] == data[i] by {
        let x = data[i];
        let m = aes128_ofb_mask(key, iv, i as nat);
        assert((x ^ m) ^ m == x) by (bit_vector);
    }
    assert(back =~= data);
}

/// What encryption does to a byte depends on the key, the vector, the byte and its place, not
/// on the bytes around it or on how many there are.
pub proof fn ofb_is_bytewise(key_material: Seq<u8>, iv: Seq<u8>, a: Seq<u8>, b: Seq<u8>, i: int)
    requires
        0 <= i < a.len(),
        i < b.len(),
    ensures
        ofb_applied(key_material, iv, a).len() == a.len(),
        ofb_applied(key_material, iv, a)[i] ^ a[i] == ofb_applied(key_material, iv, b)[i] ^ b[i],
        a[i] == b[i] ==> ofb_applied(key_material, iv, a)[i] == ofb_applied(
            key_material,
            iv,
            b,
        )[i],
{
    let m = aes128_ofb_mask(key_material.subrange(0, 16), iv, i as nat);
    let (x, y) = (a[i], b[i]);
    assert((x ^ m) ^ x == (y ^ m) ^ y) by (bit_vector);
}

/// Encrypts or decrypts data under the first half of the key material. Doing it twice
/// gives the data back.
pub fn aes128_ofb_apply(key_material: &[u8; 32], iv: &[u8; 16], data: &mut [u8])
    ensures
        final(data)@ == ofb_applied(key_material@, iv@, old(data)@),
        final(data)@.len() == old(data)@.len(),
        ofb_applied(key_material@, iv@, final(data)@) == old(data)@,
{
    let ghost d0 = data@;
    let key = bytes::piece::<16>(key_material, 0);
    ofb_apply(&key, iv, data);
    proof {
        assert(data@ =~= ofb_applied(key_material@, iv@, d0));
        ofb_undone(key_material@, key_material@, iv@, d0);
    }
}

/// The key of the server `id` under the function value `h`.
pub open spec fn server_key(h: Seq<u8>, id: u32) -> Seq<u8> {
    sha256(h + decimal(id as nat))
}

/// Derives the key of the server `id`.
pub fn derive_hi(h: &[u8; 32], id: u32) -> (r: [u8; 32])
    ensures
        r@ == server_key(h@, id),
{
    let digits = decimal_bytes(id as u128);
    sha256_digest(cat2(h, digits.as_slice()).as_slice())
}

} // verus!
