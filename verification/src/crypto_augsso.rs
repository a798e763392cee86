//! Hashing to the pairing groups and public-key encryption.
use vstd::prelude::*;
use vstd::string::StringSliceAdditionalSpecFns;

use crate::aead::{self, opened, sealed, AeadError, Blob, CtBlob};
use crate::bls::{g1_of, order, Scalar, G1, G2};
use crate::bytes::{self, cat2, cat3, le_bytes, le_nat};
use crate::field::Field;
use crate::group::{combine_at_zero, combined_at_zero, encs, on_polynomial, Group};
use crate::hash::{self, blake3_hash, blake3_wide, tagged};
use crate::interpolation::eval;
use crate::keys::{self, x25519_public, x25519_shared};
use crate::rng::{Rng, RngState};

verus! {

pub const PKE_PK_LEN: usize = 32;

pub const PKE_SK_LEN: usize = 32;

pub const PKE_EPHEMERAL_PK_LEN: usize = 32;

/// The number that a message is hashed to.
pub open spec fn hashed_scalar(domain: Seq<u8>, msg: Seq<u8>) -> nat {
    le_nat(blake3_wide(domain + msg)) % order()
}

/// The group element that a message is hashed to.
pub open spec fn hashed_g1(domain: Seq<u8>, msg: Seq<u8>) -> Seq<u8> {
    g1_of(hashed_scalar(domain, msg))
}

/// Hashes a message to the first group.
pub fn hash_to_g1(domain: &[u8], msg: &[u8]) -> (r: G1)
    ensures
        r@ == hashed_g1(domain@, msg@),
{
    let wide = hash::wide_hash(domain, msg);
    let s = Scalar::from_bytes_wide(&wide);
    G1::generator_times(s)
}

/// Hashes a message to a nonzero scalar: one stands in for zero.
pub fn hash_to_scalar_nonzero(domain: &[u8], msg: &[u8]) -> (r: Scalar)
    ensures
        r@ == if hashed_scalar(domain@, msg@) == 0 {
            1
        } else {
            hashed_scalar(domain@, msg@)
        },
{
    let wide = hash::wide_hash(domain, msg);
    let s = Scalar::from_bytes_wide(&wide);
    if s.is_zero() {
        Scalar::of_u64(1)
    } else {
        s
    }
}

/// Hashes a scalar.
pub fn hash_scalar_to_32(domain: &[u8], s: &Scalar) -> (r: [u8; 32])
    ensures
        r@ == blake3_hash(domain@ + le_bytes(s@, 32)),
{
    let b = s.to_bytes();
    hash::digest(cat2(domain, &b).as_slice())
}

/// Hashes a group element and some bytes.
pub fn hash_g1_and_bytes_to_32(domain: &[u8], p: &G1, b: &[u8]) -> (r: [u8; 32])
    ensures
        r@ == blake3_hash(domain@ + p@ + b@),
{
    let enc = crate::bls::g1_to_bytes(p);
    hash::digest(cat3(domain, &enc, b).as_slice())
}

/// The number of scalars in one period of the generator.
pub const DRAWS_PER_PERIOD: u128 = 0x1_0000_0000_0000_0000;

/// The first nonzero scalar among the next `left` draws, and the generator after it.
pub open spec fn first_nonzero(rng: RngState, left: nat) -> (Option<nat>, RngState)
    decreases left,
{
    if left == 0 {
        (None, rng)
    } else {
        let v = le_nat(rng.bytes(64)) % order();
        if v != 0 {
            (Some(v), rng.skip(64))
        } else {
            first_nonzero(rng.skip(64), (left - 1) as nat)
        }
    }
}

/// The first nonzero scalar in the period of the generator.
pub open spec fn nonzero_drawn(rng: RngState) -> (Option<nat>, RngState) {
    first_nonzero(rng, DRAWS_PER_PERIOD as nat)
}

/// Draws scalars until one is not zero. There is none where a whole period of the
/// generator holds only zeros.
pub fn random_scalar_nonzero(rng: &mut Rng) -> (r: Option<Scalar>)
    ensures
        match r {
            Some(s) => nonzero_drawn(old(rng)@).0 == Some(s@) && s@ != 0,
            None => nonzero_drawn(old(rng)@).0 is None,
        },
        final(rng)@ == nonzero_drawn(old(rng)@).1,
{
    let mut left: u128 = DRAWS_PER_PERIOD;
    while left > 0
        invariant
            left <= DRAWS_PER_PERIOD,
            first_nonzero(rng@, left as nat) == nonzero_drawn(old(rng)@),
        decreases left,
    {
        let s: Scalar = Scalar::random(rng);
        if !s.is_zero() {
            return Some(s);
        }
        left = left - 1;
    }
    None
}

/// Combines partial results in the first group. Partial multiples of one element by the
/// shares of a secret give its multiple by the secret.
pub fn combine_g1_at_zero(ids: &[u32], partials: &[G1]) -> (r: G1)
    requires
        ids@.len() == partials@.len(),
    ensures
        r@ == combined_at_zero::<G1>(ids@, encs(partials@)),
        forall|g: Seq<u8>, c: Seq<int>| #[trigger]
            on_polynomial::<G1>(encs(partials@), g, ids@, c) && crate::field::distinct(ids@)
                && c.len() <= ids@.len() ==> r@ == G1::mul_of(
                g,
                (eval(c, 0) % (order() as int)) as nat,
            ),
{
    combine_at_zero::<G1>(ids, partials)
}

/// Combines partial results in the second group.
pub fn combine_g2_at_zero(ids: &[u32], partials: &[G2]) -> (r: G2)
    requires
        ids@.len() == partials@.len(),
    ensures
        r@ == combined_at_zero::<G2>(ids@, encs(partials@)),
        forall|g: Seq<u8>, c: Seq<int>| #[trigger]
            on_polynomial::<G2>(encs(partials@), g, ids@, c) && crate::field::distinct(ids@)
                && c.len() <= ids@.len() ==> r@ == G2::mul_of(
                g,
                (eval(c, 0) % (order() as int)) as nat,
            ),
{
    combine_at_zero::<G2>(ids, partials)
}

/// A key pair for public-key encryption.
#[derive(Clone, Copy, Debug)]
pub struct PkeKeypair {
    pub pk: [u8; 32],
    pub sk: [u8; 32],
}

/// A public-key ciphertext of a plaintext of `PT_LEN` bytes.
#[derive(Clone, Copy, Debug)]
pub struct PkeCt<const PT_LEN: usize> {
    pub eph_pk: [u8; 32],
    pub blob: CtBlob<PT_LEN>,
}

/// What a public-key ciphertext holds.
#[verifier::ext_equal]
pub struct PkeBox {
    pub eph_pk: Seq<u8>,
    pub blob: Blob,
}

impl<const PT_LEN: usize> View for PkeCt<PT_LEN> {
    type V = PkeBox;

    open spec fn view(&self) -> PkeBox {
        PkeBox { eph_pk: self.eph_pk@, blob: self.blob@ }
    }
}

/// The secret key that a seed gives.
pub open spec fn pke_secret(seed: Seq<u8>) -> Seq<u8> {
    tagged("augsso/pke/kg/v1".spec_bytes(), seed)
}

/// Derives a key pair from a seed.
pub fn pke_kg(seed32: &[u8; 32]) -> (r: PkeKeypair)
    ensures
        r.sk@ == pke_secret(seed32@),
        r.pk@ == x25519_public(r.sk@),
{
    let sk = hash::hash_tagged("augsso/pke/kg/v1", seed32);
    let pk = keys::x25519_public_key(&sk);
    PkeKeypair { pk, sk }
}

/// The symmetric key for an agreed secret.
pub open spec fn pke_key(shared: Seq<u8>, eph_pk: Seq<u8>, pk: Seq<u8>) -> Seq<u8> {
    tagged("augsso/pke/kdf/v1".spec_bytes(), shared + eph_pk + pk)
}

fn pke_kdf(shared: &[u8; 32], eph_pk: &[u8; 32], pk: &[u8; 32]) -> (r: [u8; 32])
    ensures
        r@ == pke_key(shared@, eph_pk@, pk@),
{
    hash::hash_tagged("augsso/pke/kdf/v1", cat3(shared, eph_pk, pk).as_slice())
}

/// The ciphertext under a public key, an ephemeral secret and a nonce.
pub open spec fn pke_sealed(
    pk: Seq<u8>,
    aad: Seq<u8>,
    plaintext: Seq<u8>,
    eph_sk: Seq<u8>,
    nonce: Seq<u8>,
) -> PkeBox {
    let eph_pk = x25519_public(eph_sk);
    let key = pke_key(x25519_shared(eph_sk, pk), eph_pk, pk);
    PkeBox { eph_pk, blob: sealed(key, aad, plaintext, nonce) }
}

/// What decryption with a secret key yields.
pub open spec fn pke_opened(sk: Seq<u8>, aad: Seq<u8>, ct: PkeBox) -> Option<Seq<u8>> {
    let key = pke_key(x25519_shared(sk, ct.eph_pk), ct.eph_pk, x25519_public(sk));
    opened(key, aad, ct.blob)
}

/// Encrypts to a public key with an ephemeral secret and a nonce from `rng`. The holder
/// of the secret key gets the plaintext back.
pub fn pke_enc<const PT_LEN: usize>(
    pk_bytes: &[u8; 32],
    aad: &[u8],
    plaintext: &[u8; PT_LEN],
    rng: &mut Rng,
) -> (r: PkeCt<PT_LEN>)
    requires
        PT_LEN < aead::MAX_PLAINTEXT,
    ensures
        r@ == pke_sealed(
            pk_bytes@,
            aad@,
            plaintext@,
            old(rng)@.bytes(32),
            old(rng)@.skip(32).bytes(24),
        ),
        forall|sk: Seq<u8>|
            sk.len() == 32 && pk_bytes@ == #[trigger] x25519_public(sk) ==> pke_opened(sk, aad@, r@)
                == Some(plaintext@),
        final(rng)@ == old(rng)@.skip(32).skip(24),
{
    let eph_sk = rng.take_array::<32>();
    let nonce = rng.take_array::<24>();
    pke_enc_with_eph_and_nonce(pk_bytes, aad, plaintext, &eph_sk, &nonce)
}

/// Encrypts to a public key with the given ephemeral secret and nonce. The holder of
/// the secret key gets the plaintext back.
pub fn pke_enc_with_eph_and_nonce<const PT_LEN: usize>(
    pk_bytes: &[u8; 32],
    aad: &[u8],
    plaintext: &[u8; PT_LEN],
    eph_sk_bytes: &[u8; 32],
    nonce: &[u8; 24],
) -> (r: PkeCt<PT_LEN>)
    requires
        PT_LEN < aead::MAX_PLAINTEXT,
    ensures
        r@ == pke_sealed(pk_bytes@, aad@, plaintext@, eph_sk_bytes@, nonce@),
        forall|sk: Seq<u8>|
            sk.len() == 32 && pk_bytes@ == #[trigger] x25519_public(sk) ==> pke_opened(sk, aad@, r@)
                == Some(plaintext@),
{
    let eph_pk = keys::x25519_public_key(eph_sk_bytes);
    let shared = keys::x25519_agree(eph_sk_bytes, pk_bytes);
    let key = pke_kdf(&shared, &eph_pk, pk_bytes);
    let blob = aead::xchacha_encrypt_detached_with_nonce(&key, aad, plaintext, nonce);
    PkeCt { eph_pk, blob }
}

/// Decrypts with a secret key.
pub fn pke_dec<const PT_LEN: usize>(sk_bytes: &[u8; 32], aad: &[u8], ct: &PkeCt<PT_LEN>) -> (r:
    Result<[u8; PT_LEN], AeadError>)
    ensures
        match r {
            Ok(pt) => pke_opened(sk_bytes@, aad@, ct@) == Some(pt@),
            Err(_) => pke_opened(sk_bytes@, aad@, ct@) is None,
        },
{
    let shared = keys::x25519_agree(sk_bytes, &ct.eph_pk);
    let pk = keys::x25519_public_key(sk_bytes);
    let key = pke_kdf(&shared, &ct.eph_pk, &pk);
    aead::xchacha_decrypt_detached(&key, aad, &ct.blob)
}

/// The length of a serialized ciphertext.
pub fn pke_ct_len<const PT_LEN: usize>() -> (r: usize)
    requires
        PT_LEN + 72 <= usize::MAX,
    ensures
        r == PT_LEN + 72,
{
    PKE_EPHEMERAL_PK_LEN + aead::NONCE_LEN + PT_LEN + aead::TAG_LEN
}

/// The bytes of a ciphertext: ephemeral key, nonce, ciphertext, tag.
pub open spec fn pke_flat(ct: PkeBox) -> Seq<u8> {
    ct.eph_pk + ct.blob.nonce + ct.blob.ct + ct.blob.tag
}

/// The ciphertext that some bytes hold.
pub open spec fn pke_unflat(b: Seq<u8>) -> PkeBox {
    PkeBox {
        eph_pk: b.subrange(0, 32),
        blob: Blob {
            nonce: b.subrange(32, 56),
            ct: b.subrange(56, b.len() - 16),
            tag: b.subrange(b.len() - 16, b.len() as int),
        },
    }
}

/// Writes a ciphertext out.
pub fn pke_serialize<const PT_LEN: usize>(ct: &PkeCt<PT_LEN>) -> (r: Vec<u8>)
    ensures
        r@ == pke_flat(ct@),
        r@.len() == PT_LEN + 72,
{
    bytes::cat4(&ct.eph_pk, &ct.blob.nonce, &ct.blob.ct, &ct.blob.tag)
}

/// Reads a ciphertext. Only the length can be wrong.
pub fn pke_deserialize<const PT_LEN: usize>(b: &[u8]) -> (r: Option<PkeCt<PT_LEN>>)
    requires
        PT_LEN + 72 <= usize::MAX,
    ensures
        r is Some <==> b@.len() == PT_LEN + 72,
        r matches Some(ct) ==> ct@ == pke_unflat(b@),
{
    if b.len() != pke_ct_len::<PT_LEN>() {
        return None;
    }
    let eph_pk = bytes::piece::<32>(b, 0);
    let nonce = bytes::piece::<24>(b, 32);
    let ct = bytes::piece::<PT_LEN>(b, 56);
    let tag = bytes::piece::<16>(b, 56 + PT_LEN);
    Some(PkeCt { eph_pk, blob: CtBlob { nonce, ct, tag } })
}

/// Reading undoes writing.
pub proof fn pke_written_reads_back(ct: PkeBox)
    requires
        ct.eph_pk.len() == 32,
        ct.blob.nonce.len() == 24,
        ct.blob.tag.len() == 16,
    ensures
        pke_unflat(pke_flat(ct)) == ct,
{
    let b = pke_flat(ct);
    assert(b.subrange(0, 32) =~= ct.eph_pk);
    assert(b.subrange(32, 56) =~= ct.blob.nonce);
    assert(b.subrange(56, b.len() - 16) =~= ct.blob.ct);
    assert(b.subrange(b.len() - 16, b.len() as int) =~= ct.blob.tag);
}

/// Writing undoes reading.
pub proof fn pke_read_writes_back(b: Seq<u8>)
    requires
        b.len() >= 72,
    ensures
        pke_flat(pke_unflat(b)) == b,
{
    assert(pke_flat(pke_unflat(b)) =~= b);
}

} // verus!
