//! The primitives of AugSSO that are measured, with the inputs that they are measured on.
use vstd::prelude::*;
use vstd::string::StringSliceAdditionalSpecFns;

use crate::aead::{
    opened, sealed, xchacha_decrypt_detached, xchacha_encrypt_detached,
    xchacha_encrypt_detached_with_nonce, AeadError, CtBlob,
};
use crate::augsso::PLD_LEN;
use crate::augsso_auth::no_aad;
use crate::augsso_fixture::{first_ids, make_first_ids, seed_for, seed_of, Fixture};
use crate::bls::{g1_mul, order, pairing_check_sig, signature_holds, Scalar, G1, G2};
use crate::bytes;
use crate::crypto_augsso::{
    combine_g1_at_zero, hash_to_g1, hashed_g1, pke_dec, pke_enc, pke_enc_with_eph_and_nonce, pke_kg,
    pke_opened, pke_sealed, pke_secret, PkeCt, PkeKeypair,
};
use crate::field::{lagrange_coeffs_at_zero, vals, weights};
use crate::group::{combined_at_zero, encs, Group};
use crate::keys::x25519_public;
use crate::rng::{Rng, RngState};

verus! {

/// A primitive that is measured.
#[derive(Clone, Copy, Debug, PartialEq, Eq, Structural)]
pub enum AugPrim {
    HashPassword,
    HashPayload,
    Lagrange,
    Combine,
    Pairing,
    KeyPair,
    Encrypt,
    Decrypt,
    Seal32,
    Open32,
    Seal112,
    Open112,
}

/// The primitives in the order in which they are measured.
pub open spec fn aug_prims() -> Seq<AugPrim> {
    seq![
        AugPrim::HashPassword,
        AugPrim::HashPayload,
        AugPrim::Lagrange,
        AugPrim::Combine,
        AugPrim::Pairing,
        AugPrim::KeyPair,
        AugPrim::Encrypt,
        AugPrim::Decrypt,
        AugPrim::Seal32,
        AugPrim::Open32,
        AugPrim::Seal112,
        AugPrim::Open112,
    ]
}

/// Lists the primitives.
pub fn all_aug_prims() -> (r: Vec<AugPrim>)
    ensures
        r@ == aug_prims(),
{
    let r = vec![
        AugPrim::HashPassword,
        AugPrim::HashPayload,
        AugPrim::Lagrange,
        AugPrim::Combine,
        AugPrim::Pairing,
        AugPrim::KeyPair,
        AugPrim::Encrypt,
        AugPrim::Decrypt,
        AugPrim::Seal32,
        AugPrim::Open32,
        AugPrim::Seal112,
        AugPrim::Open112,
    ];
    assert(r@ =~= aug_prims());
    r
}

/// The name under which a primitive is reported.
pub open spec fn aug_prim_name(p: AugPrim) -> Seq<char> {
    match p {
        AugPrim::HashPassword => "hash_to_g1_pw"@,
        AugPrim::HashPayload => "hash_to_g1_pld"@,
        AugPrim::Lagrange => "lagrange_coeffs"@,
        AugPrim::Combine => "combine_g1"@,
        AugPrim::Pairing => "pairing_check"@,
        AugPrim::KeyPair => "pke_kg"@,
        AugPrim::Encrypt => "pke_encrypt"@,
        AugPrim::Decrypt => "pke_decrypt"@,
        AugPrim::Seal32 => "aead_encrypt_32"@,
        AugPrim::Open32 => "aead_decrypt_32"@,
        AugPrim::Seal112 => "aead_encrypt_112"@,
        AugPrim::Open112 => "aead_decrypt_112"@,
    }
}

impl AugPrim {
    /// The name under which the primitive is reported.
    pub fn name(self) -> (r: &'static str)
        ensures
            r@ == aug_prim_name(self),
    {
        match self {
            AugPrim::HashPassword => "hash_to_g1_pw",
            AugPrim::HashPayload => "hash_to_g1_pld",
            AugPrim::Lagrange => "lagrange_coeffs",
            AugPrim::Combine => "combine_g1",
            AugPrim::Pairing => "pairing_check",
            AugPrim::KeyPair => "pke_kg",
            AugPrim::Encrypt => "pke_encrypt",
            AugPrim::Decrypt => "pke_decrypt",
            AugPrim::Seal32 => "aead_encrypt_32",
            AugPrim::Open32 => "aead_decrypt_32",
            AugPrim::Seal112 => "aead_encrypt_112",
            AugPrim::Open112 => "aead_decrypt_112",
        }
    }
}

/// What a primitive returns.
#[derive(Debug)]
pub enum AugPrimOut {
    Point(G1),
    Scalars(Vec<Scalar>),
    Truth(bool),
    Keys(PkeKeypair),
    Encrypted(PkeCt<64>),
    Decrypted(Result<[u8; 64], AeadError>),
    Sealed32(CtBlob<32>),
    Opened32(Result<[u8; 32], AeadError>),
    Sealed112(CtBlob<112>),
    Opened112(Result<[u8; 112], AeadError>),
}

/// One byte, repeated.
pub open spec fn filled(x: u8, n: nat) -> Seq<u8> {
    Seq::new(n, |i: int| x)
}

/// The inputs of the primitives.
pub struct AugPrims {
    pub password: Vec<u8>,
    pub pld: [u8; PLD_LEN],
    pub ids: Vec<u32>,
    pub points: Vec<G1>,
    pub h: G1,
    pub sig: G1,
    pub pk: G2,
    pub keys: PkeKeypair,
    pub encrypted: PkeCt<64>,
    pub sealed32: CtBlob<32>,
    pub sealed112: CtBlob<112>,
    pub rng_pke: Rng,
    pub rng32: Rng,
    pub rng112: Rng,
}

/// The element that stands at place `i` in the combination that is measured.
pub open spec fn sample_point(i: int) -> Seq<u8> {
    hashed_g1("augsso/prim/pt".spec_bytes(), seq![(i % 256) as u8])
}

impl AugPrims {
    /// The inputs are those for a deployment with `n` servers and threshold `t`.
    pub open spec fn prepared(self, fx: Fixture, n: usize, t: usize) -> bool {
        &&& self.password@ == fx.password@
        &&& self.pld == fx.pld
        &&& self.ids@ == first_ids(t as nat)
        &&& encs(self.points@) == Seq::new(t as nat, |i: int| sample_point(i))
        &&& self.h@ == hashed_g1("augsso/H_pld/v1".spec_bytes(), fx.pld@)
        &&& self.sig@ == g1_mul(self.h@, fx.servers@[0]@.gamma_i)
        &&& self.pk == fx.gamma_pk
        &&& self.keys.sk@ == pke_secret(filled(7, 32))
        &&& self.keys.pk@ == x25519_public(self.keys.sk@)
        &&& self.encrypted@ == pke_sealed(
            self.keys.pk@,
            no_aad(),
            filled(9, 64),
            filled(1, 32),
            filled(2, 24),
        )
        &&& self.sealed32@ == sealed(filled(3, 32), no_aad(), filled(4, 32), filled(5, 24))
        &&& self.sealed112@ == sealed(filled(6, 32), no_aad(), filled(7, 112), filled(8, 24))
        &&& self.rng_pke@ == RngState::start(
            seed_of("bench_augsso/prim/pke_enc_rng".spec_bytes(), n, t),
        )
        &&& self.rng32@ == RngState::start(
            seed_of("bench_augsso/prim/aead32_rng".spec_bytes(), n, t),
        )
        &&& self.rng112@ == RngState::start(
            seed_of("bench_augsso/prim/aead112_rng".spec_bytes(), n, t),
        )
    }

    /// What is measured as decryption gives the plaintexts back.
    pub open spec fn opens(self) -> bool {
        &&& pke_opened(self.keys.sk@, no_aad(), self.encrypted@) == Some(filled(9, 64))
        &&& opened(filled(3, 32), no_aad(), self.sealed32@) == Some(filled(4, 32))
        &&& opened(filled(6, 32), no_aad(), self.sealed112@) == Some(filled(7, 112))
        &&& self.ids@.len() == self.points@.len()
    }

    /// The inputs for a deployment.
    pub fn prepare(fx: &Fixture, n: usize, t: usize) -> (r: AugPrims)
        requires
            fx.servers@.len() > 0,
            t <= u32::MAX,
        ensures
            r.prepared(*fx, n, t),
            r.opens(),
    {
        let aad: [u8; 0] = [];
        assert(aad@ =~= no_aad());
        let ids = make_first_ids(t);
        let mut points: Vec<G1> = Vec::with_capacity(t);
        let mut i: usize = 0;
        while i < t
            invariant
                i <= t,
                points@.len() == i,
                forall|k: int| 0 <= k < i ==> (#[trigger] points@[k])@ == sample_point(k),
            decreases t - i,
        {
            let b: [u8; 1] = [(i % 256) as u8];
            assert(b@ =~= seq![(i as int % 256) as u8]);
            points.push(hash_to_g1("augsso/prim/pt".as_bytes(), &b));
            i = i + 1;
        }
        proof {
            assert(encs(points@) =~= Seq::new(t as nat, |i: int| sample_point(i))) by {
                assert forall|k: int| 0 <= k < t implies #[trigger] encs(points@)[k]
                    == sample_point(k) by {
                    assert(points@[k]@ == sample_point(k));
                }
            }
        }
        let h = hash_to_g1("augsso/H_pld/v1".as_bytes(), &fx.pld);
        let sig = h.scale(fx.servers[0].gamma_i);
        let keys = pke_kg(&seven());
        let encrypted = pke_enc_with_eph_and_nonce::<64>(
            &keys.pk,
            &aad,
            &nine(),
            &one(),
            &two(),
        );
        let sealed32 = xchacha_encrypt_detached_with_nonce::<32>(&three(), &aad, &four(), &five());
        let sealed112 = xchacha_encrypt_detached_with_nonce::<112>(
            &six(),
            &aad,
            &sevens(),
            &eight(),
        );
        AugPrims {
            password: bytes::copy_bytes(fx.password.as_slice()),
            pld: fx.pld,
            ids,
            points,
            h,
            sig,
            pk: fx.gamma_pk,
            keys,
            encrypted,
            sealed32,
            sealed112,
            rng_pke: Rng::from_seed(
                seed_for("bench_augsso/prim/pke_enc_rng".as_bytes(), n, t),
            ),
            rng32: Rng::from_seed(seed_for("bench_augsso/prim/aead32_rng".as_bytes(), n, t)),
            rng112: Rng::from_seed(seed_for("bench_augsso/prim/aead112_rng".as_bytes(), n, t)),
        }
    }

    /// What a primitive returns on the inputs; with `timed`, random values are drawn.
    pub open spec fn yields(self, p: AugPrim, timed: bool, out: AugPrimOut) -> bool {
        match p {
            AugPrim::HashPassword => out matches AugPrimOut::Point(x) && x@ == hashed_g1(
                "augsso/H_pw/v1".spec_bytes(),
                self.password@,
            ),
            AugPrim::HashPayload => out matches AugPrimOut::Point(x) && x@ == hashed_g1(
                "augsso/H_pld/v1".spec_bytes(),
                self.pld@,
            ),
            AugPrim::Lagrange => out matches AugPrimOut::Scalars(v) && vals(v@) == weights(
                self.ids@,
                order(),
            ),
            AugPrim::Combine => out matches AugPrimOut::Point(x) && x@ == combined_at_zero::<G1>(
                self.ids@,
                encs(self.points@),
            ),
            AugPrim::Pairing => out matches AugPrimOut::Truth(b) && b == signature_holds(
                self.h@,
                self.sig@,
                self.pk@,
            ),
            AugPrim::KeyPair => out matches AugPrimOut::Keys(k) && k.sk@ == pke_secret(
                filled(42, 32),
            ) && k.pk@ == x25519_public(k.sk@),
            AugPrim::Encrypt => out matches AugPrimOut::Encrypted(c) && c@ == pke_sealed(
                self.keys.pk@,
                no_aad(),
                filled(9, 64),
                if timed {
                    self.rng_pke@.bytes(32)
                } else {
                    filled(1, 32)
                },
                if timed {
                    self.rng_pke@.skip(32).bytes(24)
                } else {
                    filled(2, 24)
                },
            ),
            AugPrim::Decrypt => out matches AugPrimOut::Decrypted(Ok(m)) && m@ == filled(9, 64),
            AugPrim::Seal32 => out matches AugPrimOut::Sealed32(c) && c@ == sealed(
                filled(3, 32),
                no_aad(),
                filled(4, 32),
                if timed {
                    self.rng32@.bytes(24)
                } else {
                    filled(5, 24)
                },
            ),
            AugPrim::Open32 => out matches AugPrimOut::Opened32(Ok(m)) && m@ == filled(4, 32),
            AugPrim::Seal112 => out matches AugPrimOut::Sealed112(c) && c@ == sealed(
                filled(6, 32),
                no_aad(),
                filled(7, 112),
                if timed {
                    self.rng112@.bytes(24)
                } else {
                    filled(8, 24)
                },
            ),
            AugPrim::Open112 => out matches AugPrimOut::Opened112(Ok(m)) && m@ == filled(7, 112),
        }
    }

    /// Runs a primitive once.
    #[verifier::rlimit(40)]
    pub fn run(&mut self, p: AugPrim, timed: bool) -> (r: AugPrimOut)
        requires
            old(self).opens(),
        ensures
            old(self).yields(p, timed, r),
            *final(self) == (AugPrims {
                rng_pke: final(self).rng_pke,
                rng32: final(self).rng32,
                rng112: final(self).rng112,
                ..*old(self)
            }),
            final(self).rng_pke@ == if timed && p == AugPrim::Encrypt {
                old(self).rng_pke@.skip(32).skip(24)
            } else {
                old(self).rng_pke@
            },
            final(self).rng32@ == if timed && p == AugPrim::Seal32 {
                old(self).rng32@.skip(24)
            } else {
                old(self).rng32@
            },
            final(self).rng112@ == if timed && p == AugPrim::Seal112 {
                old(self).rng112@.skip(24)
            } else {
                old(self).rng112@
            },
    {
        let aad: [u8; 0] = [];
        assert(aad@ =~= no_aad());
        match p {
            AugPrim::HashPassword => AugPrimOut::Point(
                hash_to_g1("augsso/H_pw/v1".as_bytes(), self.password.as_slice()),
            ),
            AugPrim::HashPayload => AugPrimOut::Point(
                hash_to_g1("augsso/H_pld/v1".as_bytes(), &self.pld),
            ),
            AugPrim::Lagrange => AugPrimOut::Scalars(
                lagrange_coeffs_at_zero::<Scalar>(self.ids.as_slice()),
            ),
            AugPrim::Combine => AugPrimOut::Point(
                combine_g1_at_zero(self.ids.as_slice(), self.points.as_slice()),
            ),
            AugPrim::Pairing => AugPrimOut::Truth(
                pairing_check_sig(&self.h, &self.sig, &self.pk),
            ),
            AugPrim::KeyPair => AugPrimOut::Keys(pke_kg(&forty_two())),
            AugPrim::Encrypt => {
                if timed {
                    AugPrimOut::Encrypted(
                        pke_enc::<64>(&self.keys.pk, &aad, &nine(), &mut self.rng_pke),
                    )
                } else {
                    AugPrimOut::Encrypted(
                        pke_enc_with_eph_and_nonce::<64>(
                            &self.keys.pk,
                            &aad,
                            &nine(),
                            &one(),
                            &two(),
                        ),
                    )
                }
            },
            AugPrim::Decrypt => AugPrimOut::Decrypted(
                pke_dec::<64>(&self.keys.sk, &aad, &self.encrypted),
            ),
            AugPrim::Seal32 => {
                if timed {
                    AugPrimOut::Sealed32(
                        xchacha_encrypt_detached::<32>(&three(), &aad, &four(), &mut self.rng32),
                    )
                } else {
                    AugPrimOut::Sealed32(
                        xchacha_encrypt_detached_with_nonce::<32>(
                            &three(),
                            &aad,
                            &four(),
                            &five(),
                        ),
                    )
                }
            },
            AugPrim::Open32 => AugPrimOut::Opened32(
                xchacha_decrypt_detached::<32>(&three(), &aad, &self.sealed32),
            ),
            AugPrim::Seal112 => {
                if timed {
                    AugPrimOut::Sealed112(
                        xchacha_encrypt_detached::<112>(
                            &six(),
                            &aad,
                            &sevens(),
                            &mut self.rng112,
                        ),
                    )
                } else {
                    AugPrimOut::Sealed112(
                        xchacha_encrypt_detached_with_nonce::<112>(
                            &six(),
                            &aad,
                            &sevens(),
                            &eight(),
                        ),
                    )
                }
            },
            AugPrim::Open112 => AugPrimOut::Opened112(
                xchacha_decrypt_detached::<112>(&six(), &aad, &self.sealed112),
            ),
        }
    }
}

fn one() -> (r: [u8; 32])
    ensures
        r@ == filled(1, 32),
{
    let r: [u8; 32] = [1u8; 32];
    assert(r@ =~= filled(1, 32));
    r
}

fn two() -> (r: [u8; 24])
    ensures
        r@ == filled(2, 24),
{
    let r: [u8; 24] = [2u8; 24];
    assert(r@ =~= filled(2, 24));
    r
}

fn three() -> (r: [u8; 32])
    ensures
        r@ == filled(3, 32),
{
    let r: [u8; 32] = [3u8; 32];
    assert(r@ =~= filled(3, 32));
    r
}

fn four() -> (r: [u8; 32])
    ensures
        r@ == filled(4, 32),
{
    let r: [u8; 32] = [4u8; 32];
    assert(r@ =~= filled(4, 32));
    r
}

fn five() -> (r: [u8; 24])
    ensures
        r@ == filled(5, 24),
{
    let r: [u8; 24] = [5u8; 24];
    assert(r@ =~= filled(5, 24));
    r
}

fn six() -> (r: [u8; 32])
    ensures
        r@ == filled(6, 32),
{
    let r: [u8; 32] = [6u8; 32];
    assert(r@ =~= filled(6, 32));
    r
}

fn seven() -> (r: [u8; 32])
    ensures
        r@ == filled(7, 32),
{
    let r: [u8; 32] = [7u8; 32];
    assert(r@ =~= filled(7, 32));
    r
}

fn sevens() -> (r: [u8; 112])
    ensures
        r@ == filled(7, 112),
{
    let r: [u8; 112] = [7u8; 112];
    assert(r@ =~= filled(7, 112));
    r
}

fn eight() -> (r: [u8; 24])
    ensures
        r@ == filled(8, 24),
{
    let r: [u8; 24] = [8u8; 24];
    assert(r@ =~= filled(8, 24));
    r
}

fn nine() -> (r: [u8; 64])
    ensures
        r@ == filled(9, 64),
{
    let r: [u8; 64] = [9u8; 64];
    assert(r@ =~= filled(9, 64));
    r
}

fn forty_two() -> (r: [u8; 32])
    ensures
        r@ == filled(42, 32),
{
    let r: [u8; 32] = [42u8; 32];
    assert(r@ =~= filled(42, 32));
    r
}

} // verus!
