//! The primitives of PAS-TA-U that are measured, with the inputs that they are measured on.
use vstd::prelude::*;
use vstd::string::StringSliceAdditionalSpecFns;

use crate::aead::{
    opened, sealed, xchacha_decrypt_detached, xchacha_encrypt_detached,
    xchacha_encrypt_detached_with_nonce, AeadError, Blob, CtBlob,
};
use crate::augsso_auth::{after_nonces, no_aad};
use crate::augsso_fixture::{first_ids, make_first_ids, seed_for, seed_of};
use crate::augsso_prims::filled;
use crate::bls::{g1_mul, G1};
use crate::bytes::{self, cat2, push_bytes};
use crate::crypto_pastau::{
    hash_hi, hi_of, toprf_encode, toprf_eval_share, token_base, token_verifies, ttg_combine,
    ttg_hash_to_g1, ttg_part_eval, ttg_verify, TtgShare, TtgToken, TtgVk,
};
use crate::field::{lagrange_coeffs_at_zero, vals, weights, Field};
use crate::group::{combined_at_zero, encs};
use crate::pastau::blinded;
use crate::pastau_fixture::Fixture;
use crate::pastau_steps::{draw_nonces, nonce_seqs, nonces_from};
use crate::pastau_update::{all_hi, derive_all_hi, key_seqs, serialize_update_blob};
use crate::ristretto::{order, ristretto_mul, Point, Scalar};
use crate::rng::{Rng, RngState};
use crate::toprf::{
    self, hash_to_point, password_point, scalar_drawn, toprf_client_eval_from_partials,
    unblinded_key,
};

verus! {

/// A primitive whose inputs do not depend on the number of servers.
#[derive(Clone, Copy, Debug, PartialEq, Eq, Structural)]
pub enum PasPrim {
    HashToPoint,
    Encode,
    EvalShare,
    HashKey,
    SealToken,
    OpenToken,
    SealUpdate,
    OpenUpdate,
    HashToG1,
    PartEval,
    Verify,
}

/// The primitives in the order in which they are measured.
pub open spec fn pas_prims() -> Seq<PasPrim> {
    seq![
        PasPrim::HashToPoint,
        PasPrim::Encode,
        PasPrim::EvalShare,
        PasPrim::HashKey,
        PasPrim::SealToken,
        PasPrim::OpenToken,
        PasPrim::SealUpdate,
        PasPrim::OpenUpdate,
        PasPrim::HashToG1,
        PasPrim::PartEval,
        PasPrim::Verify,
    ]
}

/// Lists the primitives.
pub fn all_pas_prims() -> (r: Vec<PasPrim>)
    ensures
        r@ == pas_prims(),
{
    let r = vec![
        PasPrim::HashToPoint,
        PasPrim::Encode,
        PasPrim::EvalShare,
        PasPrim::HashKey,
        PasPrim::SealToken,
        PasPrim::OpenToken,
        PasPrim::SealUpdate,
        PasPrim::OpenUpdate,
        PasPrim::HashToG1,
        PasPrim::PartEval,
        PasPrim::Verify,
    ];
    assert(r@ =~= pas_prims());
    r
}

/// The name under which a primitive is reported.
pub open spec fn pas_prim_name(p: PasPrim) -> Seq<char> {
    match p {
        PasPrim::HashToPoint => "top_hash_to_point"@,
        PasPrim::Encode => "top_encode"@,
        PasPrim::EvalShare => "top_eval_share"@,
        PasPrim::HashKey => "hash_hi_one"@,
        PasPrim::SealToken => "aead_encrypt_sig"@,
        PasPrim::OpenToken => "aead_decrypt_sig"@,
        PasPrim::SealUpdate => "aead_encrypt_update"@,
        PasPrim::OpenUpdate => "aead_decrypt_update"@,
        PasPrim::HashToG1 => "ttg_hash_to_g1"@,
        PasPrim::PartEval => "ttg_part_eval"@,
        PasPrim::Verify => "ttg_verify"@,
    }
}

impl PasPrim {
    /// The name under which the primitive is reported.
    pub fn name(self) -> (r: &'static str)
        ensures
            r@ == pas_prim_name(self),
    {
        match self {
            PasPrim::HashToPoint => "top_hash_to_point",
            PasPrim::Encode => "top_encode",
            PasPrim::EvalShare => "top_eval_share",
            PasPrim::HashKey => "hash_hi_one",
            PasPrim::SealToken => "aead_encrypt_sig",
            PasPrim::OpenToken => "aead_decrypt_sig",
            PasPrim::SealUpdate => "aead_encrypt_update",
            PasPrim::OpenUpdate => "aead_decrypt_update",
            PasPrim::HashToG1 => "ttg_hash_to_g1",
            PasPrim::PartEval => "ttg_part_eval",
            PasPrim::Verify => "ttg_verify",
        }
    }
}

/// What a primitive returns.
#[derive(Debug)]
pub enum PasPrimOut {
    Point(Point),
    Bytes([u8; 32]),
    G1(G1),
    Truth(bool),
    SealedToken(CtBlob<48>),
    OpenedToken(Result<[u8; 48], AeadError>),
    SealedUpdate(CtBlob<64>),
    OpenedUpdate(Result<[u8; 64], AeadError>),
}

/// The inputs of the primitives.
pub struct PasPrims {
    pub password: Vec<u8>,
    pub rho: Scalar,
    pub req: Point,
    pub share: Scalar,
    pub ttg_share: TtgShare,
    pub token: TtgToken,
    pub vk: TtgVk,
    pub sealed_token: CtBlob<48>,
    pub sealed_update: CtBlob<64>,
    pub rng_token: Rng,
    pub rng_update: Rng,
}

/// The generator for a tag without parameters, at its beginning.
pub open spec fn plain_rng(tag: Seq<u8>) -> RngState {
    RngState::start(seed_of(tag, 0, 0))
}

/// The two partial tokens that the measured token is combined of.
pub open spec fn two_partials(fx: Fixture) -> Seq<Seq<u8>> {
    Seq::new(2, |i: int| g1_mul(token_base(filled(5, 64)), fx.servers@[i]@.ttg_share))
}

impl PasPrims {
    /// The inputs are those for a deployment.
    pub open spec fn prepared(self, fx: Fixture) -> bool {
        &&& self.password@ == fx.password@
        &&& self.rho@ == 7
        &&& self.req@ == blinded(fx.password@, 7)
        &&& self.share@ == fx.servers@[0]@.records[fx.c.0@].k_i
        &&& self.ttg_share@ == fx.servers@[0]@.ttg_share
        &&& self.token@ == combined_at_zero::<G1>(first_ids(2), two_partials(fx))
        &&& self.vk == fx.vk
        &&& self.sealed_token@ == sealed(
            filled(7, 32),
            no_aad(),
            filled(9, 48),
            plain_rng("bench_pastau/prim/aead_sig_dec_rng".spec_bytes()).bytes(24),
        )
        &&& self.sealed_update@ == sealed(
            filled(7, 32),
            no_aad(),
            filled(9, 64),
            plain_rng("bench_pastau/prim/aead_update_dec_rng".spec_bytes()).bytes(24),
        )
        &&& self.rng_token@ == plain_rng("bench_pastau/prim/aead_sig_enc_rng".spec_bytes())
        &&& self.rng_update@ == plain_rng("bench_pastau/prim/aead_update_enc_rng".spec_bytes())
    }

    /// What is measured as decryption gives the plaintexts back.
    pub open spec fn opens(self) -> bool {
        &&& opened(filled(7, 32), no_aad(), self.sealed_token@) == Some(filled(9, 48))
        &&& opened(filled(7, 32), no_aad(), self.sealed_update@) == Some(filled(9, 64))
    }

    /// The inputs for a deployment of at least two servers, the first of which knows the
    /// client.
    #[verifier::rlimit(40)]
    pub fn prepare(fx: &Fixture) -> (r: Option<PasPrims>)
        requires
            fx.servers@.len() >= 2,
        ensures
            r is Some <==> fx.servers@[0]@.records.dom().contains(fx.c.0@),
            r matches Some(p) ==> p.prepared(*fx) && p.opens(),
    {
        let aad: [u8; 0] = [];
        assert(aad@ =~= no_aad());
        let rho = Scalar::of_u64(7);
        let req = toprf_encode(fx.password.as_slice(), rho);
        let share = match fx.servers[0].get_record(fx.c) {
            Some(rec) => rec.k_i,
            None => {
                return None;
            },
        };
        let msg = fives();
        let ids = make_first_ids(2);
        let first = ttg_part_eval(&fx.servers[0].ttg_share, &msg);
        let second = ttg_part_eval(&fx.servers[1].ttg_share, &msg);
        let mut partials: Vec<G1> = Vec::new();
        partials.push(first);
        partials.push(second);
        proof {
            assert(encs(partials@) =~= two_partials(*fx)) by {
                assert(encs(partials@)[0] == first@);
                assert(encs(partials@)[1] == second@);
            }
        }
        let token = ttg_combine(ids.as_slice(), partials.as_slice());
        let mut rng_a = Rng::from_seed(
            seed_for("bench_pastau/prim/aead_sig_dec_rng".as_bytes(), 0, 0),
        );
        let sealed_token = xchacha_encrypt_detached::<48>(
            &seven(),
            &aad,
            &nine_token(),
            &mut rng_a,
        );
        let mut rng_b = Rng::from_seed(
            seed_for("bench_pastau/prim/aead_update_dec_rng".as_bytes(), 0, 0),
        );
        let sealed_update = xchacha_encrypt_detached::<64>(
            &seven(),
            &aad,
            &nine_update(),
            &mut rng_b,
        );
        Some(
            PasPrims {
                password: bytes::copy_bytes(fx.password.as_slice()),
                rho,
                req,
                share,
                ttg_share: fx.servers[0].ttg_share,
                token,
                vk: fx.vk,
                sealed_token,
                sealed_update,
                rng_token: Rng::from_seed(
                    seed_for("bench_pastau/prim/aead_sig_enc_rng".as_bytes(), 0, 0),
                ),
                rng_update: Rng::from_seed(
                    seed_for("bench_pastau/prim/aead_update_enc_rng".as_bytes(), 0, 0),
                ),
            },
        )
    }

    /// What a primitive returns on the inputs; with `timed`, random values are drawn.
    pub open spec fn yields(self, p: PasPrim, timed: bool, out: PasPrimOut) -> bool {
        match p {
            PasPrim::HashToPoint => out matches PasPrimOut::Point(x) && x@ == password_point(
                self.password@,
            ),
            PasPrim::Encode => out matches PasPrimOut::Bytes(b) && b@ == blinded(
                self.password@,
                self.rho@,
            ),
            PasPrim::EvalShare => out matches PasPrimOut::Bytes(b) && b@ == ristretto_mul(
                self.req@,
                self.share@,
            ),
            PasPrim::HashKey => out matches PasPrimOut::Bytes(b) && b@ == hi_of(
                filled(42, 32),
                1,
            ),
            PasPrim::SealToken => out matches PasPrimOut::SealedToken(c) && c@ == sealed(
                filled(7, 32),
                no_aad(),
                filled(9, 48),
                if timed {
                    self.rng_token@.bytes(24)
                } else {
                    filled(3, 24)
                },
            ),
            PasPrim::OpenToken => out matches PasPrimOut::OpenedToken(Ok(m)) && m@ == filled(9, 48),
            PasPrim::SealUpdate => out matches PasPrimOut::SealedUpdate(c) && c@ == sealed(
                filled(7, 32),
                no_aad(),
                filled(9, 64),
                if timed {
                    self.rng_update@.bytes(24)
                } else {
                    filled(4, 24)
                },
            ),
            PasPrim::OpenUpdate => out matches PasPrimOut::OpenedUpdate(Ok(m)) && m@ == filled(
                9,
                64,
            ),
            PasPrim::HashToG1 => out matches PasPrimOut::G1(x) && x@ == token_base(filled(5, 64)),
            PasPrim::PartEval => out matches PasPrimOut::G1(x) && x@ == g1_mul(
                token_base(filled(5, 64)),
                self.ttg_share@,
            ),
            PasPrim::Verify => out matches PasPrimOut::Truth(b) && b == token_verifies(
                self.vk@,
                filled(5, 64),
                self.token@,
            ),
        }
    }

    /// Runs a primitive once.
    #[verifier::rlimit(40)]
    pub fn run(&mut self, p: PasPrim, timed: bool) -> (r: PasPrimOut)
        requires
            old(self).opens(),
        ensures
            old(self).yields(p, timed, r),
            *final(self) == (PasPrims {
                rng_token: final(self).rng_token,
                rng_update: final(self).rng_update,
                ..*old(self)
            }),
            final(self).rng_token@ == if timed && p == PasPrim::SealToken {
                old(self).rng_token@.skip(24)
            } else {
                old(self).rng_token@
            },
            final(self).rng_update@ == if timed && p == PasPrim::SealUpdate {
                old(self).rng_update@.skip(24)
            } else {
                old(self).rng_update@
            },
    {
        let aad: [u8; 0] = [];
        assert(aad@ =~= no_aad());
        match p {
            PasPrim::HashToPoint => PasPrimOut::Point(hash_to_point(self.password.as_slice())),
            PasPrim::Encode => {
                let req = toprf_encode(self.password.as_slice(), self.rho);
                PasPrimOut::Bytes(req.compress())
            },
            PasPrim::EvalShare => {
                let z = toprf_eval_share(self.share, &self.req);
                PasPrimOut::Bytes(z.compress())
            },
            PasPrim::HashKey => PasPrimOut::Bytes(hash_hi(&forty_two(), 1)),
            PasPrim::SealToken => {
                if timed {
                    PasPrimOut::SealedToken(
                        xchacha_encrypt_detached::<48>(
                            &seven(),
                            &aad,
                            &nine_token(),
                            &mut self.rng_token,
                        ),
                    )
                } else {
                    PasPrimOut::SealedToken(
                        xchacha_encrypt_detached_with_nonce::<48>(
                            &seven(),
                            &aad,
                            &nine_token(),
                            &three(),
                        ),
                    )
                }
            },
            PasPrim::OpenToken => PasPrimOut::OpenedToken(
                xchacha_decrypt_detached::<48>(&seven(), &aad, &self.sealed_token),
            ),
            PasPrim::SealUpdate => {
                if timed {
                    PasPrimOut::SealedUpdate(
                        xchacha_encrypt_detached::<64>(
                            &seven(),
                            &aad,
                            &nine_update(),
                            &mut self.rng_update,
                        ),
                    )
                } else {
                    PasPrimOut::SealedUpdate(
                        xchacha_encrypt_detached_with_nonce::<64>(
                            &seven(),
                            &aad,
                            &nine_update(),
                            &four(),
                        ),
                    )
                }
            },
            PasPrim::OpenUpdate => PasPrimOut::OpenedUpdate(
                xchacha_decrypt_detached::<64>(&seven(), &aad, &self.sealed_update),
            ),
            PasPrim::HashToG1 => PasPrimOut::G1(ttg_hash_to_g1(&fives())),
            PasPrim::PartEval => PasPrimOut::G1(ttg_part_eval(&self.ttg_share, &fives())),
            PasPrim::Verify => PasPrimOut::Truth(ttg_verify(&self.vk, &fives(), &self.token)),
        }
    }
}

/// A primitive whose inputs depend on the number of servers or the threshold.
#[derive(Clone, Copy, Debug, PartialEq, Eq, Structural)]
pub enum PasGridPrim {
    Combine,
    HashKeys,
    SealUpdates,
    CombineTokens,
}

/// The primitives in the order in which they are measured.
pub open spec fn pas_grid_prims() -> Seq<PasGridPrim> {
    seq![
        PasGridPrim::Combine,
        PasGridPrim::HashKeys,
        PasGridPrim::SealUpdates,
        PasGridPrim::CombineTokens,
    ]
}

/// Lists the primitives.
pub fn all_pas_grid_prims() -> (r: Vec<PasGridPrim>)
    ensures
        r@ == pas_grid_prims(),
{
    let r = vec![
        PasGridPrim::Combine,
        PasGridPrim::HashKeys,
        PasGridPrim::SealUpdates,
        PasGridPrim::CombineTokens,
    ];
    assert(r@ =~= pas_grid_prims());
    r
}

/// The name under which a primitive is reported.
pub open spec fn pas_grid_name(p: PasGridPrim) -> Seq<char> {
    match p {
        PasGridPrim::Combine => "top_combine_t"@,
        PasGridPrim::HashKeys => "hash_hi_all_n"@,
        PasGridPrim::SealUpdates => "update_payload_encrypt_all_n"@,
        PasGridPrim::CombineTokens => "ttg_combine_t"@,
    }
}

impl PasGridPrim {
    /// The name under which the primitive is reported.
    pub fn name(self) -> (r: &'static str)
        ensures
            r@ == pas_grid_name(self),
    {
        match self {
            PasGridPrim::Combine => "top_combine_t",
            PasGridPrim::HashKeys => "hash_hi_all_n",
            PasGridPrim::SealUpdates => "update_payload_encrypt_all_n",
            PasGridPrim::CombineTokens => "ttg_combine_t",
        }
    }
}

/// What a primitive returns.
#[derive(Debug)]
pub enum PasGridOut {
    Value([u8; 32]),
    Keys(Vec<[u8; 32]>),
    Payload(Vec<u8>),
    Token(TtgToken),
}

/// The inputs of the primitives.
pub struct PasGrid {
    pub n: usize,
    pub password: Vec<u8>,
    pub rho: Scalar,
    pub points: Vec<Point>,
    pub lambdas: Vec<Scalar>,
    pub nonces: Vec<[u8; 24]>,
    pub ids: Vec<u32>,
    pub partials: Vec<G1>,
    pub rng: Rng,
}

/// The first `t` servers know the client.
pub open spec fn known_to_first(fx: Fixture, t: nat) -> bool {
    forall|i: int|
        0 <= i < t ==> (#[trigger] fx.servers@[i])@.records.dom().contains(fx.c.0@)
}

/// A key change of fixed keys under a nonce.
pub open spec fn fixed_change(nonce: Seq<u8>) -> Blob {
    sealed(filled(7, 32), no_aad(), filled(7, 32) + filled(8, 32), nonce)
}

/// The key changes under the first `n` nonces, one after the other.
pub open spec fn fixed_changes(nonces: Seq<Seq<u8>>, n: int) -> Seq<u8>
    decreases n,
{
    if n <= 0 {
        Seq::empty()
    } else {
        fixed_changes(nonces, n - 1) + fixed_change(nonces[n - 1]).flat()
    }
}

impl PasGrid {
    /// The inputs are those for a deployment with `n` servers and threshold `t`.
    pub open spec fn prepared(self, fx: Fixture, n: usize, t: usize) -> bool {
        let s = RngState::start(seed_of("bench_pastau/prim/top_combine_t".spec_bytes(), n, t));
        let u = RngState::start(
            seed_of("bench_pastau/prim/update_payload_encrypt_n".spec_bytes(), n, t),
        );
        &&& self.n == n
        &&& self.password@ == fx.password@
        &&& self.rho@ == scalar_drawn(s)
        &&& encs(self.points@) == Seq::new(
            t as nat,
            |i: int|
                ristretto_mul(
                    blinded(fx.password@, scalar_drawn(s)),
                    fx.servers@[i]@.records[fx.c.0@].k_i,
                ),
        )
        &&& vals(self.lambdas@) == weights(first_ids(t as nat), order())
        &&& nonce_seqs(self.nonces@) == nonces_from(u, n as nat)
        &&& self.ids@ == first_ids(t as nat)
        &&& encs(self.partials@) == Seq::new(
            t as nat,
            |i: int| g1_mul(token_base(filled(5, 64)), fx.servers@[i]@.ttg_share),
        )
        &&& self.rng@ == after_nonces(u, n as nat)
    }

    /// The inputs belong together.
    pub open spec fn matched(self) -> bool {
        &&& self.points@.len() == self.lambdas@.len()
        &&& self.ids@.len() == self.partials@.len()
        &&& self.nonces@.len() == self.n
        &&& self.n <= u32::MAX
    }

    /// The inputs for a deployment. There are none where one of the first `t` servers does
    /// not know the client.
    #[verifier::rlimit(40)]
    pub fn prepare(fx: &Fixture, n: usize, t: usize) -> (r: Option<PasGrid>)
        requires
            t <= fx.servers@.len(),
            t <= u32::MAX,
            n <= u32::MAX,
        ensures
            r is Some <==> known_to_first(*fx, t as nat),
            r matches Some(p) ==> p.prepared(*fx, n, t) && p.matched(),
    {
        let mut rng_c = Rng::from_seed(
            seed_for("bench_pastau/prim/top_combine_t".as_bytes(), n, t),
        );
        let ghost s = rng_c@;
        let rho = toprf::random_scalar(&mut rng_c);
        let req = toprf_encode(fx.password.as_slice(), rho);
        let ids = make_first_ids(t);
        let lambdas: Vec<Scalar> = lagrange_coeffs_at_zero::<Scalar>(ids.as_slice());
        let msg = fives();
        let mut points: Vec<Point> = Vec::with_capacity(t);
        let mut partials: Vec<G1> = Vec::with_capacity(t);
        let mut j: usize = 0;
        while j < t
            invariant
                j <= t <= fx.servers@.len(),
                msg@ == filled(5, 64),
                req@ == blinded(fx.password@, rho@),
                points@.len() == j,
                partials@.len() == j,
                forall|i: int|
                    0 <= i < j ==> (#[trigger] fx.servers@[i])@.records.dom().contains(fx.c.0@),
                forall|i: int|
                    0 <= i < j ==> (#[trigger] points@[i])@ == ristretto_mul(
                        req@,
                        fx.servers@[i]@.records[fx.c.0@].k_i,
                    ),
                forall|i: int|
                    0 <= i < j ==> (#[trigger] partials@[i])@ == g1_mul(
                        token_base(filled(5, 64)),
                        fx.servers@[i]@.ttg_share,
                    ),
            decreases t - j,
        {
            let share = match fx.servers[j].get_record(fx.c) {
                Some(rec) => rec.k_i,
                None => {
                    assert(!fx.servers@[j as int]@.records.dom().contains(fx.c.0@));
                    return None;
                },
            };
            points.push(toprf_eval_share(share, &req));
            partials.push(ttg_part_eval(&fx.servers[j].ttg_share, &msg));
            j = j + 1;
        }
        let mut rng = Rng::from_seed(
            seed_for("bench_pastau/prim/update_payload_encrypt_n".as_bytes(), n, t),
        );
        let nonces = draw_nonces(n, &mut rng);
        proof {
            let want_p = Seq::new(
                t as nat,
                |i: int|
                    ristretto_mul(
                        blinded(fx.password@, scalar_drawn(s)),
                        fx.servers@[i]@.records[fx.c.0@].k_i,
                    ),
            );
            assert(encs(points@) =~= want_p) by {
                assert forall|i: int| 0 <= i < t implies #[trigger] encs(points@)[i]
                    == want_p[i] by {
                    assert(points@[i]@ == want_p[i]);
                }
            }
            let want_t = Seq::new(
                t as nat,
                |i: int| g1_mul(token_base(filled(5, 64)), fx.servers@[i]@.ttg_share),
            );
            assert(encs(partials@) =~= want_t) by {
                assert forall|i: int| 0 <= i < t implies #[trigger] encs(partials@)[i]
                    == want_t[i] by {
                    assert(partials@[i]@ == want_t[i]);
                }
            }
            assert(vals(lambdas@).len() == t);
        }
        Some(
            PasGrid {
                n,
                password: bytes::copy_bytes(fx.password.as_slice()),
                rho,
                points,
                lambdas,
                nonces,
                ids,
                partials,
                rng,
            },
        )
    }

    /// What a primitive returns on the inputs; with `timed`, random values are drawn.
    pub open spec fn yields(self, p: PasGridPrim, timed: bool, out: PasGridOut) -> bool {
        match p {
            PasGridPrim::Combine => out matches PasGridOut::Value(h) && h@ == unblinded_key(
                self.password@,
                self.rho@,
                encs(self.points@),
                vals(self.lambdas@),
            ),
            PasGridPrim::HashKeys => out matches PasGridOut::Keys(v) && key_seqs(v@) == all_hi(
                filled(42, 32),
                self.n as nat,
            ),
            PasGridPrim::SealUpdates => out matches PasGridOut::Payload(b) && b@ == fixed_changes(
                if timed {
                    nonces_from(self.rng@, self.n as nat)
                } else {
                    nonce_seqs(self.nonces@)
                },
                self.n as int,
            ),
            PasGridPrim::CombineTokens => out matches PasGridOut::Token(tk) && tk@
                == combined_at_zero::<G1>(self.ids@, encs(self.partials@)),
        }
    }

    fn seal_updates(&mut self, timed: bool) -> (r: Vec<u8>)
        requires
            old(self).matched(),
        ensures
            r@ == fixed_changes(
                if timed {
                    nonces_from(old(self).rng@, old(self).n as nat)
                } else {
                    nonce_seqs(old(self).nonces@)
                },
                old(self).n as int,
            ),
            *final(self) == (PasGrid { rng: final(self).rng, ..*old(self) }),
            final(self).rng@ == if timed {
                after_nonces(old(self).rng@, old(self).n as nat)
            } else {
                old(self).rng@
            },
    {
        let aad: [u8; 0] = [];
        assert(aad@ =~= no_aad());
        let ghost s0 = self.rng@;
        let ghost want = if timed {
            nonces_from(s0, self.n as nat)
        } else {
            nonce_seqs(self.nonces@)
        };
        let key = seven();
        let both = cat2(&seven(), &eight());
        let pt = bytes::to_array::<64>(both.as_slice());
        let mut payload: Vec<u8> = Vec::new();
        let mut i: usize = 0;
        while i < self.n
            invariant
                i <= self.n,
                self.nonces@.len() == self.n,
                *self == (PasGrid { rng: self.rng, ..*old(self) }),
                aad@ == no_aad(),
                key@ == filled(7, 32),
                pt@ == filled(7, 32) + filled(8, 32),
                want == if timed {
                    nonces_from(s0, self.n as nat)
                } else {
                    nonce_seqs(self.nonces@)
                },
                payload@ == fixed_changes(want, i as int),
                self.rng@ == if timed {
                    after_nonces(s0, i as nat)
                } else {
                    s0
                },
            decreases self.n - i,
        {
            let blob = if timed {
                xchacha_encrypt_detached::<64>(&key, &aad, &pt, &mut self.rng)
            } else {
                xchacha_encrypt_detached_with_nonce::<64>(&key, &aad, &pt, &self.nonces[i])
            };
            assert(blob@ == fixed_change(want[i as int]));
            push_bytes(&mut payload, &serialize_update_blob(&blob));
            i = i + 1;
        }
        payload
    }

    /// Runs a primitive once.
    pub fn run(&mut self, p: PasGridPrim, timed: bool) -> (r: PasGridOut)
        requires
            old(self).matched(),
        ensures
            old(self).yields(p, timed, r),
            *final(self) == (PasGrid { rng: final(self).rng, ..*old(self) }),
            final(self).rng@ == if timed && p == PasGridPrim::SealUpdates {
                after_nonces(old(self).rng@, old(self).n as nat)
            } else {
                old(self).rng@
            },
    {
        match p {
            PasGridPrim::Combine => PasGridOut::Value(
                toprf_client_eval_from_partials(
                    self.password.as_slice(),
                    self.rho,
                    self.points.as_slice(),
                    self.lambdas.as_slice(),
                ),
            ),
            PasGridPrim::HashKeys => PasGridOut::Keys(derive_all_hi(&forty_two(), self.n)),
            PasGridPrim::SealUpdates => PasGridOut::Payload(self.seal_updates(timed)),
            PasGridPrim::CombineTokens => PasGridOut::Token(
                ttg_combine(self.ids.as_slice(), self.partials.as_slice()),
            ),
        }
    }
}

fn three() -> (r: [u8; 24])
    ensures
        r@ == filled(3, 24),
{
    let r: [u8; 24] = [3u8; 24];
    assert(r@ =~= filled(3, 24));
    r
}

fn four() -> (r: [u8; 24])
    ensures
        r@ == filled(4, 24),
{
    let r: [u8; 24] = [4u8; 24];
    assert(r@ =~= filled(4, 24));
    r
}

fn fives() -> (r: [u8; 64])
    ensures
        r@ == filled(5, 64),
{
    let r: [u8; 64] = [5u8; 64];
    assert(r@ =~= filled(5, 64));
    r
}

fn seven() -> (r: [u8; 32])
    ensures
        r@ == filled(7, 32),
{
    let r: [u8; 32] = [7u8; 32];
    assert(r@ =~= filled(7, 32));
    r
}

fn eight() -> (r: [u8; 32])
    ensures
        r@ == filled(8, 32),
{
    let r: [u8; 32] = [8u8; 32];
    assert(r@ =~= filled(8, 32));
    r
}

fn nine_token() -> (r: [u8; 48])
    ensures
        r@ == filled(9, 48),
{
    let r: [u8; 48] = [9u8; 48];
    assert(r@ =~= filled(9, 48));
    r
}

fn nine_update() -> (r: [u8; 64])
    ensures
        r@ == filled(9, 64),
{
    let r: [u8; 64] = [9u8; 64];
    assert(r@ =~= filled(9, 64));
    r
}

fn forty_two() -> (r: [u8; 32])
    ensures
        r@ == filled(42, 32),
{
    let r: [u8; 32] = [42u8; 32];
    assert(r@ =~= filled(42, 32));
    r
}

} // verus!
