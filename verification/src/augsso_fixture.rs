//! A reproducible deployment with one registered client, and a whole authentication.
use vstd::prelude::*;
use vstd::string::StringSliceAdditionalSpecFns;

use crate::aead::{opened, sealed, Blob, CtBlob};
use crate::augsso::{
    after_setup, client_poly, client_secret, gamma_poly, keyed, message_shares, password_g1,
    phi_poly, public_shares, registration, setup, AugSsoServer, ClientId, PublicParams, RecordState,
    ServerState, CTCH_PT_LEN, PLD_LEN, UID_LEN, X_LEN,
};
use crate::augsso_auth::{
    after_nonces, answers, client_in, client_phase1, first_response, honest_responses, key_ids,
    key_of, no_aad, phase1_accepts, phase1_plain, request_with_r, respond1_with_rand, responders,
    response_of, responses, sigmas, ClientRequest, Respond1Rand, Response1, ServerResponse1,
    ServerSession,
};
use crate::augsso_token::{
    client_finalize, finalize_accepts, honest_tokens, opened_token, partial_tokens, payload_g1,
    respond2_with_nonce, responders2,
    response2_of, responses2, session_key_of, session_keys, token_plain, verify_token, Response2,
    ServerResponse2, Token,
};
use crate::bls::{g1_mul, g1_valid, g2_of, order, signature_holds, Scalar, G1, G2};
use crate::bytes::{self, cat2, cat3, u64_le};
use crate::crypto_augsso::{nonzero_drawn, pke_opened, random_scalar_nonzero};
use crate::field::{distinct, lemma_drawn_len, share_vals, shares_of, sharing_poly};
use crate::group::{combined_at_zero, on_polynomial, values_at, Group};
use crate::hash::{self, blake3_hash};
use crate::ids::{
    find_id, last_place_of, lemma_only_place, lemma_place_of, lemma_sorted_fixed, place_of, sorted,
};
use crate::interpolation::eval;
use crate::keys::x25519_public;
use crate::rng::{Rng, RngState};

verus! {

/// A deployment with one registered client.
#[derive(Clone)]
pub struct Fixture {
    pub n: usize,
    pub t: usize,
    pub c: ClientId,
    pub x: [u8; X_LEN],
    pub pld: [u8; PLD_LEN],
    pub password: Vec<u8>,
    pub gamma_pk: G2,
    pub gamma_pub_shares: Vec<(u32, G2)>,
    pub pk_shares: Vec<(u32, G2)>,
    pub servers: Vec<AugSsoServer>,
    pub t_set: Vec<u32>,
}

/// The seed for an experiment with the given parameters.
pub open spec fn seed_of(tag: Seq<u8>, n: usize, t: usize) -> Seq<u8> {
    blake3_hash(tag + u64_le(n as u64) + u64_le(t as u64))
}

/// Derives the seed for an experiment.
pub fn seed_for(tag: &[u8], n: usize, t: usize) -> (r: [u8; 32])
    ensures
        r@ == seed_of(tag@, n, t),
{
    let m = cat3(tag, &bytes::u64_to_le(n as u64), &bytes::u64_to_le(t as u64));
    hash::digest(m.as_slice())
}

/// The first `t` identifiers.
pub open spec fn first_ids(t: nat) -> Seq<u32> {
    Seq::new(t, |i: int| (i + 1) as u32)
}

/// The identifiers one to `t`.
pub fn make_first_ids(t: usize) -> (r: Vec<u32>)
    requires
        t <= u32::MAX,
    ensures
        r@ == first_ids(t as nat),
{
    let mut r: Vec<u32> = Vec::with_capacity(t);
    let mut i: usize = 0;
    while i < t
        invariant
            i <= t,
            t <= u32::MAX,
            r@ == first_ids(i as nat),
        decreases t - i,
    {
        r.push((i + 1) as u32);
        assert(r@ =~= first_ids((i + 1) as nat));
        i = i + 1;
    }
    r
}

/// The value of a sharing polynomial modulo the group order.
pub open spec fn at(c: Seq<int>, x: int) -> nat {
    (eval(c, x) % (order() as int)) as nat
}

/// What the server at place `i` holds.
pub open spec fn fixture_server(
    i: int,
    pp: PublicParams,
    client: Seq<u8>,
    rpk: Seq<u8>,
    gc: Seq<int>,
    pc: Seq<int>,
    cc: Seq<int>,
) -> ServerState {
    ServerState {
        id: (i + 1) as u32,
        gamma_i: at(gc, i + 1),
        phi_i: at(pc, i + 1),
        gamma_pub_i: g2_of(at(gc, i + 1)),
        phi_pub_i: g2_of(at(pc, i + 1)),
        pp,
        records: Map::empty().insert(
            client,
            RecordState { sk_i: at(cc, i + 1), rpk, pk_i: g2_of(at(cc, i + 1)) },
        ),
    }
}

impl Fixture {
    /// The servers share the token key on the polynomial `gc`, a second key on `pc` and
    /// the client's key on `cc`, and hold the public key of the secret that the
    /// client's password gives.
    pub open spec fn sound(self, gc: Seq<int>, pc: Seq<int>, cc: Seq<int>) -> bool {
        let secret = client_secret(
            g1_mul(password_g1(self.password@), at(cc, 0)),
            self.password@,
        );
        let pp = PublicParams { n: self.n, t: self.t, cnt: u64::MAX / 2, caf: u64::MAX / 2 };
        &&& 1 <= self.t <= self.n <= u32::MAX
        &&& gc.len() == self.t
        &&& pc.len() == self.t
        &&& cc.len() == self.t
        &&& secret.len() == 32
        &&& self.pld@ == self.x@ + self.c.0@
        &&& self.gamma_pk@ == g2_of(at(gc, 0))
        &&& keyed(self.gamma_pub_shares@) == public_shares(shares_of(gc, self.n as nat, order()))
        &&& keyed(self.pk_shares@) == public_shares(shares_of(cc, self.n as nat, order()))
        &&& self.t_set@ == first_ids(self.t as nat)
        &&& self.servers@.len() == self.n
        &&& forall|i: int|
            0 <= i < self.n ==> (#[trigger] self.servers@[i])@ == fixture_server(
                i,
                pp,
                self.c.0@,
                x25519_public(secret),
                gc,
                pc,
                cc,
            )
    }
}

/// The generator that a fixture is drawn from, at its beginning.
pub open spec fn fixture_rng(n: usize, t: usize) -> RngState {
    RngState::start(seed_of("augsso/fixture/v1".spec_bytes(), n, t))
}

/// The polynomial that shares the client's key in a fixture.
pub open spec fn fixture_client_poly(n: usize, t: usize) -> Seq<int> {
    let rng = after_setup(t as nat, fixture_rng(n, t).skip(32).skip(32));
    client_poly(nonzero_drawn(rng).0->Some_0, t as nat, nonzero_drawn(rng).1)
}

proof fn lemma_poly(secret: nat, t: nat, rng: RngState)
    requires
        t >= 1,
        secret < order(),
    ensures
        sharing_poly(secret, t, rng, order()).len() == t,
        at(sharing_poly(secret, t, rng, order()), 0) == secret,
{
    let c = sharing_poly(secret, t, rng, order());
    lemma_drawn_len(rng, (t - 1) as nat, order());
    assert(c[0] == secret);
    let tail = eval(c.drop_first(), 0);
    assert(0 * tail == 0);
    vstd::arithmetic::div_mod::lemma_small_mod(secret, order());
}

/// Sets up `n` servers and registers a client with them. All of it is a function of the
/// parameters. There is no fixture where the generator yields only zeros.
#[verifier::rlimit(40)]
pub fn make_fixture(n: usize, t: usize) -> (r: Option<Fixture>)
    requires
        1 <= t <= n <= u32::MAX,
    ensures
        r is Some <==> nonzero_drawn(
            after_setup(t as nat, fixture_rng(n, t).skip(32).skip(32)),
        ).0 is Some,
        r matches Some(fx) ==> {
            let rng = fixture_rng(n, t);
            &&& fx.n == n
            &&& fx.t == t
            &&& fx.c.0@ == rng.bytes(32)
            &&& fx.x@ == rng.skip(32).bytes(32)
            &&& fx.password@ == "correct horse battery staple".spec_bytes()
            &&& fx.sound(
                gamma_poly(t as nat, rng.skip(32).skip(32)),
                phi_poly(t as nat, rng.skip(32).skip(32)),
                fixture_client_poly(n, t),
            )
        },
{
    let mut rng = Rng::from_seed(seed_for("augsso/fixture/v1".as_bytes(), n, t));
    let ghost rng0 = rng@;
    let c = ClientId(rng.take_array::<UID_LEN>());
    let x = rng.take_array::<X_LEN>();
    let both = cat2(&x, &c.0);
    let pld = bytes::to_array::<PLD_LEN>(both.as_slice());
    let password = bytes::copy_bytes("correct horse battery staple".as_bytes());
    let ghost rng2 = rng@;
    let s = setup(n, t, &mut rng);
    let ghost gc = gamma_poly(t as nat, rng2);
    let ghost pc = phi_poly(t as nat, rng2);
    let ghost gv = share_vals(s.gamma_shares@);
    let ghost pv = share_vals(s.phi_shares@);
    let ghost gp = keyed(s.gamma_pub_shares@);
    let ghost pp = keyed(s.phi_pub_shares@);
    assert(gv.len() == n && pv.len() == n && gp.len() == n && pp.len() == n);
    let mut servers: Vec<AugSsoServer> = Vec::with_capacity(n);
    let mut i: usize = 0;
    while i < n
        invariant
            i <= n,
            n <= u32::MAX,
            s.gamma_shares@.len() == n,
            s.phi_shares@.len() == n,
            s.gamma_pub_shares@.len() == n,
            s.phi_pub_shares@.len() == n,
            gv == share_vals(s.gamma_shares@),
            pv == share_vals(s.phi_shares@),
            gp == keyed(s.gamma_pub_shares@),
            pp == keyed(s.phi_pub_shares@),
            gv == shares_of(gc, n as nat, order()),
            pv == shares_of(pc, n as nat, order()),
            gp == public_shares(gv),
            pp == public_shares(pv),
            servers@.len() == i,
            forall|k: int|
                0 <= k < i ==> (#[trigger] servers@[k])@ == (ServerState {
                    records: Map::empty(),
                    ..fixture_server(k, s.pp, Seq::empty(), Seq::empty(), gc, pc, Seq::empty())
                }),
        decreases n - i,
    {
        proof {
            assert(gv[i as int] == (s.gamma_shares@[i as int].0, s.gamma_shares@[i as int].1@));
            assert(pv[i as int] == (s.phi_shares@[i as int].0, s.phi_shares@[i as int].1@));
            assert(gp[i as int] == (
                s.gamma_pub_shares@[i as int].0,
                s.gamma_pub_shares@[i as int].1@,
            ));
            assert(pp[i as int] == (
                s.phi_pub_shares@[i as int].0,
                s.phi_pub_shares@[i as int].1@,
            ));
        }
        let sid = (i + 1) as u32;
        servers.push(
            AugSsoServer::new(
                sid,
                s.gamma_shares[i].1,
                s.phi_shares[i].1,
                s.gamma_pub_shares[i].1,
                s.phi_pub_shares[i].1,
                s.pp,
            ),
        );
        i = i + 1;
    }
    let ghost rng3 = rng@;
    let reg = match registration(n, t, password.as_slice(), &mut rng) {
        Some(reg) => reg,
        None => {
            return None;
        },
    };
    let ghost cc = fixture_client_poly(n, t);
    let ghost ms = message_shares(reg.msgs@);
    assert(ms.len() == n);
    let ghost secret = client_secret(g1_mul(password_g1(password@), reg.sk@), password@);
    let mut j: usize = 0;
    while j < n
        invariant
            j <= n,
            n <= u32::MAX,
            reg.msgs@.len() == n,
            servers@.len() == n,
            ms == message_shares(reg.msgs@),
            ms == shares_of(cc, n as nat, order()),
            forall|k: int| 0 <= k < n ==> (#[trigger] reg.msgs@[k]).rpk == reg.rpk,
            reg.rpk@ == x25519_public(secret),
            forall|k: int|
                0 <= k < j ==> (#[trigger] servers@[k])@ == fixture_server(
                    k,
                    s.pp,
                    c.0@,
                    x25519_public(secret),
                    gc,
                    pc,
                    cc,
                ),
            forall|k: int|
                j <= k < n ==> (#[trigger] servers@[k])@ == (ServerState {
                    records: Map::empty(),
                    ..fixture_server(k, s.pp, Seq::empty(), Seq::empty(), gc, pc, Seq::empty())
                }),
        decreases n - j,
    {
        let msg = reg.msgs[j];
        proof {
            assert(ms[j as int] == (msg.server_id, msg.sk_i@));
            assert(servers@[j as int]@.id == (j + 1) as u32);
        }
        let ghost before = servers@;
        let idx: usize = (msg.server_id - 1) as usize;
        servers[idx].store(c, &msg);
        proof {
            assert(idx == j);
            assert(servers@[j as int]@ =~= fixture_server(
                j as int,
                s.pp,
                c.0@,
                x25519_public(secret),
                gc,
                pc,
                cc,
            ));
            assert forall|k: int| 0 <= k < n && k != j implies servers@[k] == before[k] by {}
        }
        j = j + 1;
    }
    let t_set = make_first_ids(t);
    let fx = Fixture {
        n,
        t,
        c,
        x,
        pld,
        password,
        gamma_pk: s.gamma_pk,
        gamma_pub_shares: s.gamma_pub_shares,
        pk_shares: reg.pk_shares,
        servers,
        t_set,
    };
    proof {
        use_type_invariant(&s.gamma);
        use_type_invariant(&s.phi);
        use_type_invariant(&reg.sk);
        lemma_poly(s.gamma@, t as nat, rng2.skip(64).skip(64));
        lemma_poly(
            s.phi@,
            t as nat,
            crate::field::after_draws(rng2.skip(64).skip(64), (t - 1) as nat),
        );
        lemma_poly(reg.sk@, t as nat, nonzero_drawn(rng3).1);
        assert(secret.len() == 32);
        assert(fx.sound(gc, pc, cc));
    }
    Some(fx)
}

/// The random values of one authentication.
#[derive(Clone)]
pub struct IterData {
    pub r: Scalar,
    pub ctch_nonces: Vec<[u8; 24]>,
    pub cttkn_nonces: Vec<[u8; 24]>,
    pub r1: Vec<Respond1Rand>,
}

fn take_nonces(count: usize, rng: &mut Rng) -> (r: Vec<[u8; 24]>)
    ensures
        r@.len() == count,
        forall|k: int|
            0 <= k < count ==> (#[trigger] r@[k])@ == after_nonces(old(rng)@, k as nat).bytes(24),
        final(rng)@ == after_nonces(old(rng)@, count as nat),
{
    let ghost r0 = rng@;
    let mut r: Vec<[u8; 24]> = Vec::with_capacity(count);
    let mut i: usize = 0;
    while i < count
        invariant
            i <= count,
            r@.len() == i,
            forall|k: int|
                0 <= k < i ==> (#[trigger] r@[k])@ == after_nonces(r0, k as nat).bytes(24),
            rng@ == after_nonces(r0, i as nat),
        decreases count - i,
    {
        r.push(rng.take_array::<24>());
        i = i + 1;
    }
    r
}

/// The generator after the random values of `k` first responses.
pub open spec fn after_responses(rng: RngState, k: nat) -> RngState
    decreases k,
{
    if k == 0 {
        rng
    } else {
        after_responses(rng, (k - 1) as nat).skip(32).skip(32).skip(32).skip(24)
    }
}

/// The random values of a first response, drawn in this order: challenge, session key,
/// ephemeral secret, nonce.
pub open spec fn rand_drawn(rand: Respond1Rand, rng: RngState) -> bool {
    &&& rand.ch@ == rng.bytes(32)
    &&& rand.ek@ == rng.skip(32).bytes(32)
    &&& rand.pke_eph_sk@ == rng.skip(32).skip(32).bytes(32)
    &&& rand.pke_nonce@ == rng.skip(32).skip(32).skip(32).bytes(24)
}

/// Draws the random values of one authentication with `fx.t` servers.
pub fn make_iter_data(fx: &Fixture, rng: &mut Rng) -> (r: Option<IterData>)
    ensures
        r is Some <==> nonzero_drawn(old(rng)@).0 is Some,
        r matches Some(it) ==> {
            let rng1 = nonzero_drawn(old(rng)@).1;
            let rng2 = after_nonces(rng1, fx.t as nat);
            let rng3 = after_nonces(rng2, fx.t as nat);
            &&& nonzero_drawn(old(rng)@).0 == Some(it.r@)
            &&& it.r@ != 0
            &&& it.ctch_nonces@.len() == fx.t
            &&& it.cttkn_nonces@.len() == fx.t
            &&& it.r1@.len() == fx.t
            &&& forall|k: int|
                0 <= k < fx.t ==> (#[trigger] it.ctch_nonces@[k])@ == after_nonces(
                    rng1,
                    k as nat,
                ).bytes(24)
            &&& forall|k: int|
                0 <= k < fx.t ==> (#[trigger] it.cttkn_nonces@[k])@ == after_nonces(
                    rng2,
                    k as nat,
                ).bytes(24)
            &&& forall|k: int|
                0 <= k < fx.t ==> rand_drawn(
                    #[trigger] it.r1@[k],
                    after_responses(rng3, k as nat),
                )
            &&& final(rng)@ == after_responses(rng3, fx.t as nat)
        },
        r is None ==> final(rng)@ == nonzero_drawn(old(rng)@).1,
{
    let r: Scalar = match random_scalar_nonzero(rng) {
        Some(r) => r,
        None => {
            return None;
        },
    };
    let ctch_nonces = take_nonces(fx.t, rng);
    let cttkn_nonces = take_nonces(fx.t, rng);
    let ghost r0 = rng@;
    let mut r1: Vec<Respond1Rand> = Vec::with_capacity(fx.t);
    let mut i: usize = 0;
    while i < fx.t
        invariant
            i <= fx.t,
            r1@.len() == i,
            forall|k: int|
                0 <= k < i ==> rand_drawn(#[trigger] r1@[k], after_responses(r0, k as nat)),
            rng@ == after_responses(r0, i as nat),
        decreases fx.t - i,
    {
        let ch = rng.take_array::<32>();
        let ek = rng.take_array::<32>();
        let pke_eph_sk = rng.take_array::<32>();
        let pke_nonce = rng.take_array::<24>();
        r1.push(Respond1Rand { ch, ek, pke_eph_sk, pke_nonce });
        i = i + 1;
    }
    Some(IterData { r, ctch_nonces, cttkn_nonces, r1 })
}

/// Asks the first `t` servers for their first responses.
pub fn first_round(fx: &Fixture, req: &ClientRequest, it: &IterData) -> (r: Option<
    (Vec<ServerResponse1>, Vec<ServerSession>),
>)
    requires
        fx.t <= fx.servers@.len(),
        fx.t <= it.r1@.len(),
    ensures
        r is Some <==> forall|j: int|
            0 <= j < fx.t ==> answers((#[trigger] fx.servers@[j])@, req.pld@, req.bpw@),
        r matches Some((resps, sess)) ==> {
            &&& resps@.len() == fx.t
            &&& sess@.len() == fx.t
            &&& forall|j: int|
                0 <= j < fx.t ==> {
                    &&& (#[trigger] resps@[j])@ == first_response(
                        fx.servers@[j]@,
                        req.pld@,
                        req.bpw@,
                        it.r1@[j],
                    )
                    &&& g1_valid(resps@[j]@.sigma_i)
                    &&& forall|sk: Seq<u8>|
                        sk.len() == 32 && fx.servers@[j]@.records[client_in(req.pld@)].rpk
                            == #[trigger] x25519_public(sk) ==> pke_opened(
                            sk,
                            no_aad(),
                            resps@[j]@.ct_res,
                        ) == Some(it.r1@[j].ch@ + it.r1@[j].ek@)
                }
            &&& forall|j: int|
                0 <= j < fx.t ==> (#[trigger] sess@[j]) == (ServerSession {
                    server_id: fx.servers@[j]@.id,
                    ek: it.r1@[j].ek,
                    ch: it.r1@[j].ch,
                    pld: req.pld,
                })
        },
{
    let mut resps: Vec<ServerResponse1> = Vec::with_capacity(fx.t);
    let mut sess: Vec<ServerSession> = Vec::with_capacity(fx.t);
    let mut j: usize = 0;
    while j < fx.t
        invariant
            j <= fx.t,
            fx.t <= fx.servers@.len(),
            fx.t <= it.r1@.len(),
            resps@.len() == j,
            sess@.len() == j,
            forall|k: int|
                0 <= k < j ==> answers((#[trigger] fx.servers@[k])@, req.pld@, req.bpw@),
            forall|k: int|
                0 <= k < j ==> {
                    &&& (#[trigger] resps@[k])@ == first_response(
                        fx.servers@[k]@,
                        req.pld@,
                        req.bpw@,
                        it.r1@[k],
                    )
                    &&& g1_valid(resps@[k]@.sigma_i)
                    &&& forall|sk: Seq<u8>|
                        sk.len() == 32 && fx.servers@[k]@.records[client_in(req.pld@)].rpk
                            == #[trigger] x25519_public(sk) ==> pke_opened(
                            sk,
                            no_aad(),
                            resps@[k]@.ct_res,
                        ) == Some(it.r1@[k].ch@ + it.r1@[k].ek@)
                },
            forall|k: int|
                0 <= k < j ==> (#[trigger] sess@[k]) == (ServerSession {
                    server_id: fx.servers@[k]@.id,
                    ek: it.r1@[k].ek,
                    ch: it.r1@[k].ch,
                    pld: req.pld,
                }),
        decreases fx.t - j,
    {
        match respond1_with_rand(&fx.servers[j], req, &it.r1[j]) {
            Some((resp, s)) => {
                resps.push(resp);
                sess.push(s);
            },
            None => {
                assert(!answers(fx.servers@[j as int]@, req.pld@, req.bpw@));
                return None;
            },
        }
        j = j + 1;
    }
    Some((resps, sess))
}

/// Identifiers of encrypted challenges.
pub open spec fn challenge_ids(s: Seq<(u32, CtBlob<CTCH_PT_LEN>)>) -> Seq<u32> {
    Seq::new(s.len(), |i: int| s[i].0)
}

/// The server at place `j` finds its challenge among `s` and accepts it.
pub open spec fn challenge_accepted(
    sess: ServerSession,
    s: Seq<(u32, CtBlob<CTCH_PT_LEN>)>,
    j: int,
) -> bool {
    place_of(challenge_ids(s), (j + 1) as u32) matches Some(p) && opened(
        sess.ek@,
        no_aad(),
        s[p].1@,
    ) == Some(sess.ch@)
}

/// Hands the first `t` servers their challenges for the second responses.
pub fn second_round(
    fx: &Fixture,
    sess: &Vec<ServerSession>,
    ct_ch: &Vec<(u32, CtBlob<CTCH_PT_LEN>)>,
    it: &IterData,
) -> (r: Option<Vec<ServerResponse2>>)
    requires
        fx.t <= fx.servers@.len(),
        fx.t <= it.cttkn_nonces@.len(),
        fx.t <= sess@.len(),
        fx.t <= u32::MAX,
    ensures
        r is Some <==> forall|j: int|
            0 <= j < fx.t ==> challenge_accepted(#[trigger] sess@[j], ct_ch@, j),
        r matches Some(resps) ==> {
            &&& resps@.len() == fx.t
            &&& forall|j: int|
                0 <= j < fx.t ==> {
                    let h = payload_g1(sess@[j].pld@);
                    let tkn = g1_mul(h, fx.servers@[j]@.gamma_i);
                    &&& (#[trigger] resps@[j])@ == (Response2 {
                        server_id: fx.servers@[j]@.id,
                        ct_tkn: sealed(
                            sess@[j].ek@,
                            no_aad(),
                            token_plain(fx.servers@[j]@, sess@[j].pld@),
                            it.cttkn_nonces@[j]@,
                        ),
                    })
                    &&& opened(sess@[j].ek@, no_aad(), resps@[j]@.ct_tkn) == Some(
                        tkn + sess@[j].pld@,
                    )
                    &&& g1_valid(h)
                    &&& g1_valid(tkn)
                    &&& tkn.len() == 48
                }
        },
{
    let mut ids: Vec<u32> = Vec::with_capacity(ct_ch.len());
    let mut i: usize = 0;
    while i < ct_ch.len()
        invariant
            i <= ct_ch@.len(),
            ids@.len() == i,
            forall|k: int| 0 <= k < i ==> ids@[k] == ct_ch@[k].0,
        decreases ct_ch@.len() - i,
    {
        ids.push(ct_ch[i].0);
        i = i + 1;
    }
    assert(ids@ =~= challenge_ids(ct_ch@));
    let mut resps: Vec<ServerResponse2> = Vec::with_capacity(fx.t);
    let mut j: usize = 0;
    while j < fx.t
        invariant
            j <= fx.t,
            fx.t <= fx.servers@.len(),
            fx.t <= it.cttkn_nonces@.len(),
            fx.t <= sess@.len(),
            fx.t <= u32::MAX,
            ids@ == challenge_ids(ct_ch@),
            ids@.len() == ct_ch@.len(),
            resps@.len() == j,
            forall|k: int| 0 <= k < j ==> challenge_accepted(#[trigger] sess@[k], ct_ch@, k),
            forall|k: int|
                0 <= k < j ==> {
                    let h = payload_g1(sess@[k].pld@);
                    let tkn = g1_mul(h, fx.servers@[k]@.gamma_i);
                    &&& (#[trigger] resps@[k])@ == (Response2 {
                        server_id: fx.servers@[k]@.id,
                        ct_tkn: sealed(
                            sess@[k].ek@,
                            no_aad(),
                            token_plain(fx.servers@[k]@, sess@[k].pld@),
                            it.cttkn_nonces@[k]@,
                        ),
                    })
                    &&& opened(sess@[k].ek@, no_aad(), resps@[k]@.ct_tkn) == Some(
                        tkn + sess@[k].pld@,
                    )
                    &&& g1_valid(h)
                    &&& g1_valid(tkn)
                    &&& tkn.len() == 48
                },
        decreases fx.t - j,
    {
        let at = match find_id(ids.as_slice(), (j + 1) as u32) {
            Some(at) => at,
            None => {
                assert(!challenge_accepted(sess@[j as int], ct_ch@, j as int));
                return None;
            },
        };
        match respond2_with_nonce(&fx.servers[j], &sess[j], &ct_ch[at].1, &it.cttkn_nonces[j]) {
            Some(resp) => {
                resps.push(resp);
            },
            None => {
                assert(!challenge_accepted(sess@[j as int], ct_ch@, j as int));
                return None;
            },
        }
        j = j + 1;
    }
    Some(resps)
}

/// The first identifiers are sorted and distinct, and each stands at its own place.
pub proof fn lemma_first_ids(t: nat)
    requires
        t <= u32::MAX,
    ensures
        sorted(first_ids(t)) == first_ids(t),
        distinct(first_ids(t)),
        forall|k: int|
            0 <= k < t ==> place_of(first_ids(t), #[trigger] first_ids(t)[k]) == Some(k)
                && last_place_of(first_ids(t), first_ids(t)[k]) == Some(k),
{
    lemma_sorted_fixed(first_ids(t), first_ids(t));
    assert forall|k: int| 0 <= k < t implies place_of(
        first_ids(t),
        #[trigger] first_ids(t)[k],
    ) == Some(k) && last_place_of(first_ids(t), first_ids(t)[k]) == Some(k) by {
        lemma_only_place(first_ids(t), k);
    }
}

pub proof fn lemma_public_share(c: Seq<int>, n: nat, k: int)
    requires
        0 <= k < n <= u32::MAX,
    ensures
        ({
            let pks = public_shares(shares_of(c, n, order()));
            &&& place_of(key_ids(pks), (k + 1) as u32) == Some(k)
            &&& key_of(pks, (k + 1) as u32) == g2_of(at(c, k + 1))
        }),
{
    let pks = public_shares(shares_of(c, n, order()));
    assert(key_ids(pks) =~= first_ids(n));
    lemma_first_ids(n);
    assert(first_ids(n)[k] == (k + 1) as u32);
}

/// In a sound fixture the first responses are honest.
#[verifier::rlimit(40)]
proof fn lemma_honest_responses(
    fx: Fixture,
    gc: Seq<int>,
    pc: Seq<int>,
    cc: Seq<int>,
    r: nat,
    bpw: Seq<u8>,
    s: Seq<Response1>,
    rands: Seq<Respond1Rand>,
)
    requires
        fx.sound(gc, pc, cc),
        r != 0,
        g1_valid(bpw),
        g1_valid(password_g1(fx.password@)),
        forall|k: nat|
            k < order() ==> #[trigger] g1_mul(bpw, k) == g1_mul(
                password_g1(fx.password@),
                (r * k) % order(),
            ),
        s.len() == fx.t,
        rands.len() >= fx.t,
        forall|j: int|
            0 <= j < fx.t ==> (#[trigger] s[j]) == first_response(
                fx.servers@[j]@,
                fx.pld@,
                bpw,
                rands[j],
            ) && g1_valid(s[j].sigma_i),
    ensures
        honest_responses(
            r,
            fx.t_set@,
            bpw,
            s,
            keyed(fx.pk_shares@),
            password_g1(fx.password@),
            cc,
        ),
        responders(s) == first_ids(fx.t as nat),
        forall|k: int|
            0 <= k < fx.t ==> response_of(s, #[trigger] first_ids(fx.t as nat)[k]) == s[k],
{
    let t = fx.t as nat;
    let ts = first_ids(t);
    lemma_first_ids(t);
    assert(client_in(fx.pld@) =~= fx.c.0@);
    assert forall|j: int| 0 <= j < t implies #[trigger] responders(s)[j] == ts[j] by {
        assert(s[j] == s[j]);
        assert(fx.servers@[j]@.id == (j + 1) as u32);
    }
    assert(responders(s) =~= ts);
    assert forall|k: int| 0 <= k < ts.len() implies response_of(s, #[trigger] ts[k]) == s[k] by {
        assert(place_of(ts, ts[k]) == Some(k));
    }
    let ys = values_at(cc, ts, order());
    assert forall|k: int| 0 <= k < ts.len() implies 0 <= ys[k] < order() && #[trigger] sigmas(
        s,
        ts,
    )[k] == G1::mul_of(bpw, ys[k] as nat) by {
        assert(response_of(s, ts[k]) == s[k]);
        assert(fx.servers@[k]@.records[fx.c.0@].sk_i == at(cc, k + 1));
        assert(ts[k] as int == k + 1);
    }
    assert(on_polynomial::<G1>(sigmas(s, ts), bpw, ts, cc));
    assert forall|k: int| 0 <= k < ts.len() implies {
        &&& g1_valid(response_of(s, #[trigger] ts[k]).sigma_i)
        &&& place_of(key_ids(keyed(fx.pk_shares@)), ts[k]) is Some
        &&& key_of(keyed(fx.pk_shares@), ts[k]) == g2_of(
            (eval(cc, ts[k] as int) % (order() as int)) as nat,
        )
    } by {
        assert(response_of(s, ts[k]) == s[k]);
        assert(g1_valid(s[k].sigma_i));
        lemma_public_share(cc, fx.n as nat, k);
    }
}

/// In a sound fixture the second responses hold honest partial tokens.
#[verifier::rlimit(40)]
proof fn lemma_honest_tokens(
    fx: Fixture,
    gc: Seq<int>,
    pc: Seq<int>,
    cc: Seq<int>,
    s: Seq<Response2>,
    eks: Seq<(u32, Seq<u8>)>,
)
    requires
        fx.sound(gc, pc, cc),
        s.len() == fx.t,
        eks.len() == fx.t,
        g1_valid(payload_g1(fx.pld@)),
        forall|j: int|
            0 <= j < fx.t ==> {
                let tkn = g1_mul(payload_g1(fx.pld@), fx.servers@[j]@.gamma_i);
                &&& (#[trigger] s[j]).server_id == fx.servers@[j]@.id
                &&& eks[j].0 == first_ids(fx.t as nat)[j]
                &&& opened(eks[j].1, no_aad(), s[j].ct_tkn) == Some(tkn + fx.pld@)
                &&& g1_valid(tkn)
                &&& tkn.len() == 48
            },
    ensures
        honest_tokens(fx.t_set@, fx.pld@, s, eks, keyed(fx.gamma_pub_shares@), gc),
{
    let t = fx.t as nat;
    let ts = first_ids(t);
    lemma_first_ids(t);
    assert forall|j: int| 0 <= j < t implies #[trigger] responders2(s)[j] == ts[j] by {
        assert(s[j].server_id == fx.servers@[j]@.id);
    }
    assert(responders2(s) =~= ts);
    assert forall|j: int| 0 <= j < t implies #[trigger] key_ids(eks)[j] == ts[j] by {
        assert(s[j].server_id == fx.servers@[j]@.id);
    }
    assert(key_ids(eks) =~= ts);
    assert forall|k: int| 0 <= k < ts.len() implies {
        let a = (eval(gc, ts[k] as int) % (order() as int)) as nat;
        let tkn = g1_mul(payload_g1(fx.pld@), a);
        &&& last_place_of(key_ids(eks), #[trigger] ts[k]) is Some
        &&& opened_token(s, eks, ts[k]) == Some(tkn + fx.pld@)
        &&& tkn.len() == 48
        &&& g1_valid(tkn)
        &&& place_of(key_ids(keyed(fx.gamma_pub_shares@)), ts[k]) is Some
        &&& key_of(keyed(fx.gamma_pub_shares@), ts[k]) == g2_of(a)
    } by {
        assert(place_of(ts, ts[k]) == Some(k));
        assert(response2_of(s, ts[k]) == s[k]);
        assert(session_key_of(eks, ts[k]) == eks[k].1);
        assert(s[k].server_id == fx.servers@[k]@.id);
        assert(fx.servers@[k]@.gamma_i == at(gc, k + 1));
        lemma_public_share(gc, fx.n as nat, k);
    }
}

impl Fixture {
    /// The blinded password.
    pub open spec fn blinded(self, it: IterData) -> Seq<u8> {
        g1_mul(password_g1(self.password@), it.r@)
    }

    /// The first responses of the first `t` servers.
    pub open spec fn first_answers(self, it: IterData) -> Seq<Response1> {
        Seq::new(
            self.t as nat,
            |j: int|
                first_response(self.servers@[j]@, self.pld@, self.blinded(it), it.r1@[j]),
        )
    }

    /// What the client finds in the first response of the server at place `k` of those asked.
    pub open spec fn found(self, it: IterData, k: int) -> Seq<u8> {
        let ts = sorted(self.t_set@);
        phase1_plain(self.password@, it.r@, ts, self.first_answers(it), ts[k])
    }

    /// The challenge that the client returns to the server at place `k` of those asked.
    pub open spec fn returned(self, it: IterData, k: int) -> Blob {
        sealed(
            self.found(it, k).subrange(32, 64),
            no_aad(),
            self.found(it, k).subrange(0, 32),
            it.ctch_nonces@[k]@,
        )
    }

    /// The server at place `j` gets its challenge back.
    pub open spec fn gets_challenge(self, it: IterData, j: int) -> bool {
        place_of(sorted(self.t_set@), (j + 1) as u32) matches Some(p) && opened(
            it.r1@[j].ek@,
            no_aad(),
            self.returned(it, p),
        ) == Some(it.r1@[j].ch@)
    }

    /// The session keys that the client finds.
    pub open spec fn found_keys(self, it: IterData) -> Seq<(u32, Seq<u8>)> {
        let ts = sorted(self.t_set@);
        Seq::new(ts.len(), |k: int| (ts[k], self.found(it, k).subrange(32, 64)))
    }

    /// The second responses of the first `t` servers.
    pub open spec fn second_answers(self, it: IterData) -> Seq<Response2> {
        Seq::new(
            self.t as nat,
            |j: int|
                Response2 {
                    server_id: self.servers@[j]@.id,
                    ct_tkn: sealed(
                        it.r1@[j].ek@,
                        no_aad(),
                        token_plain(self.servers@[j]@, self.pld@),
                        it.cttkn_nonces@[j]@,
                    ),
                },
        )
    }

    /// The token of a whole authentication, where there is one: each of the first `t` servers
    /// answers, the client accepts, each server gets its challenge back, the client
    /// accepts again, and the token verifies.
    pub open spec fn token_of(self, it: IterData) -> Option<Seq<u8>> {
        let ts = sorted(self.t_set@);
        let tkn = combined_at_zero::<G1>(
            ts,
            partial_tokens(self.second_answers(it), self.found_keys(it), ts),
        );
        if (forall|j: int|
            0 <= j < self.t ==> answers((#[trigger] self.servers@[j])@, self.pld@, self.blinded(it)))
            && phase1_accepts(
            self.password@,
            it.r@,
            self.t_set@,
            self.blinded(it),
            self.first_answers(it),
            keyed(self.pk_shares@),
        ) && (forall|j: int| 0 <= j < self.t ==> #[trigger] self.gets_challenge(it, j))
            && finalize_accepts(
            self.t_set@,
            self.pld@,
            self.second_answers(it),
            self.found_keys(it),
            keyed(self.gamma_pub_shares@),
        ) && g1_valid(tkn) && signature_holds(payload_g1(self.pld@), tkn, self.gamma_pk@) {
            Some(tkn)
        } else {
            None
        }
    }
}

/// Runs a whole authentication of the fixture's client with its first `t` servers. In a
/// sound fixture and with a nonzero blinding factor it succeeds, and the token is
/// the one of the deployment's key and verifies.
#[verifier::rlimit(60)]
pub fn authenticate(fx: &Fixture, it: &IterData, rng: &mut Rng) -> (r: Option<Token>)
    requires
        fx.t <= u32::MAX,
        fx.t <= fx.servers@.len(),
        fx.t_set@.len() <= it.ctch_nonces@.len(),
        fx.t <= it.cttkn_nonces@.len(),
        fx.t <= it.r1@.len(),
    ensures
        match r {
            Some(tok) => fx.token_of(*it) == Some(tok.tkn@),
            None => fx.token_of(*it) is None,
        },
        r matches Some(tok) ==> tok.pld == fx.pld && g1_valid(tok.tkn@) && signature_holds(
            payload_g1(tok.pld@),
            tok.tkn@,
            fx.gamma_pk@,
        ),
        forall|gc: Seq<int>, pc: Seq<int>, cc: Seq<int>| #[trigger]
            fx.sound(gc, pc, cc) && it.r@ != 0 ==> (r matches Some(tok) && tok.tkn@ == g1_mul(
                payload_g1(fx.pld@),
                at(gc, 0),
            )),
        final(rng)@ == old(rng)@,
{
    let (st, req) = request_with_r(fx.password.as_slice(), fx.pld, fx.t_set.as_slice(), it.r);
    proof {
        assert forall|gc: Seq<int>, pc: Seq<int>, cc: Seq<int>| #[trigger]
            fx.sound(gc, pc, cc) implies forall|j: int|
            0 <= j < fx.t ==> answers((#[trigger] fx.servers@[j])@, req.pld@, req.bpw@) by {
            assert(client_in(fx.pld@) =~= fx.c.0@);
        }
    }
    let (resps1, sess) = match first_round(fx, &req, it) {
        Some(v) => v,
        None => {
            return None;
        },
    };
    let ghost s = responses(resps1@);
    assert(s =~= fx.first_answers(*it)) by {
        assert forall|j: int| 0 <= j < fx.t implies #[trigger] s[j] == fx.first_answers(
            *it,
        )[j] by {
            assert(s[j] == resps1@[j]@);
        }
    }
    let phase1 = client_phase1(
        &st,
        &req,
        resps1.as_slice(),
        fx.pk_shares.as_slice(),
        Some(it.ctch_nonces.as_slice()),
        rng,
    );
    proof {
        assert forall|gc: Seq<int>, pc: Seq<int>, cc: Seq<int>| #[trigger]
            fx.sound(gc, pc, cc) && it.r@ != 0 implies phase1 is Some && forall|k: int|
            0 <= k < fx.t ==> phase1_plain(
                st.password@,
                st.r@,
                first_ids(fx.t as nat),
                s,
                #[trigger] first_ids(fx.t as nat)[k],
            ) == it.r1@[k].ch@ + it.r1@[k].ek@ by {
            assert forall|j: int| 0 <= j < fx.t implies (#[trigger] s[j]) == first_response(
                fx.servers@[j]@,
                fx.pld@,
                req.bpw@,
                it.r1@[j],
            ) && g1_valid(s[j].sigma_i) by {
                assert(s[j] == resps1@[j]@);
            }
            lemma_honest_responses(*fx, gc, pc, cc, it.r@, req.bpw@, s, it.r1@);
            lemma_first_ids(fx.t as nat);
            let ts = first_ids(fx.t as nat);
            let secret = client_secret(
                g1_mul(password_g1(fx.password@), at(cc, 0)),
                fx.password@,
            );
            assert(client_in(fx.pld@) =~= fx.c.0@);
            assert forall|k: int| 0 <= k < ts.len() implies pke_opened(
                secret,
                no_aad(),
                response_of(s, #[trigger] ts[k]).ct_res,
            ) == Some(it.r1@[k].ch@ + it.r1@[k].ek@) by {
                assert(response_of(s, ts[k]) == s[k]);
                assert(s[k] == resps1@[k]@);
                assert(fx.servers@[k]@.records[fx.c.0@].rpk == x25519_public(secret));
            }
            assert(phase1_accepts(
                st.password@,
                st.r@,
                st.t_set@,
                req.bpw@,
                s,
                keyed(fx.pk_shares@),
            ));
        }
    }
    let phase1 = match phase1 {
        Some(p) => p,
        None => {
            return None;
        },
    };
    proof {
        assert forall|gc: Seq<int>, pc: Seq<int>, cc: Seq<int>| #[trigger]
            fx.sound(gc, pc, cc) && it.r@ != 0 implies (forall|j: int|
            0 <= j < fx.t ==> challenge_accepted(#[trigger] sess@[j], phase1.ct_ch@, j))
            && session_keys(phase1.ek@) == Seq::new(
            fx.t as nat,
            |j: int| (first_ids(fx.t as nat)[j], it.r1@[j].ek@),
        ) by {
            let ts = first_ids(fx.t as nat);
            lemma_first_ids(fx.t as nat);
            assert forall|k: int| 0 <= k < ts.len() implies {
                &&& phase1.ch@[k].1@ == it.r1@[k].ch@
                &&& phase1.ek@[k].0 == ts[k]
                &&& phase1.ek@[k].1@ == it.r1@[k].ek@
                &&& (#[trigger] phase1.ct_ch@[k]).0 == ts[k]
                &&& opened(it.r1@[k].ek@, no_aad(), phase1.ct_ch@[k].1@) == Some(it.r1@[k].ch@)
            } by {
                let pt = it.r1@[k].ch@ + it.r1@[k].ek@;
                assert(phase1_plain(st.password@, st.r@, ts, s, ts[k]) == pt);
                assert(pt.subrange(0, 32) =~= it.r1@[k].ch@);
                assert(pt.subrange(32, 64) =~= it.r1@[k].ek@);
            }
            assert(challenge_ids(phase1.ct_ch@) =~= ts);
            assert forall|j: int| 0 <= j < fx.t implies challenge_accepted(
                #[trigger] sess@[j],
                phase1.ct_ch@,
                j,
            ) by {
                assert(place_of(ts, ts[j]) == Some(j));
                assert(phase1.ct_ch@[j].0 == ts[j]);
            }
            assert forall|j: int| 0 <= j < ts.len() implies #[trigger] session_keys(
                phase1.ek@,
            )[j] == (ts[j], it.r1@[j].ek@) by {
                assert(phase1.ct_ch@[j].0 == ts[j]);
            }
            assert(session_keys(phase1.ek@) =~= Seq::new(
                fx.t as nat,
                |j: int| (first_ids(fx.t as nat)[j], it.r1@[j].ek@),
            ));
        }
    }
    proof {
        let ts = sorted(fx.t_set@);
        assert forall|k: int| 0 <= k < ts.len() implies {
            &&& (#[trigger] phase1.ct_ch@[k]).0 == ts[k]
            &&& phase1.ct_ch@[k].1@ == fx.returned(*it, k)
            &&& phase1.ek@[k].0 == ts[k]
            &&& phase1.ek@[k].1@ == fx.found(*it, k).subrange(32, 64)
        } by {
            let id = ts[k];
        }
        assert(challenge_ids(phase1.ct_ch@) =~= ts);
        assert forall|j: int| 0 <= j < fx.t implies #[trigger] fx.gets_challenge(*it, j)
            == challenge_accepted(sess@[j], phase1.ct_ch@, j) by {
            let id = sess@[j];
            if place_of(ts, (j + 1) as u32) is Some {
                lemma_place_of(ts, (j + 1) as u32);
                let p = place_of(ts, (j + 1) as u32)->Some_0;
                assert(phase1.ct_ch@[p].0 == ts[p]);
            }
        }
        assert forall|k: int| 0 <= k < ts.len() implies #[trigger] session_keys(phase1.ek@)[k]
            == fx.found_keys(*it)[k] by {
            assert(phase1.ct_ch@[k].0 == ts[k]);
        }
        assert(session_keys(phase1.ek@) =~= fx.found_keys(*it));
    }
    let resps2 = match second_round(fx, &sess, &phase1.ct_ch, it) {
        Some(v) => v,
        None => {
            proof {
                let j = choose|j: int|
                    0 <= j < fx.t && !challenge_accepted(#[trigger] sess@[j], phase1.ct_ch@, j);
                assert(!fx.gets_challenge(*it, j));
            }
            return None;
        },
    };
    assert(responses2(resps2@) =~= fx.second_answers(*it)) by {
        assert forall|j: int| 0 <= j < fx.t implies #[trigger] responses2(resps2@)[j]
            == fx.second_answers(*it)[j] by {
            assert(responses2(resps2@)[j] == resps2@[j]@);
            assert(sess@[j].pld == fx.pld);
        }
    }
    proof {
        let s2 = responses2(resps2@);
        let eks = session_keys(phase1.ek@);
        assert forall|gc: Seq<int>, pc: Seq<int>, cc: Seq<int>| #[trigger]
            fx.sound(gc, pc, cc) && it.r@ != 0 implies honest_tokens(
            st.t_set@,
            st.pld@,
            s2,
            eks,
            keyed(fx.gamma_pub_shares@),
            gc,
        ) by {
            assert forall|j: int| 0 <= j < fx.t implies {
                let tkn = g1_mul(payload_g1(fx.pld@), fx.servers@[j]@.gamma_i);
                &&& (#[trigger] s2[j]).server_id == fx.servers@[j]@.id
                &&& eks[j].0 == first_ids(fx.t as nat)[j]
                &&& opened(eks[j].1, no_aad(), s2[j].ct_tkn) == Some(tkn + fx.pld@)
                &&& g1_valid(tkn)
                &&& tkn.len() == 48
            } by {
                assert(s2[j] == resps2@[j]@);
                assert(sess@[j].ek == it.r1@[j].ek);
            }
            assert(resps2@[0]@ == s2[0]);
            assert(sess@[0].pld == fx.pld);
            lemma_honest_tokens(*fx, gc, pc, cc, s2, eks);
        }
    }
    let tok = match client_finalize(
        &st,
        &phase1,
        resps2.as_slice(),
        fx.gamma_pub_shares.as_slice(),
    ) {
        Some(tok) => tok,
        None => {
            return None;
        },
    };
    if verify_token(&fx.gamma_pk, &tok) {
        Some(tok)
    } else {
        None
    }
}

} // verus!
