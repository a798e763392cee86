//! Change of a client's password: the servers replace the public key that the old
//! password opened by that of the new one.
use vstd::prelude::*;
use vstd::string::StringSliceAdditionalSpecFns;

use crate::aead::{self, opened, sealed, Blob, CtBlob};
use crate::augsso::{
    client_secret, keyed, password_g1, public_shares, AugSsoServer, ClientId, PublicParams,
    RecordState, RegistrationMsg, ServerState, BPW_LEN, CH_LEN, EK_LEN, SIGMA_LEN,
};
use crate::augsso_auth::{after_nonces, key_ids, key_of, no_aad, Respond1Rand};
use crate::augsso_fixture::{
    at, first_ids, fixture_server, lemma_first_ids, lemma_public_share, make_first_ids, rand_drawn,
    Fixture,
};
use crate::bls::{
    g1_from_bytes, g1_mul, g1_to_bytes, g1_valid, g2_of, order, pairing_check_g1_g2,
    signature_holds, Scalar, G1, G2,
};
use crate::bytes::{self, cat2, cat3};
use crate::crypto_augsso::{
    combine_g1_at_zero, hash_g1_and_bytes_to_32, hash_to_g1, nonzero_drawn, pke_dec,
    pke_enc_with_eph_and_nonce, pke_kg, pke_opened, pke_sealed, random_scalar_nonzero, PkeBox,
    PkeCt,
};
use crate::field::{distinct, inverse_of, lemma_inverse_cancels, shares_of, Field};
use crate::group::{combined_at_zero, encs, on_polynomial, values_at, Group};
use crate::hash::blake3_hash;
use crate::ids::{copy_ids, find_id, lemma_place_of, place_of, same_ids, sort_ids, sorted};
use crate::keys::x25519_public;
use crate::rng::{Rng, RngState};

verus! {

pub const UPDATE_PKE_PT_LEN: usize = CH_LEN + EK_LEN + SIGMA_LEN;

pub const UPDATE_CTCH_PT_LEN: usize = CH_LEN + 32;

/// What a client remembers of a password update.
#[derive(Clone, Debug)]
pub struct PasswordUpdateClientState {
    pub old_password: Vec<u8>,
    pub new_password: Vec<u8>,
    pub r_old: Scalar,
    pub r_new: Scalar,
    pub t_set: Vec<u32>,
    pub nsp: usize,
}

/// The blinded old and new passwords of a client.
#[derive(Clone, Copy, Debug)]
pub struct PasswordUpdateRequest {
    pub client_id: ClientId,
    pub bpw_old: [u8; BPW_LEN],
    pub bpw_new: [u8; BPW_LEN],
}

/// A server's first response to a password update.
#[derive(Clone, Copy, Debug)]
pub struct PasswordUpdateResponse1 {
    pub server_id: u32,
    pub sigma_old_i: [u8; SIGMA_LEN],
    pub ct_res: PkeCt<UPDATE_PKE_PT_LEN>,
}

/// What a first response holds.
#[verifier::ext_equal]
pub struct UpdateResponse1 {
    pub server_id: u32,
    pub sigma_old_i: Seq<u8>,
    pub ct_res: PkeBox,
}

impl View for PasswordUpdateResponse1 {
    type V = UpdateResponse1;

    open spec fn view(&self) -> UpdateResponse1 {
        UpdateResponse1 {
            server_id: self.server_id,
            sigma_old_i: self.sigma_old_i@,
            ct_res: self.ct_res@,
        }
    }
}

/// What a server remembers between its responses.
#[derive(Clone, Copy, Debug)]
pub struct PasswordUpdateServerSession {
    pub server_id: u32,
    pub client_id: ClientId,
    pub bpw_new: [u8; BPW_LEN],
    pub ek: [u8; EK_LEN],
    pub ch: [u8; CH_LEN],
}

/// The encrypted challenges that a client sends back.
#[derive(Clone, Debug)]
pub struct PasswordUpdateClientPhase1 {
    pub ct_ch: Vec<(u32, CtBlob<UPDATE_CTCH_PT_LEN>)>,
}

/// A server's second response: its part of the hardening, and the new public key.
#[derive(Clone, Copy, Debug)]
pub struct PasswordUpdateResponse2 {
    pub server_id: u32,
    pub sigma_phi_i: [u8; SIGMA_LEN],
    pub new_rpk: [u8; 32],
}

/// The random values of one password update.
#[derive(Clone)]
pub struct PasswordUpdateIterData {
    pub r_old: Scalar,
    pub r_new: Scalar,
    pub respond1_rand: Vec<Respond1Rand>,
    pub ctch_nonces: Vec<[u8; 24]>,
}

/// The generator after the random values for `k` servers.
pub open spec fn after_update_rands(rng: RngState, k: nat) -> RngState
    decreases k,
{
    if k == 0 {
        rng
    } else {
        after_update_rands(rng, (k - 1) as nat).skip(32).skip(32).skip(32).skip(24).skip(24)
    }
}

/// Draws the random values of one password update with all servers.
pub fn make_password_update_iter_data(fx: &Fixture, rng: &mut Rng) -> (r: Option<
    PasswordUpdateIterData,
>)
    ensures
        r is Some <==> nonzero_drawn(old(rng)@).0 is Some && nonzero_drawn(
            nonzero_drawn(old(rng)@).1,
        ).0 is Some,
        r matches Some(it) ==> {
            let rng1 = nonzero_drawn(old(rng)@).1;
            let rng2 = nonzero_drawn(rng1).1;
            &&& nonzero_drawn(old(rng)@).0 == Some(it.r_old@)
            &&& nonzero_drawn(rng1).0 == Some(it.r_new@)
            &&& it.r_old@ != 0
            &&& it.r_new@ != 0
            &&& it.respond1_rand@.len() == fx.n
            &&& it.ctch_nonces@.len() == fx.n
            &&& forall|k: int|
                0 <= k < fx.n ==> rand_drawn(
                    #[trigger] it.respond1_rand@[k],
                    after_update_rands(rng2, k as nat),
                )
            &&& forall|k: int|
                0 <= k < fx.n ==> (#[trigger] it.ctch_nonces@[k])@ == after_update_rands(
                    rng2,
                    k as nat,
                ).skip(32).skip(32).skip(32).skip(24).bytes(24)
            &&& final(rng)@ == after_update_rands(rng2, fx.n as nat)
        },
{
    let r_old: Scalar = match random_scalar_nonzero(rng) {
        Some(r) => r,
        None => {
            return None;
        },
    };
    let r_new: Scalar = match random_scalar_nonzero(rng) {
        Some(r) => r,
        None => {
            return None;
        },
    };
    let ghost r0 = rng@;
    let mut respond1_rand: Vec<Respond1Rand> = Vec::with_capacity(fx.n);
    let mut ctch_nonces: Vec<[u8; 24]> = Vec::with_capacity(fx.n);
    let mut i: usize = 0;
    while i < fx.n
        invariant
            i <= fx.n,
            respond1_rand@.len() == i,
            ctch_nonces@.len() == i,
            forall|k: int|
                0 <= k < i ==> rand_drawn(
                    #[trigger] respond1_rand@[k],
                    after_update_rands(r0, k as nat),
                ),
            forall|k: int|
                0 <= k < i ==> (#[trigger] ctch_nonces@[k])@ == after_update_rands(
                    r0,
                    k as nat,
                ).skip(32).skip(32).skip(32).skip(24).bytes(24),
            rng@ == after_update_rands(r0, i as nat),
        decreases fx.n - i,
    {
        let ch = rng.take_array::<32>();
        let ek = rng.take_array::<32>();
        let pke_eph_sk = rng.take_array::<32>();
        let pke_nonce = rng.take_array::<24>();
        let ctch_nonce = rng.take_array::<24>();
        respond1_rand.push(Respond1Rand { ch, ek, pke_eph_sk, pke_nonce });
        ctch_nonces.push(ctch_nonce);
        i = i + 1;
    }
    Some(PasswordUpdateIterData { r_old, r_new, respond1_rand, ctch_nonces })
}

/// Starts a password update with the given blinding factors.
pub fn password_update_request_with_r(
    fx: &Fixture,
    new_password: &[u8],
    r_old: Scalar,
    r_new: Scalar,
) -> (r: (PasswordUpdateClientState, PasswordUpdateRequest))
    ensures
        r.0.old_password@ == fx.password@,
        r.0.new_password@ == new_password@,
        r.0.r_old@ == r_old@,
        r.0.r_new@ == r_new@,
        r.0.t_set@ == fx.t_set@,
        r.0.nsp == fx.n,
        r.1.client_id == fx.c,
        r.1.bpw_old@ == g1_mul(password_g1(fx.password@), r_old@),
        r.1.bpw_new@ == g1_mul(password_g1(new_password@), r_new@),
        g1_valid(r.1.bpw_old@),
        g1_valid(r.1.bpw_new@),
        blinds(r.1.bpw_old@, password_g1(fx.password@), r_old@),
        blinds(r.1.bpw_new@, password_g1(new_password@), r_new@),
{
    let old_h = hash_to_g1("augsso/H_pw/v1".as_bytes(), fx.password.as_slice());
    let new_h = hash_to_g1("augsso/H_pw/v1".as_bytes(), new_password);
    let old_pt: G1 = old_h.scale(r_old);
    let new_pt: G1 = new_h.scale(r_new);
    let bpw_old = g1_to_bytes(&old_pt);
    let bpw_new = g1_to_bytes(&new_pt);
    proof {
        assert forall|k: nat| k < order() implies #[trigger] g1_mul(bpw_old@, k) == g1_mul(
            old_h@,
            (r_old@ * k) % order(),
        ) by {
            assert(G1::mul_of(old_pt.enc(), k) == G1::mul_of(old_h.enc(), (r_old@ * k) % order()));
        }
        assert forall|k: nat| k < order() implies #[trigger] g1_mul(bpw_new@, k) == g1_mul(
            new_h@,
            (r_new@ * k) % order(),
        ) by {
            assert(G1::mul_of(new_pt.enc(), k) == G1::mul_of(new_h.enc(), (r_new@ * k) % order()));
        }
    }
    (
        PasswordUpdateClientState {
            old_password: bytes::copy_bytes(fx.password.as_slice()),
            new_password: bytes::copy_bytes(new_password),
            r_old,
            r_new,
            t_set: copy_ids(fx.t_set.as_slice()),
            nsp: fx.n,
        },
        PasswordUpdateRequest { client_id: fx.c, bpw_old, bpw_new },
    )
}

/// `b` is `h` multiplied by `r`: the multiples of `b` are those of `h` by the product.
pub open spec fn blinds(b: Seq<u8>, h: Seq<u8>, r: nat) -> bool {
    &&& g1_valid(h)
    &&& forall|k: nat|
        k < order() ==> #[trigger] g1_mul(b, k) == g1_mul(h, (r * k) % order())
}

/// Starts a password update with drawn blinding factors.
pub fn password_update_request(fx: &Fixture, new_password: &[u8], rng: &mut Rng) -> (r: Option<
    (PasswordUpdateClientState, PasswordUpdateRequest),
>)
    ensures
        r is Some <==> nonzero_drawn(old(rng)@).0 is Some && nonzero_drawn(
            nonzero_drawn(old(rng)@).1,
        ).0 is Some,
        r matches Some((st, req)) ==> {
            &&& nonzero_drawn(old(rng)@).0 == Some(st.r_old@)
            &&& nonzero_drawn(nonzero_drawn(old(rng)@).1).0 == Some(st.r_new@)
            &&& st.old_password@ == fx.password@
            &&& st.new_password@ == new_password@
            &&& st.t_set@ == fx.t_set@
            &&& st.nsp == fx.n
            &&& req.client_id == fx.c
            &&& req.bpw_old@ == g1_mul(password_g1(fx.password@), st.r_old@)
            &&& req.bpw_new@ == g1_mul(password_g1(new_password@), st.r_new@)
            &&& final(rng)@ == nonzero_drawn(nonzero_drawn(old(rng)@).1).1
        },
{
    let r_old: Scalar = match random_scalar_nonzero(rng) {
        Some(r) => r,
        None => {
            return None;
        },
    };
    let r_new: Scalar = match random_scalar_nonzero(rng) {
        Some(r) => r,
        None => {
            return None;
        },
    };
    Some(password_update_request_with_r(fx, new_password, r_old, r_new))
}

/// A server answers a registered client whose blinded passwords are group elements.
pub open spec fn answers_update(srv: ServerState, req: PasswordUpdateRequest) -> bool {
    srv.records.dom().contains(req.client_id.0@) && g1_valid(req.bpw_old@) && g1_valid(req.bpw_new@)
}

/// The plaintext of a first response: challenge, session key, value for the new password.
pub open spec fn update_plain(
    srv: ServerState,
    req: PasswordUpdateRequest,
    rand: Respond1Rand,
) -> Seq<u8> {
    rand.ch@ + rand.ek@ + g1_mul(req.bpw_new@, srv.records[req.client_id.0@].sk_i)
}

/// The first response of a server.
pub open spec fn update_response1(
    srv: ServerState,
    req: PasswordUpdateRequest,
    rand: Respond1Rand,
) -> UpdateResponse1 {
    let rec = srv.records[req.client_id.0@];
    UpdateResponse1 {
        server_id: srv.id,
        sigma_old_i: g1_mul(req.bpw_old@, rec.sk_i),
        ct_res: pke_sealed(
            rec.rpk,
            no_aad(),
            update_plain(srv, req, rand),
            rand.pke_eph_sk@,
            rand.pke_nonce@,
        ),
    }
}

/// The first response with the given random values. The holder of the secret key can
/// open it.
pub fn password_update_respond1_with_rand(
    srv: &AugSsoServer,
    req: &PasswordUpdateRequest,
    rand: &Respond1Rand,
) -> (r: Option<(PasswordUpdateResponse1, PasswordUpdateServerSession)>)
    ensures
        r is Some <==> answers_update(srv@, *req),
        r matches Some((resp, sess)) ==> {
            &&& resp@ == update_response1(srv@, *req, *rand)
            &&& sess == (PasswordUpdateServerSession {
                server_id: srv@.id,
                client_id: req.client_id,
                bpw_new: req.bpw_new,
                ek: rand.ek,
                ch: rand.ch,
            })
            &&& g1_valid(resp@.sigma_old_i)
            &&& g1_valid(g1_mul(req.bpw_new@, srv@.records[req.client_id.0@].sk_i))
            &&& update_plain(srv@, *req, *rand).len() == 112
            &&& forall|sk: Seq<u8>|
                sk.len() == 32 && srv@.records[req.client_id.0@].rpk == #[trigger] x25519_public(
                    sk,
                ) ==> pke_opened(sk, no_aad(), resp@.ct_res) == Some(
                    update_plain(srv@, *req, *rand),
                )
        },
{
    let rec = match srv.get_record(req.client_id) {
        Some(rec) => *rec,
        None => {
            return None;
        },
    };
    let bpw_old: G1 = match g1_from_bytes(&req.bpw_old) {
        Some(p) => p,
        None => {
            return None;
        },
    };
    let bpw_new: G1 = match g1_from_bytes(&req.bpw_new) {
        Some(p) => p,
        None => {
            return None;
        },
    };
    let sigma_old_pt: G1 = bpw_old.scale(rec.sk_i);
    let sigma_new_pt: G1 = bpw_new.scale(rec.sk_i);
    let sigma_old_i = g1_to_bytes(&sigma_old_pt);
    let sigma_new_i = g1_to_bytes(&sigma_new_pt);
    let all = cat3(&rand.ch, &rand.ek, &sigma_new_i);
    let pt = bytes::to_array::<UPDATE_PKE_PT_LEN>(all.as_slice());
    let aad: [u8; 0] = [];
    assert(aad@ =~= no_aad());
    let ct_res = pke_enc_with_eph_and_nonce(
        &rec.rpk,
        &aad,
        &pt,
        &rand.pke_eph_sk,
        &rand.pke_nonce,
    );
    Some(
        (
            PasswordUpdateResponse1 { server_id: srv.id, sigma_old_i, ct_res },
            PasswordUpdateServerSession {
                server_id: srv.id,
                client_id: req.client_id,
                bpw_new: req.bpw_new,
                ek: rand.ek,
                ch: rand.ch,
            },
        ),
    )
}

/// The first response with random values from `rng`.
pub fn password_update_respond1(
    srv: &AugSsoServer,
    req: &PasswordUpdateRequest,
    rng: &mut Rng,
) -> (r: Option<(PasswordUpdateResponse1, PasswordUpdateServerSession)>)
    ensures
        r is Some <==> answers_update(srv@, *req),
        r matches Some((resp, sess)) ==> exists|rand: Respond1Rand| #[trigger]
            rand_drawn(rand, old(rng)@) && resp@ == update_response1(srv@, *req, rand) && sess == (
            PasswordUpdateServerSession {
                server_id: srv@.id,
                client_id: req.client_id,
                bpw_new: req.bpw_new,
                ek: rand.ek,
                ch: rand.ch,
            }),
        final(rng)@ == old(rng)@.skip(32).skip(32).skip(32).skip(24),
{
    let ch = rng.take_array::<32>();
    let ek = rng.take_array::<32>();
    let pke_eph_sk = rng.take_array::<32>();
    let pke_nonce = rng.take_array::<24>();
    let rand = Respond1Rand { ch, ek, pke_eph_sk, pke_nonce };
    assert(rand_drawn(rand, old(rng)@));
    password_update_respond1_with_rand(srv, req, &rand)
}

/// What a list of first responses holds.
pub open spec fn update_responses(s: Seq<PasswordUpdateResponse1>) -> Seq<UpdateResponse1> {
    Seq::new(s.len(), |i: int| s[i]@)
}

/// The servers of a list of first responses.
pub open spec fn update_responders(s: Seq<UpdateResponse1>) -> Seq<u32> {
    Seq::new(s.len(), |i: int| s[i].server_id)
}

/// A value checks against the key listed for a server.
pub open spec fn value_checks(
    pks: Seq<(u32, Seq<u8>)>,
    sid: u32,
    bpw: Seq<u8>,
    sigma: Seq<u8>,
) -> bool {
    &&& g1_valid(sigma)
    &&& place_of(key_ids(pks), sid) is Some
    &&& signature_holds(bpw, sigma, key_of(pks, sid))
}

/// The values for the old password of the servers in `t_set`.
pub open spec fn old_values(s: Seq<UpdateResponse1>, t_set: Seq<u32>) -> Seq<Seq<u8>> {
    Seq::new(
        t_set.len(),
        |k: int| s[place_of(update_responders(s), t_set[k])->Some_0].sigma_old_i,
    )
}

/// The secret key that the old password gives.
pub open spec fn old_secret(
    old_password: Seq<u8>,
    r_old: nat,
    t_set: Seq<u32>,
    s: Seq<UpdateResponse1>,
) -> Seq<u8> {
    client_secret(
        g1_mul(
            combined_at_zero::<G1>(t_set, old_values(s, t_set)),
            inverse_of(r_old, order()),
        ),
        old_password,
    )
}

/// The plaintexts that a secret key opens.
pub open spec fn update_opened(sk: Seq<u8>, s: Seq<UpdateResponse1>, i: int) -> Option<Seq<u8>> {
    pke_opened(sk, no_aad(), s[i].ct_res)
}

/// The values for the new password of the servers in `t_set`.
pub open spec fn new_values(
    sk: Seq<u8>,
    s: Seq<UpdateResponse1>,
    t_set: Seq<u32>,
) -> Seq<Seq<u8>> {
    Seq::new(
        t_set.len(),
        |k: int|
            update_opened(
                sk,
                s,
                place_of(update_responders(s), t_set[k])->Some_0,
            )->Some_0.subrange(64, 112),
    )
}

/// The public key that the new password gives.
pub open spec fn new_public(
    new_password: Seq<u8>,
    r_new: nat,
    t_set: Seq<u32>,
    sk: Seq<u8>,
    s: Seq<UpdateResponse1>,
) -> Seq<u8> {
    x25519_public(
        client_secret(
            g1_mul(
                combined_at_zero::<G1>(t_set, new_values(sk, s, t_set)),
                inverse_of(r_new, order()),
            ),
            new_password,
        ),
    )
}

/// All servers responded once, every value checks, every response opens under the key of
/// the old password, and both blinding factors can be removed.
pub open spec fn update_accepts(
    st: PasswordUpdateClientState,
    req: PasswordUpdateRequest,
    s: Seq<UpdateResponse1>,
    pks: Seq<(u32, Seq<u8>)>,
    nonces: Option<nat>,
) -> bool {
    let sk = old_secret(st.old_password@, st.r_old@, st.t_set@, s);
    &&& s.len() == st.nsp
    &&& sorted(update_responders(s)) == first_ids(st.nsp as nat)
    &&& g1_valid(req.bpw_old@)
    &&& g1_valid(req.bpw_new@)
    &&& forall|i: int|
        0 <= i < s.len() ==> value_checks(
            pks,
            (#[trigger] s[i]).server_id,
            req.bpw_old@,
            s[i].sigma_old_i,
        )
    &&& forall|k: int|
        0 <= k < st.t_set@.len() ==> place_of(
            update_responders(s),
            #[trigger] st.t_set@[k],
        ) is Some
    &&& st.r_old@ != 0
    &&& forall|i: int|
        0 <= i < s.len() ==> (update_opened(sk, s, i) matches Some(pt) && value_checks(
            pks,
            (#[trigger] s[i]).server_id,
            req.bpw_new@,
            pt.subrange(64, 112),
        ))
    &&& st.r_new@ != 0
    &&& nonces matches Some(n) ==> n == st.nsp
}

/// The first responses are those of servers that share, on the polynomial `c`, the
/// client's key, to a request that blinds the hashes `h_old` and `h_new` of the
/// passwords, and they are encrypted to the key that the old password gives.
pub open spec fn honest_update(
    st: PasswordUpdateClientState,
    req: PasswordUpdateRequest,
    s: Seq<UpdateResponse1>,
    pks: Seq<(u32, Seq<u8>)>,
    h_old: Seq<u8>,
    h_new: Seq<u8>,
    c: Seq<int>,
) -> bool {
    let secret = client_secret(g1_mul(h_old, at(c, 0)), st.old_password@);
    &&& s.len() == st.nsp
    &&& sorted(update_responders(s)) == first_ids(st.nsp as nat)
    &&& distinct(st.t_set@)
    &&& c.len() <= st.t_set@.len()
    &&& st.r_old@ != 0
    &&& st.r_new@ != 0
    &&& g1_valid(req.bpw_old@)
    &&& g1_valid(req.bpw_new@)
    &&& blinds(req.bpw_old@, h_old, st.r_old@)
    &&& blinds(req.bpw_new@, h_new, st.r_new@)
    &&& forall|k: int|
        0 <= k < st.t_set@.len() ==> place_of(
            update_responders(s),
            #[trigger] st.t_set@[k],
        ) is Some
    &&& forall|i: int|
        0 <= i < s.len() ==> {
            let a = at(c, s[i].server_id as int);
            &&& (#[trigger] s[i]).sigma_old_i == g1_mul(req.bpw_old@, a)
            &&& g1_valid(s[i].sigma_old_i)
            &&& place_of(key_ids(pks), s[i].server_id) is Some
            &&& key_of(pks, s[i].server_id) == g2_of(a)
            &&& update_opened(secret, s, i) matches Some(pt) && pt.subrange(64, 112) == g1_mul(
                req.bpw_new@,
                a,
            ) && g1_valid(pt.subrange(64, 112))
        }
}

/// Values of shares combine, and the blinding drops out.
proof fn lemma_values_combine(
    responders: Seq<u32>,
    values: Seq<Seq<u8>>,
    t_set: Seq<u32>,
    picked: Seq<Seq<u8>>,
    bpw: Seq<u8>,
    c: Seq<int>,
)
    requires
        g1_valid(bpw),
        values.len() == responders.len(),
        picked.len() == t_set.len(),
        forall|i: int|
            0 <= i < responders.len() ==> #[trigger] values[i] == g1_mul(
                bpw,
                at(c, responders[i] as int),
            ),
        forall|k: int|
            0 <= k < t_set.len() ==> place_of(responders, #[trigger] t_set[k]) is Some
                && picked[k] == values[place_of(responders, t_set[k])->Some_0],
    ensures
        on_polynomial::<G1>(picked, bpw, t_set, c),
{
    let ys = values_at(c, t_set, order());
    assert forall|k: int| 0 <= k < picked.len() implies 0 <= ys[k] < order()
        && #[trigger] picked[k] == G1::mul_of(bpw, ys[k] as nat) by {
        lemma_place_of(responders, t_set[k]);
        let p = place_of(responders, t_set[k])->Some_0;
        assert(values[p] == g1_mul(bpw, at(c, responders[p] as int)));
    }
}

/// Checks one value against the key listed for a server.
fn check_value(
    pk_ids: &Vec<u32>,
    pk_shares: &[(u32, G2)],
    sid: u32,
    bpw: &G1,
    bytes48: &[u8; 48],
) -> (r: Option<G1>)
    requires
        pk_ids@ == key_ids(keyed(pk_shares@)),
    ensures
        r is Some <==> value_checks(keyed(pk_shares@), sid, bpw@, bytes48@),
        r matches Some(p) ==> p@ == bytes48@,
        forall|a: nat|
            a < order() && g1_valid(bytes48@) && place_of(key_ids(keyed(pk_shares@)), sid) is Some
                && bytes48@ == #[trigger] g1_mul(bpw@, a) && key_of(keyed(pk_shares@), sid)
                == g2_of(a) ==> r is Some,
{
    let ghost pks = keyed(pk_shares@);
    let sigma: G1 = match g1_from_bytes(bytes48) {
        Some(p) => p,
        None => {
            return None;
        },
    };
    let at_pk = match find_id(pk_ids.as_slice(), sid) {
        Some(i) => i,
        None => {
            return None;
        },
    };
    assert(pk_ids@.len() == pk_shares@.len());
    assert(pks[at_pk as int] == (pk_shares@[at_pk as int].0, pk_shares@[at_pk as int].1@));
    if pairing_check_g1_g2(&sigma, bpw, &pk_shares[at_pk].1) {
        Some(sigma)
    } else {
        None
    }
}

fn ids_of_keys(pk_shares: &[(u32, G2)]) -> (r: Vec<u32>)
    ensures
        r@ == key_ids(keyed(pk_shares@)),
{
    let mut r: Vec<u32> = Vec::with_capacity(pk_shares.len());
    let mut i: usize = 0;
    while i < pk_shares.len()
        invariant
            i <= pk_shares@.len(),
            r@.len() == i,
            forall|k: int| 0 <= k < i ==> r@[k] == pk_shares@[k].0,
        decreases pk_shares@.len() - i,
    {
        r.push(pk_shares[i].0);
        i = i + 1;
    }
    assert(r@ =~= key_ids(keyed(pk_shares@)));
    r
}

/// Checks all responses, recovers the keys of both passwords and encrypts, for each
/// server, its challenge and the new public key.
#[verifier::rlimit(80)]
#[verifier::loop_isolation(false)]
pub fn password_update_client_phase1(
    st: &PasswordUpdateClientState,
    req: &PasswordUpdateRequest,
    resps: &[PasswordUpdateResponse1],
    pk_shares: &[(u32, G2)],
    ctch_nonces: Option<&[[u8; 24]]>,
    rng: &mut Rng,
) -> (r: Option<PasswordUpdateClientPhase1>)
    requires
        st.nsp <= u32::MAX,
    ensures
        r is Some <==> update_accepts(
            *st,
            *req,
            update_responses(resps@),
            keyed(pk_shares@),
            match ctch_nonces {
                Some(ns) => Some(ns@.len()),
                None => None,
            },
        ),
        r matches Some(out) ==> {
            let s = update_responses(resps@);
            let sk = old_secret(st.old_password@, st.r_old@, st.t_set@, s);
            let rpk = new_public(st.new_password@, st.r_new@, st.t_set@, sk, s);
            &&& out.ct_ch@.len() == resps@.len()
            &&& forall|i: int|
                0 <= i < resps@.len() ==> {
                    let pt = update_opened(sk, s, i)->Some_0;
                    let nonce = match ctch_nonces {
                        Some(ns) => ns@[i]@,
                        None => after_nonces(old(rng)@, i as nat).bytes(24),
                    };
                    &&& (#[trigger] out.ct_ch@[i]).0 == resps@[i].server_id
                    &&& out.ct_ch@[i].1@ == sealed(
                        pt.subrange(32, 64),
                        no_aad(),
                        pt.subrange(0, 32) + rpk,
                        nonce,
                    )
                    &&& opened(pt.subrange(32, 64), no_aad(), out.ct_ch@[i].1@) == Some(
                        pt.subrange(0, 32) + rpk,
                    )
                }
            &&& rpk.len() == 32
        },
        final(rng)@ == if r is Some && ctch_nonces is None {
            after_nonces(old(rng)@, resps@.len())
        } else {
            old(rng)@
        },
        forall|h_old: Seq<u8>, h_new: Seq<u8>, c: Seq<int>|
            (ctch_nonces matches Some(ns) ==> ns@.len() == st.nsp) && #[trigger] honest_update(
                *st,
                *req,
                update_responses(resps@),
                keyed(pk_shares@),
                h_old,
                h_new,
                c,
            ) ==> {
                let s = update_responses(resps@);
                let sk = old_secret(st.old_password@, st.r_old@, st.t_set@, s);
                &&& r is Some
                &&& sk == client_secret(g1_mul(h_old, at(c, 0)), st.old_password@)
                &&& new_public(st.new_password@, st.r_new@, st.t_set@, sk, s) == x25519_public(
                    client_secret(g1_mul(h_new, at(c, 0)), st.new_password@),
                )
                &&& client_secret(g1_mul(h_new, at(c, 0)), st.new_password@).len() == 32
            },
{
    let ghost s = update_responses(resps@);
    let ghost pks = keyed(pk_shares@);
    let ghost sk = old_secret(st.old_password@, st.r_old@, st.t_set@, s);
    let ghost responders = update_responders(s);
    if resps.len() != st.nsp {
        return None;
    }
    let mut ids: Vec<u32> = Vec::with_capacity(resps.len());
    let mut i: usize = 0;
    while i < resps.len()
        invariant
            i <= resps@.len(),
            ids@.len() == i,
            forall|k: int| 0 <= k < i ==> ids@[k] == resps@[k].server_id,
        decreases resps@.len() - i,
    {
        ids.push(resps[i].server_id);
        i = i + 1;
    }
    assert(ids@ =~= responders);
    let ids_sorted = sort_ids(ids.as_slice());
    let expected = make_first_ids(st.nsp);
    if !same_ids(ids_sorted.as_slice(), expected.as_slice()) {
        return None;
    }
    let bpw_old: G1 = match g1_from_bytes(&req.bpw_old) {
        Some(p) => p,
        None => {
            return None;
        },
    };
    let bpw_new: G1 = match g1_from_bytes(&req.bpw_new) {
        Some(p) => p,
        None => {
            return None;
        },
    };
    let pk_ids = ids_of_keys(pk_shares);
    let mut olds: Vec<G1> = Vec::with_capacity(resps.len());
    let mut a: usize = 0;
    while a < resps.len()
        invariant
            a <= resps@.len(),
            olds@.len() == a,
            forall|k: int|
                0 <= k < a ==> value_checks(
                    pks,
                    (#[trigger] s[k]).server_id,
                    req.bpw_old@,
                    s[k].sigma_old_i,
                ) && olds@[k]@ == s[k].sigma_old_i,
        decreases resps@.len() - a,
    {
        assert(s[a as int] == resps@[a as int]@);
        match check_value(
            &pk_ids,
            pk_shares,
            resps[a].server_id,
            &bpw_old,
            &resps[a].sigma_old_i,
        ) {
            Some(p) => {
                olds.push(p);
            },
            None => {
                proof {
                    assert forall|h_old: Seq<u8>, h_new: Seq<u8>, c: Seq<int>| !#[trigger]
                        honest_update(*st, *req, s, pks, h_old, h_new, c) by {
                        if honest_update(*st, *req, s, pks, h_old, h_new, c) {
                            assert(s[a as int].sigma_old_i == g1_mul(
                                req.bpw_old@,
                                at(c, s[a as int].server_id as int),
                            ));
                        }
                    }
                }
                return None;
            },
        }
        a = a + 1;
    }
    let mut places: Vec<usize> = Vec::with_capacity(st.t_set.len());
    let mut old_partials: Vec<G1> = Vec::with_capacity(st.t_set.len());
    let mut k: usize = 0;
    while k < st.t_set.len()
        invariant
            k <= st.t_set@.len(),
            places@.len() == k,
            old_partials@.len() == k,
            forall|q: int|
                0 <= q < k ==> place_of(responders, #[trigger] st.t_set@[q]) == Some(
                    places@[q] as int,
                ) && places@[q] < resps@.len() && old_partials@[q]@
                    == s[places@[q] as int].sigma_old_i,
        decreases st.t_set@.len() - k,
    {
        match find_id(ids.as_slice(), st.t_set[k]) {
            Some(p) => {
                assert(value_checks(
                    pks,
                    s[p as int].server_id,
                    req.bpw_old@,
                    s[p as int].sigma_old_i,
                ));
                places.push(p);
                old_partials.push(olds[p]);
            },
            None => {
                assert(place_of(responders, st.t_set@[k as int]) is None);
                return None;
            },
        }
        k = k + 1;
    }
    assert(encs(old_partials@) =~= old_values(s, st.t_set@));
    if st.r_old.is_zero() {
        return None;
    }
    let r_old_inv: Scalar = st.r_old.inverse();
    let old_acc: G1 = combine_g1_at_zero(st.t_set.as_slice(), old_partials.as_slice());
    let sigma_old: G1 = old_acc.scale(r_old_inv);
    let hpw_old = hash_g1_and_bytes_to_32(
        "augsso/hpw/v1".as_bytes(),
        &sigma_old,
        st.old_password.as_slice(),
    );
    let old_kp = pke_kg(&hpw_old);
    assert(old_kp.sk@ == sk);
    proof {
        assert forall|h_old: Seq<u8>, h_new: Seq<u8>, c: Seq<int>| #[trigger]
            honest_update(*st, *req, s, pks, h_old, h_new, c) implies sk == client_secret(
            g1_mul(h_old, at(c, 0)),
            st.old_password@,
        ) by {
            let values = Seq::new(s.len(), |i: int| s[i].sigma_old_i);
            assert forall|i: int| 0 <= i < responders.len() implies #[trigger] values[i] == g1_mul(
                req.bpw_old@,
                at(c, responders[i] as int),
            ) by {
                assert(s[i].sigma_old_i == g1_mul(req.bpw_old@, at(c, s[i].server_id as int)));
            }
            assert forall|q: int| 0 <= q < st.t_set@.len() implies place_of(
                responders,
                #[trigger] st.t_set@[q],
            ) is Some && encs(old_partials@)[q] == values[place_of(
                responders,
                st.t_set@[q],
            )->Some_0] by {
                lemma_place_of(responders, st.t_set@[q]);
            }
            lemma_values_combine(
                responders,
                values,
                st.t_set@,
                encs(old_partials@),
                req.bpw_old@,
                c,
            );
            assert(old_acc@ == G1::mul_of(req.bpw_old@, at(c, 0)));
            lemma_inverse_cancels(st.r_old@, r_old_inv@, at(c, 0), order());
            assert(g1_mul(req.bpw_old@, at(c, 0)) == g1_mul(
                h_old,
                (st.r_old@ * at(c, 0)) % order(),
            ));
            assert(old_acc.enc() == G1::mul_of(h_old, (st.r_old@ * at(c, 0)) % order()));
        }
    }
    let aad: [u8; 0] = [];
    assert(aad@ =~= no_aad());
    let mut chs: Vec<[u8; CH_LEN]> = Vec::with_capacity(st.nsp);
    let mut eks: Vec<[u8; EK_LEN]> = Vec::with_capacity(st.nsp);
    let mut news: Vec<G1> = Vec::with_capacity(st.nsp);
    let mut d: usize = 0;
    while d < resps.len()
        invariant
            d <= resps@.len(),
            chs@.len() == d,
            eks@.len() == d,
            news@.len() == d,
            forall|q: int|
                0 <= q < d ==> (update_opened(sk, s, q) matches Some(pt) && value_checks(
                    pks,
                    (#[trigger] s[q]).server_id,
                    req.bpw_new@,
                    pt.subrange(64, 112),
                ) && chs@[q]@ == pt.subrange(0, 32) && eks@[q]@ == pt.subrange(32, 64)
                    && news@[q]@ == pt.subrange(64, 112)),
        decreases resps@.len() - d,
    {
        assert(s[d as int] == resps@[d as int]@);
        let pt = match pke_dec(&old_kp.sk, &aad, &resps[d].ct_res) {
            Ok(pt) => pt,
            Err(_) => {
                assert(update_opened(sk, s, d as int) is None);
                assert(s[d as int].server_id == resps@[d as int].server_id);
                return None;
            },
        };
        assert(update_opened(sk, s, d as int) == Some(pt@));
        let sigma_bytes = bytes::piece::<48>(&pt, 64);
        match check_value(&pk_ids, pk_shares, resps[d].server_id, &bpw_new, &sigma_bytes) {
            Some(p) => {
                chs.push(bytes::piece::<32>(&pt, 0));
                eks.push(bytes::piece::<32>(&pt, 32));
                news.push(p);
            },
            None => {
                assert(!value_checks(
                    pks,
                    s[d as int].server_id,
                    req.bpw_new@,
                    pt@.subrange(64, 112),
                ));
                proof {
                    assert forall|h_old: Seq<u8>, h_new: Seq<u8>, c: Seq<int>| !#[trigger]
                        honest_update(*st, *req, s, pks, h_old, h_new, c) by {
                        if honest_update(*st, *req, s, pks, h_old, h_new, c) {
                            let a1 = at(c, s[d as int].server_id as int);
                            assert(sigma_bytes@ == g1_mul(req.bpw_new@, a1));
                        }
                    }
                }
                return None;
            },
        }
        d = d + 1;
    }
    let mut new_partials: Vec<G1> = Vec::with_capacity(st.t_set.len());
    let mut n: usize = 0;
    while n < places.len()
        invariant
            n <= places@.len(),
            new_partials@.len() == n,
            forall|q: int|
                0 <= q < n ==> (#[trigger] new_partials@[q])@ == update_opened(
                    sk,
                    s,
                    places@[q] as int,
                )->Some_0.subrange(64, 112),
        decreases places@.len() - n,
    {
        let p = places[n];
        assert(place_of(responders, st.t_set@[n as int]) == Some(places@[n as int] as int));
        assert(s[p as int].server_id == s[p as int].server_id);
        new_partials.push(news[p]);
        n = n + 1;
    }
    proof {
        assert forall|q: int| 0 <= q < st.t_set@.len() implies encs(new_partials@)[q]
            == #[trigger] new_values(sk, s, st.t_set@)[q] by {
            assert(place_of(responders, st.t_set@[q]) == Some(places@[q] as int));
            assert(new_partials@[q]@ == new_partials@[q]@);
        }
        assert(encs(new_partials@) =~= new_values(sk, s, st.t_set@));
    }
    if st.r_new.is_zero() {
        return None;
    }
    let r_new_inv: Scalar = st.r_new.inverse();
    let new_acc: G1 = combine_g1_at_zero(st.t_set.as_slice(), new_partials.as_slice());
    let sigma_new: G1 = new_acc.scale(r_new_inv);
    let hpw_new = hash_g1_and_bytes_to_32(
        "augsso/hpw/v1".as_bytes(),
        &sigma_new,
        st.new_password.as_slice(),
    );
    let new_kp = pke_kg(&hpw_new);
    let ghost rpk = new_public(st.new_password@, st.r_new@, st.t_set@, sk, s);
    assert(new_kp.pk@ == rpk);
    proof {
        assert forall|h_old: Seq<u8>, h_new: Seq<u8>, c: Seq<int>| #[trigger]
            honest_update(*st, *req, s, pks, h_old, h_new, c) implies sigma_new@ == g1_mul(
            h_new,
            at(c, 0),
        ) by {
            let values = Seq::new(
                s.len(),
                |i: int| update_opened(sk, s, i)->Some_0.subrange(64, 112),
            );
            assert forall|i: int| 0 <= i < responders.len() implies #[trigger] values[i] == g1_mul(
                req.bpw_new@,
                at(c, responders[i] as int),
            ) by {
                assert(s[i].sigma_old_i == g1_mul(req.bpw_old@, at(c, s[i].server_id as int)));
            }
            assert forall|q: int| 0 <= q < st.t_set@.len() implies place_of(
                responders,
                #[trigger] st.t_set@[q],
            ) is Some && encs(new_partials@)[q] == values[place_of(
                responders,
                st.t_set@[q],
            )->Some_0] by {
                lemma_place_of(responders, st.t_set@[q]);
                assert(new_values(sk, s, st.t_set@)[q] == encs(new_partials@)[q]);
            }
            lemma_values_combine(
                responders,
                values,
                st.t_set@,
                encs(new_partials@),
                req.bpw_new@,
                c,
            );
            assert(new_acc@ == G1::mul_of(req.bpw_new@, at(c, 0)));
            lemma_inverse_cancels(st.r_new@, r_new_inv@, at(c, 0), order());
            assert(g1_mul(req.bpw_new@, at(c, 0)) == g1_mul(
                h_new,
                (st.r_new@ * at(c, 0)) % order(),
            ));
            assert(new_acc.enc() == G1::mul_of(h_new, (st.r_new@ * at(c, 0)) % order()));
        }
    }
    if let Some(ns) = ctch_nonces {
        if ns.len() != st.nsp {
            return None;
        }
    }
    let ghost r0 = rng@;
    let mut ct_ch: Vec<(u32, CtBlob<UPDATE_CTCH_PT_LEN>)> = Vec::with_capacity(st.nsp);
    let mut j: usize = 0;
    while j < resps.len()
        invariant
            j <= resps@.len(),
            ct_ch@.len() == j,
            rng@ == (if ctch_nonces is None {
                after_nonces(r0, j as nat)
            } else {
                r0
            }),
            forall|q: int|
                0 <= q < j ==> {
                    let pt = update_opened(sk, s, q)->Some_0;
                    let nonce = match ctch_nonces {
                        Some(ns) => ns@[q]@,
                        None => after_nonces(r0, q as nat).bytes(24),
                    };
                    &&& (#[trigger] ct_ch@[q]).0 == resps@[q].server_id
                    &&& ct_ch@[q].1@ == sealed(
                        pt.subrange(32, 64),
                        no_aad(),
                        pt.subrange(0, 32) + rpk,
                        nonce,
                    )
                    &&& opened(pt.subrange(32, 64), no_aad(), ct_ch@[q].1@) == Some(
                        pt.subrange(0, 32) + rpk,
                    )
                },
        decreases resps@.len() - j,
    {
        let both = cat2(&chs[j], &new_kp.pk);
        let pt = bytes::to_array::<UPDATE_CTCH_PT_LEN>(both.as_slice());
        assert(s[j as int] == resps@[j as int]@);
        let blob = match ctch_nonces {
            Some(ns) => aead::xchacha_encrypt_detached_with_nonce(&eks[j], &aad, &pt, &ns[j]),
            None => aead::xchacha_encrypt_detached(&eks[j], &aad, &pt, rng),
        };
        ct_ch.push((resps[j].server_id, blob));
        j = j + 1;
    }
    Some(PasswordUpdateClientPhase1 { ct_ch })
}

/// A server accepts the returned challenge of its session.
pub open spec fn update_challenge_accepted(
    srv: ServerState,
    sess: PasswordUpdateServerSession,
    ct: Blob,
) -> bool {
    &&& srv.id == sess.server_id
    &&& srv.records.dom().contains(sess.client_id.0@)
    &&& opened(sess.ek@, no_aad(), ct) matches Some(pt) && pt.subrange(0, 32) == sess.ch@
    &&& g1_valid(sess.bpw_new@)
}

/// The second response of a server: it comes exactly where the client returned the
/// challenge.
pub fn password_update_respond2(
    srv: &AugSsoServer,
    sess: &PasswordUpdateServerSession,
    ct_ch: &CtBlob<UPDATE_CTCH_PT_LEN>,
) -> (r: Option<PasswordUpdateResponse2>)
    ensures
        r is Some <==> update_challenge_accepted(srv@, *sess, ct_ch@),
        r matches Some(resp) ==> {
            let pt = opened(sess.ek@, no_aad(), ct_ch@)->Some_0;
            &&& resp.server_id == srv@.id
            &&& resp.sigma_phi_i@ == g1_mul(sess.bpw_new@, srv@.phi_i)
            &&& resp.new_rpk@ == pt.subrange(32, 64)
            &&& g1_valid(resp.sigma_phi_i@)
        },
{
    if srv.id != sess.server_id || !srv.has_record(sess.client_id) {
        return None;
    }
    let aad: [u8; 0] = [];
    assert(aad@ =~= no_aad());
    let pt = match aead::xchacha_decrypt_detached(&sess.ek, &aad, ct_ch) {
        Ok(pt) => pt,
        Err(_) => {
            return None;
        },
    };
    let ch = bytes::piece::<32>(&pt, 0);
    if !bytes::same_bytes(&ch, &sess.ch) {
        return None;
    }
    let new_rpk = bytes::piece::<32>(&pt, 32);
    let bpw_new: G1 = match g1_from_bytes(&sess.bpw_new) {
        Some(p) => p,
        None => {
            return None;
        },
    };
    let sigma: G1 = bpw_new.scale(srv.phi_i);
    let sigma_phi_i = g1_to_bytes(&sigma);
    Some(PasswordUpdateResponse2 { server_id: srv.id, sigma_phi_i, new_rpk })
}

/// The servers of a list of second responses.
pub open spec fn update_responders2(s: Seq<PasswordUpdateResponse2>) -> Seq<u32> {
    Seq::new(s.len(), |i: int| s[i].server_id)
}

/// The hardening values of the servers in `t_set`.
pub open spec fn phi_values(s: Seq<PasswordUpdateResponse2>, t_set: Seq<u32>) -> Seq<Seq<u8>> {
    Seq::new(
        t_set.len(),
        |k: int| s[place_of(update_responders2(s), t_set[k])->Some_0].sigma_phi_i@,
    )
}

/// Each server in `t_set` responded with a value that checks, and the blinding factor can
/// be removed.
pub open spec fn update_finalizes(
    st: PasswordUpdateClientState,
    req: PasswordUpdateRequest,
    s: Seq<PasswordUpdateResponse2>,
    pks: Seq<(u32, Seq<u8>)>,
) -> bool {
    &&& g1_valid(req.bpw_new@)
    &&& forall|k: int|
        0 <= k < st.t_set@.len() ==> place_of(
            update_responders2(s),
            #[trigger] st.t_set@[k],
        ) is Some && value_checks(pks, st.t_set@[k], req.bpw_new@, phi_values(s, st.t_set@)[k])
    &&& st.r_new@ != 0
}

/// The hash that hardens a password against guessing by popularity.
pub open spec fn popularity_hardened(sigma: Seq<u8>, password: Seq<u8>) -> Seq<u8> {
    blake3_hash("augsso/popular-password-harden/v1".spec_bytes() + sigma + password)
}

/// Checks the second responses and derives the hardened hash of the new password. Values
/// of servers that share one key, to a request that blinds `h`, give the hash of its
/// multiple by that key.
#[verifier::rlimit(40)]
#[verifier::loop_isolation(false)]
pub fn password_update_client_finalize(
    st: &PasswordUpdateClientState,
    req: &PasswordUpdateRequest,
    resps: &[PasswordUpdateResponse2],
    phi_pub_shares: &[(u32, G2)],
) -> (r: Option<[u8; 32]>)
    ensures
        r is Some <==> update_finalizes(*st, *req, resps@, keyed(phi_pub_shares@)),
        r matches Some(h) ==> h@ == popularity_hardened(
            g1_mul(
                combined_at_zero::<G1>(st.t_set@, phi_values(resps@, st.t_set@)),
                inverse_of(st.r_new@, order()),
            ),
            st.new_password@,
        ),
        forall|h: Seq<u8>, c: Seq<int>|
            st.r_new@ != 0 && g1_valid(req.bpw_new@) && #[trigger] honest_phi(
                *st,
                *req,
                resps@,
                keyed(phi_pub_shares@),
                h,
                c,
            ) ==> (r matches Some(out) && out@ == popularity_hardened(
                g1_mul(h, at(c, 0)),
                st.new_password@,
            )),
{
    let ghost s = resps@;
    let ghost pks = keyed(phi_pub_shares@);
    let ghost responders = update_responders2(s);
    let bpw_new: G1 = match g1_from_bytes(&req.bpw_new) {
        Some(p) => p,
        None => {
            return None;
        },
    };
    let pk_ids = ids_of_keys(phi_pub_shares);
    let mut ids: Vec<u32> = Vec::with_capacity(resps.len());
    let mut i: usize = 0;
    while i < resps.len()
        invariant
            i <= resps@.len(),
            ids@.len() == i,
            forall|k: int| 0 <= k < i ==> ids@[k] == resps@[k].server_id,
        decreases resps@.len() - i,
    {
        ids.push(resps[i].server_id);
        i = i + 1;
    }
    assert(ids@ =~= responders);
    let mut partials: Vec<G1> = Vec::with_capacity(st.t_set.len());
    let mut k: usize = 0;
    while k < st.t_set.len()
        invariant
            k <= st.t_set@.len(),
            partials@.len() == k,
            forall|q: int|
                0 <= q < k ==> place_of(responders, #[trigger] st.t_set@[q]) is Some
                    && value_checks(
                    pks,
                    st.t_set@[q],
                    req.bpw_new@,
                    phi_values(s, st.t_set@)[q],
                ) && partials@[q]@ == phi_values(s, st.t_set@)[q],
        decreases st.t_set@.len() - k,
    {
        let sid = st.t_set[k];
        let p = match find_id(ids.as_slice(), sid) {
            Some(p) => p,
            None => {
                assert(place_of(responders, st.t_set@[k as int]) is None);
                return None;
            },
        };
        assert(phi_values(s, st.t_set@)[k as int] == s[p as int].sigma_phi_i@);
        match check_value(&pk_ids, phi_pub_shares, sid, &bpw_new, &resps[p].sigma_phi_i) {
            Some(v) => {
                partials.push(v);
            },
            None => {
                assert(!value_checks(
                    pks,
                    st.t_set@[k as int],
                    req.bpw_new@,
                    phi_values(s, st.t_set@)[k as int],
                ));
                proof {
                    assert forall|h: Seq<u8>, c: Seq<int>| !#[trigger]
                        honest_phi(*st, *req, s, pks, h, c) by {
                        if honest_phi(*st, *req, s, pks, h, c) {
                            let a = at(c, st.t_set@[k as int] as int);
                            assert(phi_values(s, st.t_set@)[k as int] == g1_mul(req.bpw_new@, a));
                        }
                    }
                }
                return None;
            },
        }
        k = k + 1;
    }
    assert(encs(partials@) =~= phi_values(s, st.t_set@));
    if st.r_new.is_zero() {
        return None;
    }
    let r_new_inv: Scalar = st.r_new.inverse();
    let acc: G1 = combine_g1_at_zero(st.t_set.as_slice(), partials.as_slice());
    let sigma_phi: G1 = acc.scale(r_new_inv);
    proof {
        assert forall|h: Seq<u8>, c: Seq<int>| #[trigger]
            honest_phi(*st, *req, s, pks, h, c) implies sigma_phi@ == g1_mul(h, at(c, 0)) by {
            let ys = values_at(c, st.t_set@, order());
            assert forall|q: int| 0 <= q < st.t_set@.len() implies 0 <= ys[q] < order()
                && #[trigger] encs(partials@)[q] == G1::mul_of(req.bpw_new@, ys[q] as nat) by {
                assert(phi_values(s, st.t_set@)[q] == g1_mul(
                    req.bpw_new@,
                    at(c, st.t_set@[q] as int),
                ));
            }
            assert(on_polynomial::<G1>(encs(partials@), req.bpw_new@, st.t_set@, c));
            assert(acc@ == G1::mul_of(req.bpw_new@, at(c, 0)));
            lemma_inverse_cancels(st.r_new@, r_new_inv@, at(c, 0), order());
            assert(g1_mul(req.bpw_new@, at(c, 0)) == g1_mul(h, (st.r_new@ * at(c, 0)) % order()));
            assert(acc.enc() == G1::mul_of(h, (st.r_new@ * at(c, 0)) % order()));
        }
    }
    Some(
        hash_g1_and_bytes_to_32(
            "augsso/popular-password-harden/v1".as_bytes(),
            &sigma_phi,
            st.new_password.as_slice(),
        ),
    )
}

/// The second responses are those of servers that share a key on the polynomial `c`, to
/// a request that blinds `h`.
pub open spec fn honest_phi(
    st: PasswordUpdateClientState,
    req: PasswordUpdateRequest,
    s: Seq<PasswordUpdateResponse2>,
    pks: Seq<(u32, Seq<u8>)>,
    h: Seq<u8>,
    c: Seq<int>,
) -> bool {
    &&& blinds(req.bpw_new@, h, st.r_new@)
    &&& distinct(st.t_set@)
    &&& c.len() <= st.t_set@.len()
    &&& forall|k: int|
        0 <= k < st.t_set@.len() ==> {
            &&& place_of(update_responders2(s), #[trigger] st.t_set@[k]) is Some
            &&& g1_valid(phi_values(s, st.t_set@)[k])
            &&& phi_values(s, st.t_set@)[k] == g1_mul(req.bpw_new@, at(c, st.t_set@[k] as int))
            &&& place_of(key_ids(pks), st.t_set@[k]) is Some
            &&& key_of(pks, st.t_set@[k]) == g2_of(at(c, st.t_set@[k] as int))
        }
}

/// Puts the new public key into a server's record of the client. Nothing else changes.
pub fn install_new_key(srv: &mut AugSsoServer, client: ClientId, resp: &PasswordUpdateResponse2) -> (r:
    bool)
    requires
        old(srv)@.id == resp.server_id,
    ensures
        r == old(srv)@.records.dom().contains(client.0@),
        final(srv)@ == if r {
            ServerState {
                records: old(srv)@.records.insert(
                    client.0@,
                    RecordState {
                        sk_i: old(srv)@.records[client.0@].sk_i,
                        rpk: resp.new_rpk@,
                        pk_i: g2_of(old(srv)@.records[client.0@].sk_i),
                    },
                ),
                ..old(srv)@
            }
        } else {
            old(srv)@
        },
{
    let sk_i = match srv.get_record(client) {
        Some(rec) => rec.sk_i,
        None => {
            return false;
        },
    };
    let msg = RegistrationMsg { server_id: resp.server_id, sk_i, rpk: resp.new_rpk };
    srv.store(client, &msg);
    true
}

/// A server with the public key in its record of a client replaced.
pub open spec fn with_client_key(srv: ServerState, client: Seq<u8>, rpk: Seq<u8>) -> ServerState {
    ServerState {
        records: srv.records.insert(
            client,
            RecordState {
                sk_i: srv.records[client].sk_i,
                rpk,
                pk_i: g2_of(srv.records[client].sk_i),
            },
        ),
        ..srv
    }
}

/// Asks all servers for their first responses.
pub fn update_first_round(
    fx: &Fixture,
    req: &PasswordUpdateRequest,
    it: &PasswordUpdateIterData,
) -> (r: Option<(Vec<PasswordUpdateResponse1>, Vec<PasswordUpdateServerSession>)>)
    requires
        fx.n <= fx.servers@.len(),
        fx.n <= it.respond1_rand@.len(),
    ensures
        r is Some <==> forall|j: int|
            0 <= j < fx.n ==> answers_update((#[trigger] fx.servers@[j])@, *req),
        r matches Some((resps, sess)) ==> {
            &&& resps@.len() == fx.n
            &&& sess@.len() == fx.n
            &&& forall|j: int|
                0 <= j < fx.n ==> {
                    let srv = fx.servers@[j]@;
                    &&& (#[trigger] resps@[j])@ == update_response1(
                        srv,
                        *req,
                        it.respond1_rand@[j],
                    )
                    &&& g1_valid(resps@[j]@.sigma_old_i)
                    &&& g1_valid(g1_mul(req.bpw_new@, srv.records[req.client_id.0@].sk_i))
                    &&& update_plain(srv, *req, it.respond1_rand@[j]).len() == 112
                    &&& forall|sk: Seq<u8>|
                        sk.len() == 32 && srv.records[req.client_id.0@].rpk
                            == #[trigger] x25519_public(sk) ==> pke_opened(
                            sk,
                            no_aad(),
                            resps@[j]@.ct_res,
                        ) == Some(update_plain(srv, *req, it.respond1_rand@[j]))
                }
            &&& forall|j: int|
                0 <= j < fx.n ==> (#[trigger] sess@[j]) == (PasswordUpdateServerSession {
                    server_id: fx.servers@[j]@.id,
                    client_id: req.client_id,
                    bpw_new: req.bpw_new,
                    ek: it.respond1_rand@[j].ek,
                    ch: it.respond1_rand@[j].ch,
                })
        },
{
    let mut resps: Vec<PasswordUpdateResponse1> = Vec::with_capacity(fx.n);
    let mut sess: Vec<PasswordUpdateServerSession> = Vec::with_capacity(fx.n);
    let mut j: usize = 0;
    while j < fx.n
        invariant
            j <= fx.n,
            fx.n <= fx.servers@.len(),
            fx.n <= it.respond1_rand@.len(),
            resps@.len() == j,
            sess@.len() == j,
            forall|k: int| 0 <= k < j ==> answers_update((#[trigger] fx.servers@[k])@, *req),
            forall|k: int|
                0 <= k < j ==> {
                    let srv = fx.servers@[k]@;
                    &&& (#[trigger] resps@[k])@ == update_response1(
                        srv,
                        *req,
                        it.respond1_rand@[k],
                    )
                    &&& g1_valid(resps@[k]@.sigma_old_i)
                    &&& g1_valid(g1_mul(req.bpw_new@, srv.records[req.client_id.0@].sk_i))
                    &&& update_plain(srv, *req, it.respond1_rand@[k]).len() == 112
                    &&& forall|sk: Seq<u8>|
                        sk.len() == 32 && srv.records[req.client_id.0@].rpk
                            == #[trigger] x25519_public(sk) ==> pke_opened(
                            sk,
                            no_aad(),
                            resps@[k]@.ct_res,
                        ) == Some(update_plain(srv, *req, it.respond1_rand@[k]))
                },
            forall|k: int|
                0 <= k < j ==> (#[trigger] sess@[k]) == (PasswordUpdateServerSession {
                    server_id: fx.servers@[k]@.id,
                    client_id: req.client_id,
                    bpw_new: req.bpw_new,
                    ek: it.respond1_rand@[k].ek,
                    ch: it.respond1_rand@[k].ch,
                }),
        decreases fx.n - j,
    {
        match password_update_respond1_with_rand(&fx.servers[j], req, &it.respond1_rand[j]) {
            Some((resp, s)) => {
                resps.push(resp);
                sess.push(s);
            },
            None => {
                assert(!answers_update(fx.servers@[j as int]@, *req));
                return None;
            },
        }
        j = j + 1;
    }
    Some((resps, sess))
}

/// Identifiers of encrypted challenges.
pub open spec fn update_challenge_ids(s: Seq<(u32, CtBlob<UPDATE_CTCH_PT_LEN>)>) -> Seq<u32> {
    Seq::new(s.len(), |i: int| s[i].0)
}

/// The server at place `j` finds its challenge among `s` and accepts it.
pub open spec fn update_accepted_at(
    srv: ServerState,
    sess: PasswordUpdateServerSession,
    s: Seq<(u32, CtBlob<UPDATE_CTCH_PT_LEN>)>,
    j: int,
) -> bool {
    place_of(update_challenge_ids(s), (j + 1) as u32) matches Some(p) && update_challenge_accepted(
        srv,
        sess,
        s[p].1@,
    )
}

/// How many of the servers from place `k` on accept their challenges before one does not,
/// counted from the first.
pub open spec fn update_accepting(
    servers: Seq<AugSsoServer>,
    sess: Seq<PasswordUpdateServerSession>,
    s: Seq<(u32, CtBlob<UPDATE_CTCH_PT_LEN>)>,
    k: nat,
) -> nat
    decreases sess.len() - k,
{
    if k < sess.len() && update_accepted_at(servers[k as int]@, sess[k as int], s, k as int) {
        update_accepting(servers, sess, s, k + 1)
    } else {
        k
    }
}

/// The new public key that the server at place `j` is sent.
pub open spec fn sent_key(
    sess: PasswordUpdateServerSession,
    s: Seq<(u32, CtBlob<UPDATE_CTCH_PT_LEN>)>,
    j: int,
) -> Seq<u8> {
    let p = place_of(update_challenge_ids(s), (j + 1) as u32)->Some_0;
    opened(sess.ek@, no_aad(), s[p].1@)->Some_0.subrange(32, 64)
}

/// Hands all servers their challenges and installs the new public key at each that
/// accepts, up to the first that does not.
#[verifier::rlimit(40)]
pub fn update_second_round(
    servers: &mut Vec<AugSsoServer>,
    client: ClientId,
    sess: &Vec<PasswordUpdateServerSession>,
    ct_ch: &Vec<(u32, CtBlob<UPDATE_CTCH_PT_LEN>)>,
) -> (r: Option<Vec<PasswordUpdateResponse2>>)
    requires
        old(servers)@.len() == sess@.len(),
        sess@.len() <= u32::MAX,
        forall|j: int| 0 <= j < sess@.len() ==> (#[trigger] sess@[j]).client_id == client,
    ensures
        final(servers)@.len() == old(servers)@.len(),
        forall|j: int|
            0 <= j < old(servers)@.len() ==> (#[trigger] final(servers)@[j])@ == if j
                < update_accepting(old(servers)@, sess@, ct_ch@, 0) {
                with_client_key(old(servers)@[j]@, client.0@, sent_key(sess@[j], ct_ch@, j))
            } else {
                old(servers)@[j]@
            },
        r is Some <==> forall|j: int|
            0 <= j < sess@.len() ==> update_accepted_at(
                old(servers)@[j]@,
                #[trigger] sess@[j],
                ct_ch@,
                j,
            ),
        r matches Some(resps) ==> {
            &&& resps@.len() == sess@.len()
            &&& forall|j: int|
                0 <= j < sess@.len() ==> {
                    &&& (#[trigger] resps@[j]).server_id == old(servers)@[j]@.id
                    &&& resps@[j].sigma_phi_i@ == g1_mul(
                        sess@[j].bpw_new@,
                        old(servers)@[j]@.phi_i,
                    )
                    &&& g1_valid(resps@[j].sigma_phi_i@)
                    &&& resps@[j].new_rpk@ == sent_key(sess@[j], ct_ch@, j)
                    &&& final(servers)@[j]@ == with_client_key(
                        old(servers)@[j]@,
                        client.0@,
                        sent_key(sess@[j], ct_ch@, j),
                    )
                }
        },
{
    let ghost before = servers@;
    let mut ids: Vec<u32> = Vec::with_capacity(ct_ch.len());
    let mut i: usize = 0;
    while i < ct_ch.len()
        invariant
            i <= ct_ch@.len(),
            ids@.len() == i,
            forall|k: int| 0 <= k < i ==> ids@[k] == ct_ch@[k].0,
        decreases ct_ch@.len() - i,
    {
        ids.push(ct_ch[i].0);
        i = i + 1;
    }
    assert(ids@ =~= update_challenge_ids(ct_ch@));
    let mut resps: Vec<PasswordUpdateResponse2> = Vec::with_capacity(sess.len());
    let mut j: usize = 0;
    while j < sess.len()
        invariant
            j <= sess@.len(),
            servers@.len() == sess@.len(),
            before.len() == sess@.len(),
            before == old(servers)@,
            sess@.len() <= u32::MAX,
            ids@ == update_challenge_ids(ct_ch@),
            ids@.len() == ct_ch@.len(),
            forall|q: int| 0 <= q < sess@.len() ==> (#[trigger] sess@[q]).client_id == client,
            resps@.len() == j,
            update_accepting(before, sess@, ct_ch@, 0) == update_accepting(
                before,
                sess@,
                ct_ch@,
                j as nat,
            ),
            forall|q: int| j <= q < before.len() ==> (#[trigger] servers@[q]) == before[q],
            forall|q: int|
                0 <= q < j ==> update_accepted_at(before[q]@, #[trigger] sess@[q], ct_ch@, q),
            forall|q: int|
                0 <= q < j ==> {
                    &&& (#[trigger] resps@[q]).server_id == before[q]@.id
                    &&& resps@[q].sigma_phi_i@ == g1_mul(sess@[q].bpw_new@, before[q]@.phi_i)
                    &&& g1_valid(resps@[q].sigma_phi_i@)
                    &&& resps@[q].new_rpk@ == sent_key(sess@[q], ct_ch@, q)
                    &&& servers@[q]@ == with_client_key(
                        before[q]@,
                        client.0@,
                        sent_key(sess@[q], ct_ch@, q),
                    )
                },
        decreases sess@.len() - j,
    {
        proof {
            assert forall|q: int| 0 <= q < j implies (#[trigger] servers@[q])@ == with_client_key(
                before[q]@,
                client.0@,
                sent_key(sess@[q], ct_ch@, q),
            ) by {
                assert(resps@[q].server_id == before[q]@.id);
            }
            assert(servers@[j as int] == before[j as int]);
        }
        let at_ch = match find_id(ids.as_slice(), (j + 1) as u32) {
            Some(p) => p,
            None => {
                assert(!update_accepted_at(
                    before[j as int]@,
                    sess@[j as int],
                    ct_ch@,
                    j as int,
                ));
                return None;
            },
        };
        let resp = match password_update_respond2(&servers[j], &sess[j], &ct_ch[at_ch].1) {
            Some(resp) => resp,
            None => {
                assert(!update_accepted_at(
                    before[j as int]@,
                    sess@[j as int],
                    ct_ch@,
                    j as int,
                ));
                return None;
            },
        };
        let ghost mid = servers@;
        assert(sess@[j as int].client_id == client);
        let _installed = install_new_key(&mut servers[j], client, &resp);
        resps.push(resp);
        proof {
            assert forall|q: int| 0 <= q < before.len() && q != j implies servers@[q] == mid[q] by {
            }
        }
        j = j + 1;
    }
    proof {
        assert forall|q: int| 0 <= q < before.len() implies (#[trigger] servers@[q])@
            == with_client_key(before[q]@, client.0@, sent_key(sess@[q], ct_ch@, q)) by {
            assert(resps@[q].server_id == before[q]@.id);
        }
    }
    Some(resps)
}

/// In a sound fixture the first responses to a password update are honest.
#[verifier::rlimit(40)]
proof fn lemma_honest_update(
    fx: Fixture,
    gc: Seq<int>,
    pc: Seq<int>,
    cc: Seq<int>,
    st: PasswordUpdateClientState,
    req: PasswordUpdateRequest,
    s: Seq<UpdateResponse1>,
    rands: Seq<Respond1Rand>,
)
    requires
        fx.sound(gc, pc, cc),
        st.old_password@ == fx.password@,
        st.t_set@ == fx.t_set@,
        st.nsp == fx.n,
        st.r_old@ != 0,
        st.r_new@ != 0,
        req.client_id == fx.c,
        g1_valid(req.bpw_old@),
        g1_valid(req.bpw_new@),
        blinds(req.bpw_old@, password_g1(fx.password@), st.r_old@),
        blinds(req.bpw_new@, password_g1(st.new_password@), st.r_new@),
        s.len() == fx.n,
        forall|j: int|
            0 <= j < fx.n ==> {
                let srv = fx.servers@[j]@;
                &&& (#[trigger] s[j]) == update_response1(srv, req, rands[j])
                &&& g1_valid(s[j].sigma_old_i)
                &&& g1_valid(g1_mul(req.bpw_new@, srv.records[req.client_id.0@].sk_i))
                &&& update_plain(srv, req, rands[j]).len() == 112
                &&& forall|sk: Seq<u8>|
                    sk.len() == 32 && srv.records[req.client_id.0@].rpk == #[trigger] x25519_public(
                        sk,
                    ) ==> pke_opened(sk, no_aad(), s[j].ct_res) == Some(
                        update_plain(srv, req, rands[j]),
                    )
            },
    ensures
        honest_update(
            st,
            req,
            s,
            keyed(fx.pk_shares@),
            password_g1(fx.password@),
            password_g1(st.new_password@),
            cc,
        ),
        update_responders(s) == first_ids(fx.n as nat),
        forall|j: int|
            0 <= j < fx.n ==> (#[trigger] s[j]).server_id == (j + 1) as u32 && update_opened(
                client_secret(g1_mul(password_g1(fx.password@), at(cc, 0)), st.old_password@),
                s,
                j,
            ) == Some(update_plain(fx.servers@[j]@, req, rands[j])),
{
    let n = fx.n as nat;
    let pks = keyed(fx.pk_shares@);
    let secret = client_secret(g1_mul(password_g1(fx.password@), at(cc, 0)), st.old_password@);
    lemma_first_ids(n);
    lemma_first_ids(fx.t as nat);
    assert forall|j: int| 0 <= j < n implies #[trigger] update_responders(s)[j] == first_ids(
        n,
    )[j] by {
        assert(s[j] == update_response1(fx.servers@[j]@, req, rands[j]));
        assert(fx.servers@[j]@.id == (j + 1) as u32);
    }
    assert(update_responders(s) =~= first_ids(n));
    assert forall|k: int| 0 <= k < st.t_set@.len() implies place_of(
        update_responders(s),
        #[trigger] st.t_set@[k],
    ) is Some by {
        assert(st.t_set@[k] == first_ids(n)[k]);
        assert(place_of(first_ids(n), first_ids(n)[k]) == Some(k));
    }
    assert forall|i: int| 0 <= i < s.len() implies {
        let a = at(cc, s[i].server_id as int);
        &&& (#[trigger] s[i]).sigma_old_i == g1_mul(req.bpw_old@, a)
        &&& g1_valid(s[i].sigma_old_i)
        &&& place_of(key_ids(pks), s[i].server_id) is Some
        &&& key_of(pks, s[i].server_id) == g2_of(a)
        &&& update_opened(secret, s, i) matches Some(pt) && pt.subrange(64, 112) == g1_mul(
            req.bpw_new@,
            a,
        ) && g1_valid(pt.subrange(64, 112))
        &&& s[i].server_id == (i + 1) as u32
        &&& update_opened(secret, s, i) == Some(update_plain(fx.servers@[i]@, req, rands[i]))
    } by {
        let srv = fx.servers@[i]@;
        assert(srv.id == (i + 1) as u32);
        assert(srv.records[fx.c.0@].sk_i == at(cc, i + 1));
        assert(srv.records[fx.c.0@].rpk == x25519_public(secret));
        lemma_public_share(cc, n, i);
        let pt = update_plain(srv, req, rands[i]);
        assert(pt.subrange(64, 112) =~= g1_mul(req.bpw_new@, srv.records[fx.c.0@].sk_i));
    }
}

/// The client's state and request when a password update is started.
pub open spec fn update_started(
    fx: Fixture,
    new_password: Seq<u8>,
    it: PasswordUpdateIterData,
    st: PasswordUpdateClientState,
    req: PasswordUpdateRequest,
) -> bool {
    &&& st.old_password@ == fx.password@
    &&& st.new_password@ == new_password
    &&& st.r_old@ == it.r_old@
    &&& st.r_new@ == it.r_new@
    &&& st.t_set@ == fx.t_set@
    &&& st.nsp == fx.n
    &&& req.client_id == fx.c
    &&& req.bpw_old@ == g1_mul(password_g1(fx.password@), it.r_old@)
    &&& req.bpw_new@ == g1_mul(password_g1(new_password), it.r_new@)
}

/// The first responses of all servers.
pub open spec fn update_answers(
    fx: Fixture,
    it: PasswordUpdateIterData,
    req: PasswordUpdateRequest,
) -> Seq<UpdateResponse1> {
    Seq::new(
        fx.n as nat,
        |j: int| update_response1(fx.servers@[j]@, req, it.respond1_rand@[j]),
    )
}

/// All servers answer, and the client accepts their answers.
pub open spec fn update_first_accepted(
    fx: Fixture,
    it: PasswordUpdateIterData,
    st: PasswordUpdateClientState,
    req: PasswordUpdateRequest,
) -> bool {
    &&& forall|j: int| 0 <= j < fx.n ==> answers_update((#[trigger] fx.servers@[j])@, req)
    &&& update_accepts(
        st,
        req,
        update_answers(fx, it, req),
        keyed(fx.pk_shares@),
        Some(it.ctch_nonces@.len()),
    )
}

/// What the client returns to the server whose answer stands at place `i`: its challenge and
/// the new public key.
pub open spec fn update_returned(
    fx: Fixture,
    it: PasswordUpdateIterData,
    st: PasswordUpdateClientState,
    req: PasswordUpdateRequest,
    i: int,
) -> Blob {
    let s = update_answers(fx, it, req);
    let sk = old_secret(st.old_password@, st.r_old@, st.t_set@, s);
    let pt = update_opened(sk, s, i)->Some_0;
    sealed(
        pt.subrange(32, 64),
        no_aad(),
        pt.subrange(0, 32) + new_public(st.new_password@, st.r_new@, st.t_set@, sk, s),
        it.ctch_nonces@[i]@,
    )
}

/// The session of the server at place `j`.
pub open spec fn update_session_of(
    fx: Fixture,
    it: PasswordUpdateIterData,
    req: PasswordUpdateRequest,
    j: int,
) -> PasswordUpdateServerSession {
    PasswordUpdateServerSession {
        server_id: fx.servers@[j]@.id,
        client_id: req.client_id,
        bpw_new: req.bpw_new,
        ek: it.respond1_rand@[j].ek,
        ch: it.respond1_rand@[j].ch,
    }
}

/// What the server at place `j` gets back, where it gets anything.
pub open spec fn update_got(
    fx: Fixture,
    it: PasswordUpdateIterData,
    st: PasswordUpdateClientState,
    req: PasswordUpdateRequest,
    j: int,
) -> Option<Blob> {
    match place_of(update_responders(update_answers(fx, it, req)), (j + 1) as u32) {
        Some(p) => Some(update_returned(fx, it, st, req, p)),
        None => None,
    }
}

/// The server at place `j` gets its challenge back.
pub open spec fn update_gets(
    fx: Fixture,
    it: PasswordUpdateIterData,
    st: PasswordUpdateClientState,
    req: PasswordUpdateRequest,
    j: int,
) -> bool {
    update_got(fx, it, st, req, j) matches Some(b) && update_challenge_accepted(
        fx.servers@[j]@,
        update_session_of(fx, it, req, j),
        b,
    )
}

/// How many servers from place `k` on get their challenges back before one does not,
/// counted from the first.
pub open spec fn update_reached(
    fx: Fixture,
    it: PasswordUpdateIterData,
    st: PasswordUpdateClientState,
    req: PasswordUpdateRequest,
    k: nat,
) -> nat
    decreases fx.n - k,
{
    if k < fx.n && update_gets(fx, it, st, req, k as int) {
        update_reached(fx, it, st, req, k + 1)
    } else {
        k
    }
}

/// The server at place `j` after a run: it has the new key where the client accepted the
/// answers and the change reached it.
pub open spec fn server_after_update(
    fx: Fixture,
    it: PasswordUpdateIterData,
    st: PasswordUpdateClientState,
    req: PasswordUpdateRequest,
    j: int,
) -> ServerState {
    if update_first_accepted(fx, it, st, req) && j < update_reached(fx, it, st, req, 0) {
        with_client_key(
            fx.servers@[j]@,
            fx.c.0@,
            opened(
                it.respond1_rand@[j].ek@,
                no_aad(),
                update_got(fx, it, st, req, j)->Some_0,
            )->Some_0.subrange(32, 64),
        )
    } else {
        fx.servers@[j]@
    }
}

/// The servers' keys for the hardening of passwords.
pub open spec fn hardening_keys(fx: Fixture) -> Seq<(u32, Seq<u8>)> {
    Seq::new(fx.servers@.len(), |k: int| (fx.servers@[k]@.id, fx.servers@[k]@.phi_pub_i))
}

/// The second responses of all servers hold their hardening values.
pub open spec fn hardens(
    fx: Fixture,
    req: PasswordUpdateRequest,
    s: Seq<PasswordUpdateResponse2>,
) -> bool {
    &&& s.len() == fx.n
    &&& forall|j: int|
        0 <= j < s.len() ==> (#[trigger] s[j]).server_id == fx.servers@[j]@.id
            && s[j].sigma_phi_i@ == g1_mul(req.bpw_new@, fx.servers@[j]@.phi_i)
}

/// A run of a password update succeeds: the client accepts the answers, every server gets its
/// challenge back, and the client accepts the hardening values.
pub open spec fn update_succeeds(
    fx: Fixture,
    it: PasswordUpdateIterData,
    st: PasswordUpdateClientState,
    req: PasswordUpdateRequest,
    s: Seq<PasswordUpdateResponse2>,
) -> bool {
    &&& update_first_accepted(fx, it, st, req)
    &&& update_reached(fx, it, st, req, 0) == fx.n
    &&& update_finalizes(st, req, s, hardening_keys(fx))
}

/// The hash that a successful run returns.
pub open spec fn hardened_by(
    st: PasswordUpdateClientState,
    s: Seq<PasswordUpdateResponse2>,
) -> Seq<u8> {
    popularity_hardened(
        g1_mul(
            combined_at_zero::<G1>(st.t_set@, phi_values(s, st.t_set@)),
            inverse_of(st.r_new@, order()),
        ),
        st.new_password@,
    )
}

/// A password update with the new password returns the hash `h`.
pub open spec fn update_yields(
    fx: Fixture,
    new_password: Seq<u8>,
    it: PasswordUpdateIterData,
    h: Seq<u8>,
) -> bool {
    exists|
        st: PasswordUpdateClientState,
        req: PasswordUpdateRequest,
        s: Seq<PasswordUpdateResponse2>,
    | #[trigger]
        update_started(fx, new_password, it, st, req) && #[trigger] hardens(fx, req, s)
            && update_succeeds(fx, it, st, req, s) && h == hardened_by(st, s)
}

/// The state and the request of a run are fixed by what it starts from, and so is its result.
proof fn lemma_one_run(
    fx: Fixture,
    new_password: Seq<u8>,
    it: PasswordUpdateIterData,
    a: (PasswordUpdateClientState, PasswordUpdateRequest),
    b: (PasswordUpdateClientState, PasswordUpdateRequest),
)
    requires
        update_started(fx, new_password, it, a.0, a.1),
        update_started(fx, new_password, it, b.0, b.1),
    ensures
        a.1 == b.1,
        update_first_accepted(fx, it, a.0, a.1) == update_first_accepted(fx, it, b.0, b.1),
        update_reached(fx, it, a.0, a.1, 0) == update_reached(fx, it, b.0, b.1, 0),
{
    assert(a.1.bpw_old =~= b.1.bpw_old);
    assert(a.1.bpw_new =~= b.1.bpw_new);
    lemma_same_reach(fx, it, a.0, b.0, a.1, 0);
}

proof fn lemma_same_reach(
    fx: Fixture,
    it: PasswordUpdateIterData,
    a: PasswordUpdateClientState,
    b: PasswordUpdateClientState,
    req: PasswordUpdateRequest,
    k: nat,
)
    requires
        a.old_password@ == b.old_password@,
        a.new_password@ == b.new_password@,
        a.r_old@ == b.r_old@,
        a.r_new@ == b.r_new@,
        a.t_set@ == b.t_set@,
    ensures
        update_reached(fx, it, a, req, k) == update_reached(fx, it, b, req, k),
    decreases fx.n - k,
{
    if k < fx.n {
        lemma_same_reach(fx, it, a, b, req, k + 1);
    }
}

proof fn lemma_same_hardening(
    fx: Fixture,
    req: PasswordUpdateRequest,
    a: Seq<PasswordUpdateResponse2>,
    b: Seq<PasswordUpdateResponse2>,
    st: PasswordUpdateClientState,
    su: PasswordUpdateClientState,
)
    requires
        hardens(fx, req, a),
        hardens(fx, req, b),
        st.t_set@ == su.t_set@,
        st.r_new@ == su.r_new@,
        update_finalizes(st, req, a, hardening_keys(fx)),
    ensures
        update_finalizes(su, req, b, hardening_keys(fx)),
{
    assert forall|j: int| 0 <= j < fx.n implies a[j].server_id == b[j].server_id
        && a[j].sigma_phi_i@ == b[j].sigma_phi_i@ by {
        assert(a[j].server_id == fx.servers@[j]@.id);
        assert(b[j].server_id == fx.servers@[j]@.id);
    }
    assert(update_responders2(a) =~= update_responders2(b));
    assert forall|k: int| 0 <= k < su.t_set@.len() implies place_of(
        update_responders2(b),
        #[trigger] su.t_set@[k],
    ) is Some && value_checks(
        hardening_keys(fx),
        su.t_set@[k],
        req.bpw_new@,
        phi_values(b, su.t_set@)[k],
    ) by {
        assert(place_of(update_responders2(a), st.t_set@[k]) is Some);
        lemma_place_of(update_responders2(a), st.t_set@[k]);
        assert(phi_values(a, st.t_set@)[k] == phi_values(b, su.t_set@)[k]);
    }
}

/// What a server is sent is what it gets.
proof fn lemma_got(
    fx: Fixture,
    it: PasswordUpdateIterData,
    st: PasswordUpdateClientState,
    req: PasswordUpdateRequest,
    sess: Seq<PasswordUpdateServerSession>,
    ct: Seq<(u32, CtBlob<UPDATE_CTCH_PT_LEN>)>,
    j: int,
)
    requires
        0 <= j < fx.n,
        ct.len() == fx.n,
        sess.len() == fx.n,
        update_challenge_ids(ct) == update_responders(update_answers(fx, it, req)),
        forall|i: int|
            0 <= i < fx.n ==> (#[trigger] ct[i]).1@ == update_returned(fx, it, st, req, i),
        forall|i: int| 0 <= i < fx.n ==> #[trigger] sess[i] == update_session_of(fx, it, req, i),
    ensures
        update_gets(fx, it, st, req, j) == update_accepted_at(fx.servers@[j]@, sess[j], ct, j),
        update_gets(fx, it, st, req, j) ==> sent_key(sess[j], ct, j) == opened(
            it.respond1_rand@[j].ek@,
            no_aad(),
            update_got(fx, it, st, req, j)->Some_0,
        )->Some_0.subrange(32, 64),
{
    let ids = update_challenge_ids(ct);
    lemma_place_of(ids, (j + 1) as u32);
    if place_of(ids, (j + 1) as u32) is Some {
        let p = place_of(ids, (j + 1) as u32)->Some_0;
        assert(ct[p].1@ == update_returned(fx, it, st, req, p));
    }
}

proof fn lemma_reach_is_accepting(
    fx: Fixture,
    it: PasswordUpdateIterData,
    st: PasswordUpdateClientState,
    req: PasswordUpdateRequest,
    sess: Seq<PasswordUpdateServerSession>,
    ct: Seq<(u32, CtBlob<UPDATE_CTCH_PT_LEN>)>,
    k: nat,
)
    requires
        ct.len() == fx.n,
        sess.len() == fx.n,
        update_challenge_ids(ct) == update_responders(update_answers(fx, it, req)),
        forall|i: int|
            0 <= i < fx.n ==> (#[trigger] ct[i]).1@ == update_returned(fx, it, st, req, i),
        forall|i: int| 0 <= i < fx.n ==> #[trigger] sess[i] == update_session_of(fx, it, req, i),
    ensures
        update_reached(fx, it, st, req, k) == update_accepting(fx.servers@, sess, ct, k),
    decreases fx.n - k,
{
    if k < fx.n {
        lemma_got(fx, it, st, req, sess, ct, k as int);
        lemma_reach_is_accepting(fx, it, st, req, sess, ct, k + 1);
    }
}

proof fn lemma_accepted_before(
    servers: Seq<AugSsoServer>,
    sess: Seq<PasswordUpdateServerSession>,
    ct: Seq<(u32, CtBlob<UPDATE_CTCH_PT_LEN>)>,
    k: nat,
    j: int,
)
    requires
        k <= j < sess.len(),
    ensures
        j < update_accepting(servers, sess, ct, k) ==> update_accepted_at(
            servers[j]@,
            sess[j],
            ct,
            j,
        ),
        k <= update_accepting(servers, sess, ct, k) <= sess.len(),
    decreases sess.len() - k,
{
    if k + 1 <= j {
        lemma_accepted_before(servers, sess, ct, k + 1, j);
    } else if k + 1 < sess.len() {
        lemma_accepted_before(servers, sess, ct, k + 1, (k + 1) as int);
    }
}

proof fn lemma_all_accepting(
    servers: Seq<AugSsoServer>,
    sess: Seq<PasswordUpdateServerSession>,
    ct: Seq<(u32, CtBlob<UPDATE_CTCH_PT_LEN>)>,
    k: nat,
)
    requires
        k <= sess.len(),
        forall|j: int|
            0 <= j < sess.len() ==> update_accepted_at(
                servers[j]@,
                #[trigger] sess[j],
                ct,
                j,
            ),
    ensures
        update_accepting(servers, sess, ct, k) == sess.len(),
    decreases sess.len() - k,
{
    if k < sess.len() {
        assert(update_accepted_at(servers[k as int]@, sess[k as int], ct, k as int));
        lemma_all_accepting(servers, sess, ct, k + 1);
    }
}

/// Changes the password of the fixture's client with all servers. In a sound fixture and
/// with nonzero blinding factors it succeeds, and the fixture is sound again, on the
/// same shared keys, with the new password in place of the old.
#[verifier::rlimit(80)]
pub fn update_password(
    fx: &mut Fixture,
    new_password: &[u8],
    it: &PasswordUpdateIterData,
    rng: &mut Rng,
) -> (r: Option<[u8; 32]>)
    requires
        old(fx).n <= u32::MAX,
        old(fx).n == old(fx).servers@.len(),
        old(fx).n <= it.respond1_rand@.len(),
    ensures
        final(fx).servers@.len() == old(fx).servers@.len(),
        match r {
            Some(h) => update_yields(*old(fx), new_password@, *it, h@),
            None => forall|h: Seq<u8>| !update_yields(*old(fx), new_password@, *it, h),
        },
        exists|st: PasswordUpdateClientState, req: PasswordUpdateRequest| #[trigger]
            update_started(*old(fx), new_password@, *it, st, req) && forall|j: int|
                0 <= j < old(fx).n ==> (#[trigger] final(fx).servers@[j])@ == server_after_update(
                    *old(fx),
                    *it,
                    st,
                    req,
                    j,
                ),
        *final(fx) == (Fixture {
            servers: final(fx).servers,
            password: final(fx).password,
            ..*old(fx)
        }),
        final(fx).password@ == if r is Some {
            new_password@
        } else {
            old(fx).password@
        },
        forall|gc: Seq<int>, pc: Seq<int>, cc: Seq<int>| #[trigger]
            old(fx).sound(gc, pc, cc) && it.r_old@ != 0 && it.r_new@ != 0
                && it.ctch_nonces@.len() == old(fx).n ==> (r matches Some(h) && final(fx).sound(
                gc,
                pc,
                cc,
            ) && h@ == popularity_hardened(
                g1_mul(password_g1(new_password@), at(pc, 0)),
                new_password@,
            )),
        final(rng)@ == old(rng)@,
{
    let ghost fx0 = *fx;
    let (st, req) = password_update_request_with_r(&*fx, new_password, it.r_old, it.r_new);
    assert(update_started(fx0, new_password@, *it, st, req));
    proof {
        assert forall|h: Seq<u8>| update_yields(fx0, new_password@, *it, h) implies
            update_first_accepted(fx0, *it, st, req) && update_reached(fx0, *it, st, req, 0)
            == fx0.n && exists|su: PasswordUpdateClientState, s: Seq<PasswordUpdateResponse2>|
            update_started(fx0, new_password@, *it, su, req) && #[trigger] hardens(fx0, req, s)
                && #[trigger] update_finalizes(su, req, s, hardening_keys(fx0)) by {
            let (su, sq, s) = choose|
                su: PasswordUpdateClientState,
                sq: PasswordUpdateRequest,
                s: Seq<PasswordUpdateResponse2>,
            | #[trigger]
                update_started(fx0, new_password@, *it, su, sq) && #[trigger] hardens(fx0, sq, s)
                    && update_succeeds(fx0, *it, su, sq, s) && h == hardened_by(su, s);
            lemma_one_run(fx0, new_password@, *it, (su, sq), (st, req));
        }
    }
    let (resps1, sess) = match update_first_round(&*fx, &req, it) {
        Some(v) => v,
        None => {
            return None;
        },
    };
    let ghost s = update_responses(resps1@);
    assert(s =~= update_answers(fx0, *it, req)) by {
        assert forall|j: int| 0 <= j < fx0.n implies #[trigger] s[j] == update_answers(
            fx0,
            *it,
            req,
        )[j] by {
            assert(s[j] == resps1@[j]@);
        }
    }
    proof {
        assert forall|gc: Seq<int>, pc: Seq<int>, cc: Seq<int>| #[trigger]
            fx0.sound(gc, pc, cc) && it.r_old@ != 0 && it.r_new@ != 0 implies honest_update(
            st,
            req,
            s,
            keyed(fx0.pk_shares@),
            password_g1(fx0.password@),
            password_g1(st.new_password@),
            cc,
        ) && update_responders(s) == first_ids(fx0.n as nat) && (forall|j: int|
            0 <= j < fx0.n ==> (#[trigger] s[j]).server_id == (j + 1) as u32 && update_opened(
                client_secret(g1_mul(password_g1(fx0.password@), at(cc, 0)), st.old_password@),
                s,
                j,
            ) == Some(update_plain(fx0.servers@[j]@, req, it.respond1_rand@[j]))) by {
            assert forall|j: int| 0 <= j < fx0.n implies {
                let srv = fx0.servers@[j]@;
                &&& (#[trigger] s[j]) == update_response1(srv, req, it.respond1_rand@[j])
                &&& g1_valid(s[j].sigma_old_i)
                &&& g1_valid(g1_mul(req.bpw_new@, srv.records[req.client_id.0@].sk_i))
                &&& update_plain(srv, req, it.respond1_rand@[j]).len() == 112
                &&& forall|sk: Seq<u8>|
                    sk.len() == 32 && srv.records[req.client_id.0@].rpk == #[trigger] x25519_public(
                        sk,
                    ) ==> pke_opened(sk, no_aad(), s[j].ct_res) == Some(
                        update_plain(srv, req, it.respond1_rand@[j]),
                    )
            } by {
                assert(s[j] == resps1@[j]@);
            }
            lemma_honest_update(fx0, gc, pc, cc, st, req, s, it.respond1_rand@);
        }
    }
    let phase1 = match password_update_client_phase1(
        &st,
        &req,
        resps1.as_slice(),
        fx.pk_shares.as_slice(),
        Some(it.ctch_nonces.as_slice()),
        rng,
    ) {
        Some(p) => p,
        None => {
            return None;
        },
    };
    let ghost sk = old_secret(st.old_password@, st.r_old@, st.t_set@, s);
    let ghost rpk = new_public(st.new_password@, st.r_new@, st.t_set@, sk, s);
    let client = fx.c;
    proof {
        assert forall|gc: Seq<int>, pc: Seq<int>, cc: Seq<int>| #[trigger]
            fx0.sound(gc, pc, cc) && it.r_old@ != 0 && it.r_new@ != 0 && it.ctch_nonces@.len()
                == fx0.n implies forall|j: int|
            0 <= j < fx0.n ==> update_accepted_at(
                fx0.servers@[j]@,
                #[trigger] sess@[j],
                phase1.ct_ch@,
                j,
            ) && place_of(update_challenge_ids(phase1.ct_ch@), (j + 1) as u32) == Some(j)
                && opened(sess@[j].ek@, no_aad(), phase1.ct_ch@[j].1@)->Some_0.subrange(32, 64)
                == rpk by {
            let ids = first_ids(fx0.n as nat);
            lemma_first_ids(fx0.n as nat);
            assert(update_challenge_ids(phase1.ct_ch@) =~= ids) by {
                assert forall|j: int| 0 <= j < fx0.n implies #[trigger] update_challenge_ids(
                    phase1.ct_ch@,
                )[j] == ids[j] by {
                    assert(phase1.ct_ch@[j].0 == resps1@[j].server_id);
                    assert(s[j].server_id == (j + 1) as u32);
                }
            }
            assert forall|j: int| 0 <= j < fx0.n implies update_accepted_at(
                fx0.servers@[j]@,
                #[trigger] sess@[j],
                phase1.ct_ch@,
                j,
            ) && place_of(update_challenge_ids(phase1.ct_ch@), (j + 1) as u32) == Some(j) && opened(
                sess@[j].ek@,
                no_aad(),
                phase1.ct_ch@[j].1@,
            )->Some_0.subrange(32, 64) == rpk by {
                assert(place_of(ids, ids[j]) == Some(j));
                assert(phase1.ct_ch@[j].0 == resps1@[j].server_id);
                assert(s[j].server_id == (j + 1) as u32);
                let rand = it.respond1_rand@[j];
                let plain = update_plain(fx0.servers@[j]@, req, rand);
                assert(update_opened(sk, s, j) == Some(plain));
                assert(plain.subrange(0, 32) =~= rand.ch@);
                assert(plain.subrange(32, 64) =~= rand.ek@);
                let back = rand.ch@ + rpk;
                assert(back.subrange(0, 32) =~= rand.ch@);
                assert(back.subrange(32, 64) =~= rpk);
                assert(fx0.servers@[j]@.records.dom().contains(fx0.c.0@));
            }
        }
    }
    let mut phi_pub_shares: Vec<(u32, G2)> = Vec::with_capacity(fx.servers.len());
    let mut i: usize = 0;
    while i < fx.servers.len()
        invariant
            i <= fx.servers@.len(),
            *fx == fx0,
            phi_pub_shares@.len() == i,
            forall|k: int|
                0 <= k < i ==> (#[trigger] phi_pub_shares@[k]).0 == fx0.servers@[k]@.id
                    && phi_pub_shares@[k].1@ == fx0.servers@[k]@.phi_pub_i,
        decreases fx.servers@.len() - i,
    {
        phi_pub_shares.push((fx.servers[i].id, fx.servers[i].phi_pub_i));
        i = i + 1;
    }
    proof {
        assert forall|i: int| 0 <= i < fx0.n implies (#[trigger] phase1.ct_ch@[i]).0
            == s[i].server_id && phase1.ct_ch@[i].1@ == update_returned(
            fx0,
            *it,
            st,
            req,
            i,
        ) by {
            assert(s[i] == resps1@[i]@);
        }
        assert(update_challenge_ids(phase1.ct_ch@) =~= update_responders(s)) by {
            assert forall|i: int| 0 <= i < fx0.n implies #[trigger] update_challenge_ids(
                phase1.ct_ch@,
            )[i] == update_responders(s)[i] by {
                assert(phase1.ct_ch@[i].0 == s[i].server_id);
            }
        }
        lemma_reach_is_accepting(fx0, *it, st, req, sess@, phase1.ct_ch@, 0);
    }
    let second = update_second_round(&mut fx.servers, client, &sess, &phase1.ct_ch);
    proof {
        assert forall|j: int| 0 <= j < fx0.n implies (#[trigger] fx.servers@[j])@
            == server_after_update(fx0, *it, st, req, j) by {
            lemma_got(fx0, *it, st, req, sess@, phase1.ct_ch@, j);
            lemma_accepted_before(fx0.servers@, sess@, phase1.ct_ch@, 0, j);
        }
    }
    let resps2 = match second {
        Some(v) => v,
        None => {
            proof {
                let j = choose|j: int|
                    0 <= j < sess@.len() && !update_accepted_at(
                        fx0.servers@[j]@,
                        #[trigger] sess@[j],
                        phase1.ct_ch@,
                        j,
                    );
                lemma_accepted_before(fx0.servers@, sess@, phase1.ct_ch@, 0, j);
            }
            return None;
        },
    };
    proof {
        lemma_all_accepting(fx0.servers@, sess@, phase1.ct_ch@, 0);
        assert forall|j: int| 0 <= j < resps2@.len() implies (#[trigger] resps2@[j]).server_id
            == fx0.servers@[j]@.id && resps2@[j].sigma_phi_i@ == g1_mul(
            req.bpw_new@,
            fx0.servers@[j]@.phi_i,
        ) by {
            assert(sess@[j].bpw_new == req.bpw_new);
        }
        assert(hardens(fx0, req, resps2@));
        assert(keyed(phi_pub_shares@) =~= hardening_keys(fx0)) by {
            assert forall|k: int| 0 <= k < fx0.servers@.len() implies #[trigger] keyed(
                phi_pub_shares@,
            )[k] == hardening_keys(fx0)[k] by {
                assert(phi_pub_shares@[k].0 == fx0.servers@[k]@.id);
            }
        }
    }
    proof {
        assert forall|gc: Seq<int>, pc: Seq<int>, cc: Seq<int>| #[trigger]
            fx0.sound(gc, pc, cc) && it.r_old@ != 0 && it.r_new@ != 0 && it.ctch_nonces@.len()
                == fx0.n implies honest_phi(
            st,
            req,
            resps2@,
            keyed(phi_pub_shares@),
            password_g1(new_password@),
            pc,
        ) by {
            let n = fx0.n as nat;
            let ids = first_ids(n);
            lemma_first_ids(n);
            lemma_first_ids(fx0.t as nat);
            assert(update_responders2(resps2@) =~= ids) by {
                assert forall|j: int| 0 <= j < n implies #[trigger] update_responders2(
                    resps2@,
                )[j] == ids[j] by {
                    assert(resps2@[j].server_id == fx0.servers@[j]@.id);
                }
            }
            let pks = keyed(phi_pub_shares@);
            assert(pks =~= public_shares(shares_of(pc, n, order()))) by {
                assert forall|j: int| 0 <= j < n implies #[trigger] pks[j] == public_shares(
                    shares_of(pc, n, order()),
                )[j] by {
                    assert(phi_pub_shares@[j].0 == fx0.servers@[j]@.id);
                }
            }
            assert forall|k: int| 0 <= k < st.t_set@.len() implies {
                &&& place_of(update_responders2(resps2@), #[trigger] st.t_set@[k]) is Some
                &&& g1_valid(phi_values(resps2@, st.t_set@)[k])
                &&& phi_values(resps2@, st.t_set@)[k] == g1_mul(
                    req.bpw_new@,
                    at(pc, st.t_set@[k] as int),
                )
                &&& place_of(key_ids(pks), st.t_set@[k]) is Some
                &&& key_of(pks, st.t_set@[k]) == g2_of(at(pc, st.t_set@[k] as int))
            } by {
                assert(st.t_set@[k] == ids[k]);
                assert(place_of(ids, ids[k]) == Some(k));
                assert(resps2@[k].server_id == fx0.servers@[k]@.id);
                assert(sess@[k].bpw_new == req.bpw_new);
                lemma_public_share(pc, n, k);
            }
        }
    }
    let h = match password_update_client_finalize(
        &st,
        &req,
        resps2.as_slice(),
        phi_pub_shares.as_slice(),
    ) {
        Some(h) => h,
        None => {
            proof {
                assert forall|h: Seq<u8>| !update_yields(fx0, new_password@, *it, h) by {
                    if update_yields(fx0, new_password@, *it, h) {
                        let (su, t) = choose|
                            su: PasswordUpdateClientState,
                            t: Seq<PasswordUpdateResponse2>,
                        |
                            update_started(fx0, new_password@, *it, su, req) && #[trigger] hardens(
                                fx0,
                                req,
                                t,
                            ) && #[trigger] update_finalizes(su, req, t, hardening_keys(fx0));
                        lemma_same_hardening(fx0, req, t, resps2@, su, st);
                    }
                }
            }
            return None;
        },
    };
    assert(update_succeeds(fx0, *it, st, req, resps2@));
    fx.password = bytes::copy_bytes(new_password);
    proof {
        assert forall|gc: Seq<int>, pc: Seq<int>, cc: Seq<int>| #[trigger]
            fx0.sound(gc, pc, cc) && it.r_old@ != 0 && it.r_new@ != 0 && it.ctch_nonces@.len()
                == fx0.n implies fx.sound(gc, pc, cc) by {
            let pp = PublicParams { n: fx.n, t: fx.t, cnt: u64::MAX / 2, caf: u64::MAX / 2 };
            assert forall|j: int| 0 <= j < fx.n implies (#[trigger] fx.servers@[j])@
                == fixture_server(j, pp, fx.c.0@, rpk, gc, pc, cc) by {
                assert(resps2@[j].server_id == fx0.servers@[j]@.id);
                assert(update_accepted_at(fx0.servers@[j]@, sess@[j], phase1.ct_ch@, j));
                assert(fx.servers@[j]@ =~= fixture_server(j, pp, fx.c.0@, rpk, gc, pc, cc)) by {
                    assert(fx.servers@[j]@.records =~= fixture_server(
                        j,
                        pp,
                        fx.c.0@,
                        rpk,
                        gc,
                        pc,
                        cc,
                    ).records);
                }
            }
        }
    }
    Some(h)
}

} // verus!
