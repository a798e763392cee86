//! Authentication: a client proves its password to `t` servers and gets a token.
use vstd::prelude::*;

use crate::aead::{self, opened, sealed, CtBlob};
use crate::augsso::{
    client_secret, keyed, password_g1, AugSsoServer, ClientId, ServerState, BPW_LEN, CH_LEN,
    CTCH_PT_LEN, EK_LEN, PKE_PT_LEN, PLD_LEN, SIGMA_LEN, UID_LEN,
};
use crate::bls::{
    g1_from_bytes, g1_mul, g1_to_bytes, g1_valid, g2_of, order, pairing_check_g1_g2,
    signature_holds, Scalar, G1, G2,
};
use crate::bytes::{self, cat2};
use crate::crypto_augsso::{
    combine_g1_at_zero, hash_g1_and_bytes_to_32, hash_to_g1, nonzero_drawn, pke_dec,
    pke_enc_with_eph_and_nonce, pke_kg, pke_opened, pke_sealed, random_scalar_nonzero, PkeBox,
    PkeCt,
};
use crate::field::{distinct, inverse_of, lemma_inverse_cancels, Field};
use crate::group::{combined_at_zero, encs, on_polynomial, Group};
use crate::ids::{copy_ids, find_id, lemma_sorted, place_of, same_ids, sort_ids, sorted};
use crate::interpolation::eval;
use crate::keys::x25519_public;
use crate::rng::{Rng, RngState};

verus! {

/// No associated data.
pub open spec fn no_aad() -> Seq<u8> {
    Seq::<u8>::empty()
}

/// What a client remembers of a request.
#[derive(Clone, Debug)]
pub struct ClientState {
    pub password: Vec<u8>,
    pub r: Scalar,
    pub t_set: Vec<u32>,
    pub pld: [u8; PLD_LEN],
}

/// What a client sends to start an authentication.
#[derive(Clone, Copy, Debug)]
pub struct ClientRequest {
    pub pld: [u8; PLD_LEN],
    pub bpw: [u8; BPW_LEN],
}

/// Starts an authentication with a drawn blinding factor. There is none where the
/// generator yields only zeros.
pub fn request(password: &[u8], pld: [u8; PLD_LEN], t_set: &[u32], rng: &mut Rng) -> (r: Option<
    (ClientState, ClientRequest),
>)
    ensures
        match r {
            Some((st, req)) => {
                &&& nonzero_drawn(old(rng)@).0 == Some(st.r@)
                &&& st.r@ != 0
                &&& st.password@ == password@
                &&& st.t_set@ == t_set@
                &&& st.pld == pld
                &&& req.pld == pld
                &&& req.bpw@ == g1_mul(password_g1(password@), st.r@)
            },
            None => nonzero_drawn(old(rng)@).0 is None,
        },
        final(rng)@ == nonzero_drawn(old(rng)@).1,
{
    match random_scalar_nonzero(rng) {
        Some(r) => Some(request_with_r(password, pld, t_set, r)),
        None => None,
    }
}

/// Starts an authentication with the given blinding factor.
pub fn request_with_r(password: &[u8], pld: [u8; PLD_LEN], t_set: &[u32], r: Scalar) -> (out: (
    ClientState,
    ClientRequest,
))
    ensures
        out.0.password@ == password@,
        out.0.r@ == r@,
        out.0.t_set@ == t_set@,
        out.0.pld == pld,
        out.1.pld == pld,
        out.1.bpw@ == g1_mul(password_g1(password@), r@),
        g1_valid(out.1.bpw@),
        g1_valid(password_g1(password@)),
        forall|k: nat|
            k < order() ==> #[trigger] g1_mul(out.1.bpw@, k) == g1_mul(
                password_g1(password@),
                (r@ * k) % order(),
            ),
{
    let h_pw = hash_to_g1("augsso/H_pw/v1".as_bytes(), password);
    let bpw_pt: G1 = h_pw.scale(r);
    let bpw = g1_to_bytes(&bpw_pt);
    proof {
        assert forall|k: nat| k < order() implies #[trigger] g1_mul(bpw@, k) == g1_mul(
            h_pw@,
            (r@ * k) % order(),
        ) by {
            assert(G1::mul_of(bpw_pt.enc(), k) == G1::mul_of(h_pw.enc(), (r@ * k) % order()));
        }
    }
    let st = ClientState {
        password: bytes::copy_bytes(password),
        r,
        t_set: copy_ids(t_set),
        pld,
    };
    (st, ClientRequest { pld, bpw })
}

/// The random values of a server's first response.
#[derive(Clone, Copy, Debug)]
pub struct Respond1Rand {
    pub ch: [u8; CH_LEN],
    pub ek: [u8; EK_LEN],
    pub pke_eph_sk: [u8; 32],
    pub pke_nonce: [u8; 24],
}

/// A server's first response.
#[derive(Clone, Copy, Debug)]
pub struct ServerResponse1 {
    pub server_id: u32,
    pub sigma_i: [u8; SIGMA_LEN],
    pub ct_res: PkeCt<PKE_PT_LEN>,
}

/// What a first response holds.
#[verifier::ext_equal]
pub struct Response1 {
    pub server_id: u32,
    pub sigma_i: Seq<u8>,
    pub ct_res: PkeBox,
}

impl View for ServerResponse1 {
    type V = Response1;

    open spec fn view(&self) -> Response1 {
        Response1 { server_id: self.server_id, sigma_i: self.sigma_i@, ct_res: self.ct_res@ }
    }
}

/// What a server remembers between its responses.
#[derive(Clone, Copy, Debug)]
pub struct ServerSession {
    pub server_id: u32,
    pub ek: [u8; EK_LEN],
    pub ch: [u8; CH_LEN],
    pub pld: [u8; PLD_LEN],
}

/// The client identifier in a payload.
pub open spec fn client_in(pld: Seq<u8>) -> Seq<u8> {
    pld.subrange(32, 64)
}

pub(crate) fn parse_client_id_from_pld(pld: &[u8; PLD_LEN]) -> (r: ClientId)
    ensures
        r.0@ == client_in(pld@),
{
    ClientId(bytes::piece::<UID_LEN>(pld, 32))
}

/// A server answers a registered client whose blinded password is a group element.
pub open spec fn answers(srv: ServerState, pld: Seq<u8>, bpw: Seq<u8>) -> bool {
    srv.records.dom().contains(client_in(pld)) && g1_valid(bpw)
}

/// The first response of a server to a client with the given record.
pub open spec fn first_response(
    srv: ServerState,
    pld: Seq<u8>,
    bpw: Seq<u8>,
    rand: Respond1Rand,
) -> Response1 {
    let rec = srv.records[client_in(pld)];
    Response1 {
        server_id: srv.id,
        sigma_i: g1_mul(bpw, rec.sk_i),
        ct_res: pke_sealed(
            rec.rpk,
            no_aad(),
            rand.ch@ + rand.ek@,
            rand.pke_eph_sk@,
            rand.pke_nonce@,
        ),
    }
}

/// The first response with random values from `rng`.
pub fn respond1(srv: &AugSsoServer, req: &ClientRequest, rng: &mut Rng) -> (r: Option<
    (ServerResponse1, ServerSession),
>)
    ensures
        r is Some <==> answers(srv@, req.pld@, req.bpw@),
        r matches Some((resp, sess)) ==> {
            let r0 = old(rng)@;
            let r1 = r0.skip(32);
            let r2 = r1.skip(32);
            let r3 = r2.skip(32);
            &&& sess.server_id == srv@.id
            &&& sess.ek@ == r0.bytes(32)
            &&& sess.ch@ == r1.bytes(32)
            &&& sess.pld == req.pld
            &&& resp@ == (Response1 {
                server_id: srv@.id,
                sigma_i: g1_mul(req.bpw@, srv@.records[client_in(req.pld@)].sk_i),
                ct_res: pke_sealed(
                    srv@.records[client_in(req.pld@)].rpk,
                    no_aad(),
                    sess.ch@ + sess.ek@,
                    r2.bytes(32),
                    r3.bytes(24),
                ),
            })
        },
        final(rng)@ == if srv@.records.dom().contains(client_in(req.pld@)) {
            old(rng)@.skip(32).skip(32).skip(32).skip(24)
        } else {
            old(rng)@
        },
{
    let c = parse_client_id_from_pld(&req.pld);
    if !srv.has_record(c) {
        return None;
    }
    let ek = rng.take_array::<EK_LEN>();
    let ch = rng.take_array::<CH_LEN>();
    let pke_eph_sk = rng.take_array::<32>();
    let pke_nonce = rng.take_array::<24>();
    let rand = Respond1Rand { ch, ek, pke_eph_sk, pke_nonce };
    respond1_with_rand(srv, req, &rand)
}

/// The first response with the given random values: the server's part of the password
/// function, and a challenge with a session key for the client's public key. The
/// holder of the secret key can open it.
pub fn respond1_with_rand(srv: &AugSsoServer, req: &ClientRequest, rand: &Respond1Rand) -> (r:
    Option<(ServerResponse1, ServerSession)>)
    ensures
        r is Some <==> answers(srv@, req.pld@, req.bpw@),
        r matches Some((resp, sess)) ==> {
            &&& resp@ == first_response(srv@, req.pld@, req.bpw@, *rand)
            &&& sess == (ServerSession {
                server_id: srv@.id,
                ek: rand.ek,
                ch: rand.ch,
                pld: req.pld,
            })
            &&& forall|sk: Seq<u8>|
                sk.len() == 32 && srv@.records[client_in(req.pld@)].rpk == #[trigger] x25519_public(
                    sk,
                ) ==> pke_opened(sk, no_aad(), resp@.ct_res) == Some(rand.ch@ + rand.ek@)
            &&& forall|g: Seq<u8>, a: nat|
                g1_valid(g) && a < order() && req.bpw@ == #[trigger] g1_mul(g, a) ==> resp@.sigma_i
                    == g1_mul(g, (a * srv@.records[client_in(req.pld@)].sk_i) % order())
            &&& g1_valid(resp@.sigma_i)
        },
{
    let c = parse_client_id_from_pld(&req.pld);
    let rec = match srv.get_record(c) {
        Some(rec) => *rec,
        None => {
            return None;
        },
    };
    let bpw_pt: G1 = match g1_from_bytes(&req.bpw) {
        Some(p) => p,
        None => {
            return None;
        },
    };
    let sigma_pt: G1 = bpw_pt.scale(rec.sk_i);
    let sigma_i = g1_to_bytes(&sigma_pt);
    let both = cat2(&rand.ch, &rand.ek);
    let pt = bytes::to_array::<PKE_PT_LEN>(both.as_slice());
    let aad: [u8; 0] = [];
    assert(aad@ =~= no_aad());
    let ct_res = pke_enc_with_eph_and_nonce(
        &rec.rpk,
        &aad,
        &pt,
        &rand.pke_eph_sk,
        &rand.pke_nonce,
    );
    let resp = ServerResponse1 { server_id: srv.id, sigma_i, ct_res };
    let sess = ServerSession { server_id: srv.id, ek: rand.ek, ch: rand.ch, pld: req.pld };
    proof {
        assert forall|g: Seq<u8>, a: nat|
            g1_valid(g) && a < order() && req.bpw@ == #[trigger] g1_mul(g, a) implies resp@.sigma_i
            == g1_mul(g, (a * rec.sk_i@) % order()) by {
            assert(bpw_pt.enc() == G1::mul_of(g, a));
        }
    }
    Some((resp, sess))
}

/// What a client learns from the first responses and sends back.
#[derive(Clone, Debug)]
pub struct ClientPhase1Out {
    pub ek: Vec<(u32, [u8; EK_LEN])>,
    pub ch: Vec<(u32, [u8; CH_LEN])>,
    pub ct_ch: Vec<(u32, CtBlob<CTCH_PT_LEN>)>,
}

/// What a list of first responses holds.
pub open spec fn responses(s: Seq<ServerResponse1>) -> Seq<Response1> {
    Seq::new(s.len(), |i: int| s[i]@)
}

/// The servers of a list of first responses.
pub open spec fn responders(s: Seq<Response1>) -> Seq<u32> {
    Seq::new(s.len(), |i: int| s[i].server_id)
}

/// The identifiers of a list of keyed elements.
pub open spec fn key_ids(s: Seq<(u32, Seq<u8>)>) -> Seq<u32> {
    Seq::new(s.len(), |i: int| s[i].0)
}

/// The first response of the server `sid`.
pub open spec fn response_of(s: Seq<Response1>, sid: u32) -> Response1 {
    s[place_of(responders(s), sid)->Some_0]
}

/// The public key listed for the server `sid`.
pub open spec fn key_of(s: Seq<(u32, Seq<u8>)>, sid: u32) -> Seq<u8> {
    s[place_of(key_ids(s), sid)->Some_0].1
}

/// The partial values of the password function, in the order of the servers.
pub open spec fn sigmas(s: Seq<Response1>, ts: Seq<u32>) -> Seq<Seq<u8>> {
    Seq::new(ts.len(), |k: int| response_of(s, ts[k]).sigma_i)
}

/// A server's partial value is a group element and agrees with its public key.
pub open spec fn sigma_checks(
    s: Seq<Response1>,
    pks: Seq<(u32, Seq<u8>)>,
    bpw: Seq<u8>,
    sid: u32,
) -> bool {
    &&& g1_valid(response_of(s, sid).sigma_i)
    &&& place_of(key_ids(pks), sid) is Some
    &&& signature_holds(bpw, response_of(s, sid).sigma_i, key_of(pks, sid))
}

/// The value of the password function that the partial values give.
pub open spec fn recovered_sigma(s: Seq<Response1>, ts: Seq<u32>, r: nat) -> Seq<u8> {
    g1_mul(combined_at_zero::<G1>(ts, sigmas(s, ts)), inverse_of(r, order()))
}

/// The responses come from exactly the servers asked, all partial values check, and all
/// challenges open under the key that the password gives.
pub open spec fn phase1_accepts(
    password: Seq<u8>,
    r: nat,
    t_set: Seq<u32>,
    bpw: Seq<u8>,
    s: Seq<Response1>,
    pks: Seq<(u32, Seq<u8>)>,
) -> bool {
    let ts = sorted(t_set);
    let sk = client_secret(recovered_sigma(s, ts, r), password);
    &&& s.len() == t_set.len()
    &&& sorted(responders(s)) == ts
    &&& g1_valid(bpw)
    &&& forall|k: int| 0 <= k < ts.len() ==> sigma_checks(s, pks, bpw, #[trigger] ts[k])
    &&& forall|k: int|
        0 <= k < ts.len() ==> pke_opened(
            sk,
            no_aad(),
            response_of(s, #[trigger] ts[k]).ct_res,
        ) is Some
}

/// The responses are those of servers that hold shares, on the polynomial `c`, of the
/// secret that the client registered, to a request that blinds `h`.
pub open spec fn honest_responses(
    r: nat,
    t_set: Seq<u32>,
    bpw: Seq<u8>,
    s: Seq<Response1>,
    pks: Seq<(u32, Seq<u8>)>,
    h: Seq<u8>,
    c: Seq<int>,
) -> bool {
    let ts = sorted(t_set);
    let secret = (eval(c, 0) % (order() as int)) as nat;
    &&& s.len() == t_set.len()
    &&& sorted(responders(s)) == ts
    &&& r != 0
    &&& g1_valid(bpw)
    &&& g1_valid(h)
    &&& g1_mul(bpw, secret) == g1_mul(h, (r * secret) % order())
    &&& distinct(ts)
    &&& c.len() <= ts.len()
    &&& on_polynomial::<G1>(sigmas(s, ts), bpw, ts, c)
    &&& forall|k: int|
        0 <= k < ts.len() ==> {
            &&& g1_valid(response_of(s, #[trigger] ts[k]).sigma_i)
            &&& place_of(key_ids(pks), ts[k]) is Some
            &&& key_of(pks, ts[k]) == g2_of((eval(c, ts[k] as int) % (order() as int)) as nat)
        }
}

/// The plaintext of a server's first response.
pub open spec fn phase1_plain(
    password: Seq<u8>,
    r: nat,
    ts: Seq<u32>,
    s: Seq<Response1>,
    sid: u32,
) -> Seq<u8> {
    let sk = client_secret(recovered_sigma(s, ts, r), password);
    pke_opened(sk, no_aad(), response_of(s, sid).ct_res)->Some_0
}

/// The generator after `k` nonces.
pub open spec fn after_nonces(rng: RngState, k: nat) -> RngState
    decreases k,
{
    if k == 0 {
        rng
    } else {
        after_nonces(rng, (k - 1) as nat).skip(24)
    }
}

/// Decodes the blinded password and each partial value that a list of servers sent, and
/// checks it against the server's public key.
fn checked_partials(
    ts: &Vec<u32>,
    req: &ClientRequest,
    resps: &[ServerResponse1],
    ids: &Vec<u32>,
    pk_shares: &[(u32, G2)],
) -> (r: Option<Vec<G1>>)
    requires
        ids@ == responders(responses(resps@)),
        forall|k: int| 0 <= k < ts@.len() ==> ids@.contains(#[trigger] ts@[k]),
    ensures
        r is Some <==> g1_valid(req.bpw@) && forall|k: int|
            0 <= k < ts@.len() ==> sigma_checks(
                responses(resps@),
                keyed(pk_shares@),
                req.bpw@,
                #[trigger] ts@[k],
            ),
        r matches Some(v) ==> encs(v@) == sigmas(responses(resps@), ts@),
        forall|t_set: Seq<u32>, r0: nat, h: Seq<u8>, c: Seq<int>|
            ts@ == sorted(t_set) && #[trigger] honest_responses(
                r0,
                t_set,
                req.bpw@,
                responses(resps@),
                keyed(pk_shares@),
                h,
                c,
            ) ==> r is Some,
{
    let ghost s = responses(resps@);
    let ghost pks = keyed(pk_shares@);
    let bpw_pt: G1 = match g1_from_bytes(&req.bpw) {
        Some(p) => p,
        None => {
            return None;
        },
    };
    let mut pk_ids: Vec<u32> = Vec::with_capacity(pk_shares.len());
    let mut i: usize = 0;
    while i < pk_shares.len()
        invariant
            i <= pk_shares@.len(),
            pk_ids@.len() == i,
            forall|k: int| 0 <= k < i ==> pk_ids@[k] == pk_shares@[k].0,
        decreases pk_shares@.len() - i,
    {
        pk_ids.push(pk_shares[i].0);
        i = i + 1;
    }
    assert(pk_ids@ =~= key_ids(pks));
    let mut partials: Vec<G1> = Vec::with_capacity(ts.len());
    let mut k: usize = 0;
    while k < ts.len()
        invariant
            k <= ts@.len(),
            s == responses(resps@),
            pks == keyed(pk_shares@),
            ids@ == responders(s),
            ids@.len() == resps@.len(),
            pk_ids@ == key_ids(pks),
            pk_ids@.len() == pk_shares@.len(),
            bpw_pt@ == req.bpw@,
            forall|q: int| 0 <= q < ts@.len() ==> ids@.contains(#[trigger] ts@[q]),
            partials@.len() == k,
            forall|q: int|
                0 <= q < k ==> sigma_checks(s, pks, req.bpw@, #[trigger] ts@[q]) && partials@[q]@
                    == response_of(s, ts@[q]).sigma_i,
        decreases ts@.len() - k,
    {
        let sid = ts[k];
        assert(ids@.contains(ts@[k as int]));
        let at = match find_id(ids.as_slice(), sid) {
            Some(at) => at,
            None => {
                return None;
            },
        };
        assert(s[at as int] == resps@[at as int]@);
        let sigma_pt: G1 = match g1_from_bytes(&resps[at].sigma_i) {
            Some(p) => p,
            None => {
                assert(!sigma_checks(s, pks, req.bpw@, ts@[k as int]));
                return None;
            },
        };
        let pk_at = match find_id(pk_ids.as_slice(), sid) {
            Some(at) => at,
            None => {
                assert(!sigma_checks(s, pks, req.bpw@, ts@[k as int]));
                return None;
            },
        };
        assert(pks[pk_at as int] == (pk_shares@[pk_at as int].0, pk_shares@[pk_at as int].1@));
        if !pairing_check_g1_g2(&sigma_pt, &bpw_pt, &pk_shares[pk_at].1) {
            proof {
                assert forall|t_set: Seq<u32>, r0: nat, h: Seq<u8>, c: Seq<int>|
                    ts@ == sorted(t_set) implies !#[trigger] honest_responses(
                    r0,
                    t_set,
                    req.bpw@,
                    s,
                    pks,
                    h,
                    c,
                ) by {
                    if honest_responses(r0, t_set, req.bpw@, s, pks, h, c) {
                        let a = (eval(c, ts@[k as int] as int) % (order() as int)) as nat;
                        assert(sigmas(s, ts@)[k as int] == G1::mul_of(req.bpw@, a));
                        assert(g2_of(a) == key_of(pks, ts@[k as int]));
                    }
                }
            }
            assert(!sigma_checks(s, pks, req.bpw@, ts@[k as int]));
            return None;
        }
        partials.push(sigma_pt);
        k = k + 1;
    }
    assert(encs(partials@) =~= sigmas(s, ts@));
    Some(partials)
}

/// Checks the first responses, recovers the key that the password gives, opens the
/// challenges and encrypts them under the session keys.
#[verifier::rlimit(40)]
#[verifier::loop_isolation(false)]
pub fn client_phase1(
    st: &ClientState,
    req: &ClientRequest,
    resps: &[ServerResponse1],
    pk_shares: &[(u32, G2)],
    ctch_nonces: Option<&[[u8; 24]]>,
    rng: &mut Rng,
) -> (r: Option<ClientPhase1Out>)
    requires
        ctch_nonces matches Some(ns) ==> ns@.len() >= st.t_set@.len(),
    ensures
        r is Some <==> phase1_accepts(
            st.password@,
            st.r@,
            st.t_set@,
            req.bpw@,
            responses(resps@),
            keyed(pk_shares@),
        ),
        r matches Some(out) ==> {
            let ts = sorted(st.t_set@);
            &&& out.ek@.len() == ts.len()
            &&& out.ch@.len() == ts.len()
            &&& out.ct_ch@.len() == ts.len()
            &&& forall|k: int|
                0 <= k < ts.len() ==> {
                    let pt = phase1_plain(
                        st.password@,
                        st.r@,
                        ts,
                        responses(resps@),
                        #[trigger] ts[k],
                    );
                    let nonce = match ctch_nonces {
                        Some(ns) => ns@[k]@,
                        None => after_nonces(old(rng)@, k as nat).bytes(24),
                    };
                    &&& out.ch@[k].0 == ts[k]
                    &&& out.ch@[k].1@ == pt.subrange(0, 32)
                    &&& out.ek@[k].0 == ts[k]
                    &&& out.ek@[k].1@ == pt.subrange(32, 64)
                    &&& out.ct_ch@[k].0 == ts[k]
                    &&& out.ct_ch@[k].1@ == sealed(
                        pt.subrange(32, 64),
                        no_aad(),
                        pt.subrange(0, 32),
                        nonce,
                    )
                    &&& opened(out.ek@[k].1@, no_aad(), out.ct_ch@[k].1@) == Some(out.ch@[k].1@)
                }
        },
        final(rng)@ == if r is Some && ctch_nonces is None {
            after_nonces(old(rng)@, st.t_set@.len())
        } else {
            old(rng)@
        },
        forall|h: Seq<u8>, c: Seq<int>| #[trigger]
            honest_responses(
                st.r@,
                st.t_set@,
                req.bpw@,
                responses(resps@),
                keyed(pk_shares@),
                h,
                c,
            ) ==> {
                &&& recovered_sigma(responses(resps@), sorted(st.t_set@), st.r@) == g1_mul(
                    h,
                    (eval(c, 0) % (order() as int)) as nat,
                )
                &&& forall|k: int|
                    0 <= k < st.t_set@.len() ==> sigma_checks(
                        responses(resps@),
                        keyed(pk_shares@),
                        req.bpw@,
                        #[trigger] sorted(st.t_set@)[k],
                    )
            },
{
    let ghost s = responses(resps@);
    let ghost pks = keyed(pk_shares@);
    if resps.len() != st.t_set.len() {
        return None;
    }
    let mut ids: Vec<u32> = Vec::with_capacity(resps.len());
    let mut i: usize = 0;
    while i < resps.len()
        invariant
            i <= resps@.len(),
            ids@.len() == i,
            forall|k: int| 0 <= k < i ==> ids@[k] == resps@[k].server_id,
        decreases resps@.len() - i,
    {
        ids.push(resps[i].server_id);
        i = i + 1;
    }
    assert(ids@ =~= responders(s));
    let ids_sorted = sort_ids(ids.as_slice());
    let ts = sort_ids(st.t_set.as_slice());
    if !same_ids(ids_sorted.as_slice(), ts.as_slice()) {
        return None;
    }
    proof {
        lemma_sorted(ids@);
        assert forall|k: int| 0 <= k < ts@.len() implies ids@.contains(#[trigger] ts@[k]) by {
            assert(sorted(ids@).contains(ts@[k]));
        }
    }
    let partials = match checked_partials(&ts, req, resps, &ids, pk_shares) {
        Some(v) => v,
        None => {
            return None;
        },
    };
    assert(encs(partials@).len() == partials@.len());
    let acc: G1 = combine_g1_at_zero(ts.as_slice(), partials.as_slice());
    let rinv: Scalar = st.r.inverse();
    let sigma: G1 = acc.scale(rinv);
    let hpw = hash_g1_and_bytes_to_32(
        "augsso/hpw/v1".as_bytes(),
        &sigma,
        st.password.as_slice(),
    );
    let kp = pke_kg(&hpw);
    let ghost sk = client_secret(recovered_sigma(s, ts@, st.r@), st.password@);
    assert(kp.sk@ == sk);
    proof {
        assert forall|h: Seq<u8>, c: Seq<int>| #[trigger]
            honest_responses(st.r@, st.t_set@, req.bpw@, s, pks, h, c) implies recovered_sigma(
            s,
            ts@,
            st.r@,
        ) == g1_mul(h, (eval(c, 0) % (order() as int)) as nat) by {
            let secret = (eval(c, 0) % (order() as int)) as nat;
            assert(on_polynomial::<G1>(encs(partials@), req.bpw@, ts@, c));
            assert(acc@ == G1::mul_of(req.bpw@, secret));
            lemma_inverse_cancels(st.r@, rinv@, secret, order());
            assert(acc.enc() == G1::mul_of(h, (st.r@ * secret) % order()));
        }
    }

    let aad: [u8; 0] = [];
    assert(aad@ =~= no_aad());
    let mut ek_out: Vec<(u32, [u8; EK_LEN])> = Vec::with_capacity(ts.len());
    let mut ch_out: Vec<(u32, [u8; CH_LEN])> = Vec::with_capacity(ts.len());
    let mut k: usize = 0;
    while k < ts.len()
        invariant
            k <= ts@.len(),
            s == responses(resps@),
            ids@ == responders(s),
            ids@.len() == resps@.len(),
            ts@ == sorted(st.t_set@),
            kp.sk@ == sk,
            aad@ == no_aad(),
            sk == client_secret(recovered_sigma(s, ts@, st.r@), st.password@),
            forall|q: int| 0 <= q < ts@.len() ==> ids@.contains(#[trigger] ts@[q]),
            ek_out@.len() == k,
            ch_out@.len() == k,
            forall|q: int|
                0 <= q < k ==> {
                    let pt = phase1_plain(st.password@, st.r@, ts@, s, #[trigger] ts@[q]);
                    &&& pke_opened(sk, no_aad(), response_of(s, ts@[q]).ct_res) is Some
                    &&& ch_out@[q].0 == ts@[q]
                    &&& ch_out@[q].1@ == pt.subrange(0, 32)
                    &&& ek_out@[q].0 == ts@[q]
                    &&& ek_out@[q].1@ == pt.subrange(32, 64)
                },
        decreases ts@.len() - k,
    {
        let sid = ts[k];
        assert(ids@.contains(ts@[k as int]));
        let at = match find_id(ids.as_slice(), sid) {
            Some(at) => at,
            None => {
                return None;
            },
        };
        assert(s[at as int] == resps@[at as int]@);
        assert(response_of(s, ts@[k as int]) == s[at as int]);
        let pt = match pke_dec(&kp.sk, &aad, &resps[at].ct_res) {
            Ok(pt) => pt,
            Err(_) => {
                assert(pke_opened(sk, no_aad(), response_of(s, ts@[k as int]).ct_res) is None);
                return None;
            },
        };
        let ch = bytes::piece::<CH_LEN>(&pt, 0);
        let ek = bytes::piece::<EK_LEN>(&pt, 32);
        ch_out.push((sid, ch));
        ek_out.push((sid, ek));
        k = k + 1;
    }
    let mut ct_ch: Vec<(u32, CtBlob<CTCH_PT_LEN>)> = Vec::with_capacity(ts.len());
    let ghost r0 = rng@;
    let mut j: usize = 0;
    while j < ts.len()
        invariant
            j <= ts@.len(),
            ek_out@.len() == ts@.len(),
            ch_out@.len() == ts@.len(),
            aad@ == no_aad(),
            ctch_nonces matches Some(ns) ==> ns@.len() >= ts@.len(),
            ct_ch@.len() == j,
            rng@ == (if ctch_nonces is None {
                after_nonces(r0, j as nat)
            } else {
                r0
            }),
            forall|q: int|
                0 <= q < j ==> {
                    let nonce = match ctch_nonces {
                        Some(ns) => ns@[q]@,
                        None => after_nonces(r0, q as nat).bytes(24),
                    };
                    &&& (#[trigger] ct_ch@[q]).0 == ts@[q]
                    &&& ct_ch@[q].1@ == sealed(
                        ek_out@[q].1@,
                        no_aad(),
                        ch_out@[q].1@,
                        nonce,
                    )
                    &&& opened(ek_out@[q].1@, no_aad(), ct_ch@[q].1@) == Some(ch_out@[q].1@)
                },
        decreases ts@.len() - j,
    {
        let blob = match ctch_nonces {
            Some(ns) => aead::xchacha_encrypt_detached_with_nonce(
                &ek_out[j].1,
                &aad,
                &ch_out[j].1,
                &ns[j],
            ),
            None => aead::xchacha_encrypt_detached(&ek_out[j].1, &aad, &ch_out[j].1, rng),
        };
        ct_ch.push((ts[j], blob));
        j = j + 1;
    }
    proof {
        assert forall|q: int| 0 <= q < ts@.len() implies {
            let nonce = match ctch_nonces {
                Some(ns) => ns@[q]@,
                None => after_nonces(r0, q as nat).bytes(24),
            };
            let pt = phase1_plain(st.password@, st.r@, ts@, s, #[trigger] ts@[q]);
            &&& ct_ch@[q].0 == ts@[q]
            &&& ct_ch@[q].1@ == sealed(pt.subrange(32, 64), no_aad(), pt.subrange(0, 32), nonce)
        } by {
            assert(ct_ch@[q].0 == ts@[q]);
        }
    }
    Some(ClientPhase1Out { ek: ek_out, ch: ch_out, ct_ch })
}

} // verus!
