//! Password-based token authentication: registration, requests, responses, tokens.
use vstd::prelude::*;

use crate::aead::{self, opened, sealed, Blob, CtBlob};
use crate::bls::{g1_mul, g1_valid, g2_of, G1};
use crate::bytes::{self, cat2};
use crate::crypto_pastau::{
    hash_hi, hi_of, toprf_encode, toprf_eval_share, token_base, token_verifies, ttg_combine,
    ttg_part_eval, ttg_partial_to_bytes, ttg_poly, ttg_setup, ttg_token_from_partial_bytes,
    ttg_verify, TtgShare, TtgToken, TtgVk, TTG_TOKEN_LEN,
};
use crate::augsso_auth::no_aad;
use crate::field::{
    after_draws, distinct, inverse_of, lagrange_coeffs_at_zero, lemma_inverse_cancels, share_vals,
    shares_of, vals, weights, Field,
};
use crate::group::{
    are_multiples, combined_at_zero, encs, lemma_recovery, on_polynomial, values_at, Group,
};
use crate::ids::{copy_ids, find_id, lemma_sorted, place_of, same_ids, sort_ids, sorted};
use crate::interpolation::eval;
use crate::ristretto::{order, ristretto_mul, ristretto_valid, Point, Scalar};
use crate::rng::Rng;
use crate::store::Store;
use crate::toprf::{self, finalized, key_poly, password_point, scalar_drawn, unblinded_key};

verus! {

pub const UID_LEN: usize = 32;

pub const X_LEN: usize = 32;

pub const TOP_REQ_LEN: usize = 32;

pub const TOP_PARTIAL_LEN: usize = 32;

pub const UPDATE_PT_LEN: usize = 64;

pub const UPDATE_BLOB_LEN: usize = aead::NONCE_LEN + UPDATE_PT_LEN + aead::TAG_LEN;

/// The identifier of a client.
#[derive(Clone, Copy, Debug, PartialEq, Eq, Hash)]
pub struct ClientId(pub [u8; UID_LEN]);

/// The parameters of a deployment.
#[derive(Clone, Copy, Debug, PartialEq, Eq, Structural)]
pub struct PublicParams {
    pub kappa: usize,
    pub n: usize,
    pub t: usize,
}

/// The keys of a deployment.
#[derive(Clone)]
pub struct GlobalSetupOut {
    pub ttg_shares: Vec<(u32, TtgShare)>,
    pub vk: TtgVk,
    pub pp: PublicParams,
}

/// Draws the token key of a deployment.
pub fn global_setup(kappa: usize, n: usize, t: usize, rng: &mut Rng) -> (r: GlobalSetupOut)
    requires
        1 <= t <= n,
    ensures
        share_vals(r.ttg_shares@) == shares_of(
            ttg_poly(t as nat, old(rng)@),
            n as nat,
            crate::bls::order(),
        ),
        r.vk@ == g2_of(crate::augsso::scalar_drawn(old(rng)@)),
        r.pp == (PublicParams { kappa, n, t }),
        final(rng)@ == after_draws(old(rng)@.skip(64), (t - 1) as nat),
{
    let (ttg_shares, vk) = ttg_setup(n, t, rng);
    GlobalSetupOut { ttg_shares, vk, pp: PublicParams { kappa, n, t } }
}

/// What a client sends to one server at registration.
#[derive(Clone, Copy, Debug)]
pub struct RegistrationMsg {
    pub server_id: u32,
    pub k_i: Scalar,
    pub h_i: [u8; 32],
}

/// A registration.
#[derive(Clone, Debug)]
pub struct RegistrationOut {
    pub k0: Scalar,
    pub msgs: Vec<RegistrationMsg>,
}

/// The value of the password function under the key `k`.
pub open spec fn password_value(password: Seq<u8>, k: nat) -> Seq<u8> {
    finalized(password, ristretto_mul(password_point(password), k))
}

/// The value that a client computes at registration with the blinding factor `r`.
pub open spec fn registered_value(password: Seq<u8>, r: nat, k: nat) -> Seq<u8> {
    finalized(
        password,
        ristretto_mul(
            ristretto_mul(ristretto_mul(password_point(password), r), k),
            inverse_of(r, order()),
        ),
    )
}

/// Draws a key for the password function, shares it, and derives each server's key. For a
/// nonzero blinding factor the keys are those of the function value itself.
pub fn registration(n: usize, t: usize, password: &[u8], rng: &mut Rng) -> (r: RegistrationOut)
    requires
        1 <= t <= n,
    ensures
        r.k0@ == scalar_drawn(old(rng)@.skip(64)),
        r.msgs@.len() == n,
        forall|i: int|
            0 <= i < n ==> {
                let share = shares_of(
                    key_poly(t as nat, old(rng)@.skip(64)),
                    n as nat,
                    order(),
                )[i];
                &&& (#[trigger] r.msgs@[i]).server_id == share.0
                &&& r.msgs@[i].k_i@ == share.1
                &&& r.msgs@[i].h_i@ == hi_of(
                    registered_value(password@, scalar_drawn(old(rng)@), r.k0@),
                    share.0,
                )
            },
        scalar_drawn(old(rng)@) != 0 ==> registered_value(
            password@,
            scalar_drawn(old(rng)@),
            r.k0@,
        ) == password_value(password@, r.k0@),
        final(rng)@ == after_draws(old(rng)@.skip(64).skip(64), (t - 1) as nat),
{
    let blind = toprf::random_scalar(rng);
    let reg: Point = toprf_encode(password, blind);
    let ghost rng1 = rng@;
    let (k0, shares) = toprf::toprf_gen(n, t, rng);
    let res: Point = reg.scale(k0);
    let inv: Scalar = blind.inverse();
    let y: Point = res.scale(inv);
    proof {
        use_type_invariant(&k0);
        if blind@ != 0 {
            lemma_inverse_cancels(blind@, inv@, k0@, order());
            let a = (blind@ * k0@) % order();
            assert(res.enc() == Point::mul_of(password_point(password@), a));
        }
    }
    let h = toprf::oprf_finalize(password, &y);
    let ghost sv = share_vals(shares@);
    assert(sv.len() == n);
    let mut msgs: Vec<RegistrationMsg> = Vec::with_capacity(n);
    let mut i: usize = 0;
    while i < shares.len()
        invariant
            i <= shares@.len(),
            shares@.len() == n,
            sv == share_vals(shares@),
            msgs@.len() == i,
            forall|q: int|
                0 <= q < i ==> (#[trigger] msgs@[q]).server_id == sv[q].0 && msgs@[q].k_i@
                    == sv[q].1 && msgs@[q].h_i@ == hi_of(h@, sv[q].0),
        decreases shares@.len() - i,
    {
        let (server_id, k_i) = shares[i];
        assert(sv[i as int] == (server_id, k_i@));
        let h_i = hash_hi(&h, server_id);
        msgs.push(RegistrationMsg { server_id, k_i, h_i });
        i = i + 1;
    }
    RegistrationOut { k0, msgs }
}

/// What a server keeps of a client.
#[derive(Clone, Copy, Debug)]
pub struct ServerRecord {
    pub k_i: Scalar,
    pub h_i: [u8; 32],
}

/// What a record holds.
#[verifier::ext_equal]
pub struct RecordState {
    pub k_i: nat,
    pub h_i: Seq<u8>,
}

impl View for ServerRecord {
    type V = RecordState;

    open spec fn view(&self) -> RecordState {
        RecordState { k_i: self.k_i@, h_i: self.h_i@ }
    }
}

/// An authentication server.
#[derive(Clone)]
pub struct PastauServer {
    pub id: u32,
    pub ttg_share: TtgShare,
    pub records: Store<ServerRecord>,
}

/// What a server holds.
#[verifier::ext_equal]
pub struct ServerState {
    pub id: u32,
    pub ttg_share: nat,
    pub records: Map<Seq<u8>, RecordState>,
}

impl View for PastauServer {
    type V = ServerState;

    open spec fn view(&self) -> ServerState {
        ServerState {
            id: self.id,
            ttg_share: self.ttg_share@,
            records: self.records@.map_values(|r: ServerRecord| r@),
        }
    }
}

impl ServerState {
    /// The server with a client's record put in.
    pub open spec fn with_record(self, c: Seq<u8>, rec: RecordState) -> ServerState {
        ServerState { records: self.records.insert(c, rec), ..self }
    }
}

impl PastauServer {
    /// A server without clients.
    pub fn new(id: u32, ttg_share: TtgShare) -> (r: PastauServer)
        ensures
            r@ == (ServerState { id, ttg_share: ttg_share@, records: Map::empty() }),
    {
        let r = PastauServer { id, ttg_share, records: Store::new() };
        assert(r@.records =~= Map::<Seq<u8>, RecordState>::empty());
        r
    }

    /// A copy of the server.
    pub fn copy(&self) -> (r: PastauServer)
        ensures
            r@ == self@,
    {
        PastauServer { id: self.id, ttg_share: self.ttg_share, records: self.records.copy() }
    }

    /// Stores a client's registration.
    pub fn store(&mut self, c: ClientId, msg: &RegistrationMsg)
        requires
            old(self)@.id == msg.server_id,
        ensures
            final(self)@ == old(self)@.with_record(
                c.0@,
                RecordState { k_i: msg.k_i@, h_i: msg.h_i@ },
            ),
    {
        self.put_record(c, ServerRecord { k_i: msg.k_i, h_i: msg.h_i });
    }

    /// Puts a record in.
    pub fn put_record(&mut self, c: ClientId, rec: ServerRecord)
        ensures
            final(self)@ == old(self)@.with_record(c.0@, rec@),
    {
        let ghost before = self@;
        self.records.insert(c.0, rec);
        assert(self@.records =~= before.records.insert(c.0@, rec@));
    }

    /// Whether a client is registered.
    pub fn has_record(&self, c: ClientId) -> (r: bool)
        ensures
            r == self@.records.dom().contains(c.0@),
    {
        self.records.contains_key(&c.0)
    }

    /// What the server keeps of a client.
    pub fn get_record(&self, c: ClientId) -> (r: Option<&ServerRecord>)
        ensures
            r is Some <==> self@.records.dom().contains(c.0@),
            r matches Some(rec) ==> rec@ == self@.records[c.0@],
    {
        self.records.get(&c.0)
    }
}

impl PastauServer {
    /// What the server keeps of a client, for change.
    pub fn get_record_mut(&mut self, c: ClientId) -> (r: Option<&mut ServerRecord>)
        ensures
            match r {
                Some(rec) => {
                    &&& old(self)@.records.dom().contains(c.0@)
                    &&& rec@ == old(self)@.records[c.0@]
                    &&& final(self)@ == old(self)@.with_record(c.0@, (*final(rec))@)
                },
                None => !old(self)@.records.dom().contains(c.0@) && final(self)@ == old(self)@,
            },
    {
        self.records.get_mut(&c.0)
    }
}

/// What a client remembers of a request.
#[derive(Clone, Debug)]
pub struct ClientState {
    pub c: ClientId,
    pub password: Vec<u8>,
    pub rho: Scalar,
    pub t_set: Vec<u32>,
}

/// What a client sends to ask for a token.
#[derive(Clone, Copy, Debug)]
pub struct ClientRequest {
    pub c: ClientId,
    pub x: [u8; X_LEN],
    pub req: [u8; TOP_REQ_LEN],
}

/// The blinded password.
pub open spec fn blinded(password: Seq<u8>, rho: nat) -> Seq<u8> {
    ristretto_mul(password_point(password), rho)
}

/// Asks for a token with a drawn blinding factor.
pub fn request(
    c: ClientId,
    password: &[u8],
    x: [u8; X_LEN],
    t_set: &[u32],
    rng: &mut Rng,
) -> (r: (ClientState, ClientRequest))
    requires
        t_set@.len() > 0,
    ensures
        r.0.c == c,
        r.0.password@ == password@,
        r.0.rho@ == scalar_drawn(old(rng)@),
        r.0.t_set@ == t_set@,
        r.1.c == c,
        r.1.x == x,
        r.1.req@ == blinded(password@, scalar_drawn(old(rng)@)),
        final(rng)@ == old(rng)@.skip(64),
{
    let rho = toprf::random_scalar(rng);
    request_with_rho(c, password, x, t_set, rho)
}

/// Asks for a token with the given blinding factor.
pub fn request_with_rho(
    c: ClientId,
    password: &[u8],
    x: [u8; X_LEN],
    t_set: &[u32],
    rho: Scalar,
) -> (r: (ClientState, ClientRequest))
    requires
        t_set@.len() > 0,
    ensures
        r.0.c == c,
        r.0.password@ == password@,
        r.0.rho@ == rho@,
        r.0.t_set@ == t_set@,
        r.1.c == c,
        r.1.x == x,
        r.1.req@ == blinded(password@, rho@),
        blinds_password(r.1.req@, password@, rho@),
{
    let req_point: Point = toprf_encode(password, rho);
    let req_bytes = req_point.compress();
    let st = ClientState {
        c,
        password: bytes::copy_bytes(password),
        rho,
        t_set: copy_ids(t_set),
    };
    (st, ClientRequest { c, x, req: req_bytes })
}

/// `req` encodes the password's point multiplied by `rho`: its multiples are those of the
/// point by the product.
pub open spec fn blinds_password(req: Seq<u8>, password: Seq<u8>, rho: nat) -> bool {
    &&& ristretto_valid(req)
    &&& ristretto_valid(password_point(password))
    &&& forall|k: nat|
        k < order() ==> #[trigger] ristretto_mul(req, k) == ristretto_mul(
            password_point(password),
            (rho * k) % order(),
        )
}

/// A server's response.
#[derive(Clone, Copy, Debug)]
pub struct ServerResponse {
    pub server_id: u32,
    pub z_i: [u8; TOP_PARTIAL_LEN],
    pub ctxt_i: CtBlob<TTG_TOKEN_LEN>,
}

/// What a response holds.
#[verifier::ext_equal]
pub struct Response {
    pub server_id: u32,
    pub z_i: Seq<u8>,
    pub ctxt_i: Blob,
}

impl View for ServerResponse {
    type V = Response;

    open spec fn view(&self) -> Response {
        Response { server_id: self.server_id, z_i: self.z_i@, ctxt_i: self.ctxt_i@ }
    }
}

/// A server answers a registered client whose request is a group element.
pub open spec fn answers(srv: ServerState, c: Seq<u8>, req: Seq<u8>) -> bool {
    srv.records.dom().contains(c) && ristretto_valid(req)
}

/// The response of a server to a request for a token on `msg`.
pub open spec fn response(
    srv: ServerState,
    c: Seq<u8>,
    msg: Seq<u8>,
    req: Seq<u8>,
    nonce: Seq<u8>,
) -> Response {
    Response {
        server_id: srv.id,
        z_i: ristretto_mul(req, srv.records[c].k_i),
        ctxt_i: sealed(
            srv.records[c].h_i,
            no_aad(),
            g1_mul(token_base(msg), srv.ttg_share),
            nonce,
        ),
    }
}

/// What a client with the right key can make of a response.
pub open spec fn useful_response(
    resp: Response,
    srv: ServerState,
    c: Seq<u8>,
    msg: Seq<u8>,
) -> bool {
    let tkn = g1_mul(token_base(msg), srv.ttg_share);
    &&& ristretto_valid(resp.z_i)
    &&& opened(srv.records[c].h_i, no_aad(), resp.ctxt_i) == Some(tkn)
    &&& g1_valid(tkn)
    &&& g1_valid(token_base(msg))
}

/// The server's part of the password function alone.
pub fn respond_toprf_only(srv: &PastauServer, c: ClientId, req_bytes: &[u8; TOP_REQ_LEN]) -> (r:
    Option<[u8; TOP_PARTIAL_LEN]>)
    ensures
        r is Some <==> answers(srv@, c.0@, req_bytes@),
        r matches Some(z) ==> z@ == ristretto_mul(req_bytes@, srv@.records[c.0@].k_i)
            && ristretto_valid(z@),
{
    let rec = match srv.get_record(c) {
        Some(rec) => *rec,
        None => {
            return None;
        },
    };
    match Point::decompress(req_bytes) {
        Some(req_point) => Some(toprf_eval_share(rec.k_i, &req_point).compress()),
        None => None,
    }
}

/// The message that a token with payload `pld` is for.
pub open spec fn token_message(pld: Seq<u8>, c: Seq<u8>) -> Seq<u8> {
    pld + c
}

pub(crate) fn build_ttg_msg_stack(x: &[u8; X_LEN], c: &ClientId) -> (r: [u8; 64])
    ensures
        r@ == token_message(x@, c.0@),
{
    let both = cat2(x, &c.0);
    bytes::to_array::<64>(both.as_slice())
}

pub(crate) fn build_ttg_msg_heap(pld: &[u8], c: &ClientId) -> (r: Vec<u8>)
    ensures
        r@ == token_message(pld@, c.0@),
{
    cat2(pld, &c.0)
}

fn respond_on(
    srv: &PastauServer,
    c: ClientId,
    msg: &[u8],
    req_bytes: &[u8; TOP_REQ_LEN],
    nonce: &[u8; 24],
) -> (r: Option<ServerResponse>)
    ensures
        r is Some <==> answers(srv@, c.0@, req_bytes@),
        r matches Some(resp) ==> resp@ == response(srv@, c.0@, msg@, req_bytes@, nonce@)
            && useful_response(resp@, srv@, c.0@, msg@),
{
    let rec = match srv.get_record(c) {
        Some(rec) => *rec,
        None => {
            return None;
        },
    };
    let z_i = match respond_toprf_only(srv, c, req_bytes) {
        Some(z) => z,
        None => {
            return None;
        },
    };
    let y_i: G1 = ttg_part_eval(&srv.ttg_share, msg);
    let y_bytes = ttg_partial_to_bytes(&y_i);
    let aad: [u8; 0] = [];
    assert(aad@ =~= no_aad());
    let ctxt_i = aead::xchacha_encrypt_detached_with_nonce(&rec.h_i, &aad, &y_bytes, nonce);
    Some(ServerResponse { server_id: srv.id, z_i, ctxt_i })
}

/// Responds to a request for a token on a short payload, with a nonce from `rng`.
pub fn respond(
    srv: &PastauServer,
    c: ClientId,
    x: [u8; X_LEN],
    req_bytes: &[u8; TOP_REQ_LEN],
    rng: &mut Rng,
) -> (r: Option<ServerResponse>)
    ensures
        r is Some <==> answers(srv@, c.0@, req_bytes@),
        r matches Some(resp) ==> resp@ == response(
            srv@,
            c.0@,
            token_message(x@, c.0@),
            req_bytes@,
            old(rng)@.bytes(24),
        ) && useful_response(resp@, srv@, c.0@, token_message(x@, c.0@)),
        final(rng)@ == if r is Some {
            old(rng)@.skip(24)
        } else {
            old(rng)@
        },
{
    respond_var_payload(srv, c, &x, req_bytes, rng)
}

/// Responds to a request for a token on a short payload, with the given nonce.
pub fn respond_with_nonce(
    srv: &PastauServer,
    c: ClientId,
    x: [u8; X_LEN],
    req_bytes: &[u8; TOP_REQ_LEN],
    nonce: &[u8; 24],
) -> (r: Option<ServerResponse>)
    ensures
        r is Some <==> answers(srv@, c.0@, req_bytes@),
        r matches Some(resp) ==> resp@ == response(
            srv@,
            c.0@,
            token_message(x@, c.0@),
            req_bytes@,
            nonce@,
        ) && useful_response(resp@, srv@, c.0@, token_message(x@, c.0@)),
{
    let msg = build_ttg_msg_stack(&x, &c);
    respond_on(srv, c, &msg, req_bytes, nonce)
}

/// Responds to a request for a token on any payload, with a nonce from `rng`.
pub fn respond_var_payload(
    srv: &PastauServer,
    c: ClientId,
    payload: &[u8],
    req_bytes: &[u8; TOP_REQ_LEN],
    rng: &mut Rng,
) -> (r: Option<ServerResponse>)
    ensures
        r is Some <==> answers(srv@, c.0@, req_bytes@),
        r matches Some(resp) ==> resp@ == response(
            srv@,
            c.0@,
            token_message(payload@, c.0@),
            req_bytes@,
            old(rng)@.bytes(24),
        ) && useful_response(resp@, srv@, c.0@, token_message(payload@, c.0@)),
        final(rng)@ == if r is Some {
            old(rng)@.skip(24)
        } else {
            old(rng)@
        },
{
    if !srv.has_record(c) || Point::decompress(req_bytes).is_none() {
        return None;
    }
    let nonce = rng.take_array::<24>();
    respond_var_payload_with_nonce(srv, c, payload, req_bytes, &nonce)
}

/// Responds to a request for a token on any payload, with the given nonce.
pub fn respond_var_payload_with_nonce(
    srv: &PastauServer,
    c: ClientId,
    payload: &[u8],
    req_bytes: &[u8; TOP_REQ_LEN],
    nonce: &[u8; 24],
) -> (r: Option<ServerResponse>)
    ensures
        r is Some <==> answers(srv@, c.0@, req_bytes@),
        r matches Some(resp) ==> resp@ == response(
            srv@,
            c.0@,
            token_message(payload@, c.0@),
            req_bytes@,
            nonce@,
        ) && useful_response(resp@, srv@, c.0@, token_message(payload@, c.0@)),
{
    let msg = build_ttg_msg_heap(payload, &c);
    respond_on(srv, c, msg.as_slice(), req_bytes, nonce)
}

/// What a list of responses holds.
pub open spec fn responses(s: Seq<ServerResponse>) -> Seq<Response> {
    Seq::new(s.len(), |i: int| s[i]@)
}

/// The servers of a list of responses.
pub open spec fn responders(s: Seq<Response>) -> Seq<u32> {
    Seq::new(s.len(), |i: int| s[i].server_id)
}

/// The response of the server `sid`.
pub open spec fn response_of(s: Seq<Response>, sid: u32) -> Response {
    s[place_of(responders(s), sid)->Some_0]
}

/// The partial values of the password function, in the order of the servers.
pub open spec fn partial_values(s: Seq<Response>, ts: Seq<u32>) -> Seq<Seq<u8>> {
    Seq::new(ts.len(), |k: int| response_of(s, ts[k]).z_i)
}

/// The value of the password function that a client computes.
pub open spec fn computed_value(
    password: Seq<u8>,
    rho: nat,
    ts: Seq<u32>,
    s: Seq<Response>,
) -> Seq<u8> {
    unblinded_key(password, rho, partial_values(s, ts), weights(ts, order()))
}

/// The partial token of the server `sid` under the function value `h`.
pub open spec fn opened_partial(s: Seq<Response>, h: Seq<u8>, sid: u32) -> Option<Seq<u8>> {
    opened(hi_of(h, sid), no_aad(), response_of(s, sid).ctxt_i)
}

/// The partial tokens in the order of the servers.
pub open spec fn partial_tokens(s: Seq<Response>, h: Seq<u8>, ts: Seq<u32>) -> Seq<Seq<u8>> {
    Seq::new(ts.len(), |k: int| opened_partial(s, h, ts[k])->Some_0)
}

/// The responses come from exactly the servers asked, all values are group elements, and
/// all partial tokens open under the keys that the password gives and decode.
pub open spec fn finalize_accepts(
    password: Seq<u8>,
    rho: nat,
    t_set: Seq<u32>,
    s: Seq<Response>,
) -> bool {
    let ts = sorted(t_set);
    let h = computed_value(password, rho, ts, s);
    &&& s.len() == t_set.len()
    &&& sorted(responders(s)) == ts
    &&& forall|k: int| 0 <= k < ts.len() ==> ristretto_valid(response_of(s, #[trigger] ts[k]).z_i)
    &&& forall|k: int|
        0 <= k < ts.len() ==> (opened_partial(s, h, #[trigger] ts[k]) matches Some(y) && g1_valid(
            y,
        ))
}

/// The responses are those of servers that share, on the polynomial `kc`, the key of the
/// password function and, on the polynomial `gc`, the token key, to a request that
/// blinds the password.
pub open spec fn honest_responses(
    password: Seq<u8>,
    rho: nat,
    t_set: Seq<u32>,
    s: Seq<Response>,
    req: Seq<u8>,
    base: Seq<u8>,
    kc: Seq<int>,
    gc: Seq<int>,
) -> bool {
    let ts = sorted(t_set);
    let h = password_value(password, (eval(kc, 0) % (order() as int)) as nat);
    &&& s.len() == t_set.len()
    &&& sorted(responders(s)) == ts
    &&& rho != 0
    &&& blinds_password(req, password, rho)
    &&& distinct(ts)
    &&& kc.len() <= ts.len()
    &&& gc.len() <= ts.len()
    &&& g1_valid(base)
    &&& forall|k: int|
        0 <= k < ts.len() ==> {
            let a = (eval(kc, ts[k] as int) % (order() as int)) as nat;
            let b = (eval(gc, ts[k] as int) % (crate::bls::order() as int)) as nat;
            &&& response_of(s, #[trigger] ts[k]).z_i == ristretto_mul(req, a)
            &&& ristretto_valid(response_of(s, ts[k]).z_i)
            &&& opened_partial(s, h, ts[k]) == Some(g1_mul(base, b))
            &&& g1_valid(g1_mul(base, b))
        }
}

/// Recovers the function value, opens the partial tokens and combines them. The
/// responses of enough servers that share the keys give the token of the shared key.
#[verifier::rlimit(60)]
#[verifier::loop_isolation(false)]
pub fn finalize(st: &ClientState, resps: &[ServerResponse]) -> (r: Option<TtgToken>)
    ensures
        r is Some <==> finalize_accepts(
            st.password@,
            st.rho@,
            st.t_set@,
            responses(resps@),
        ),
        r matches Some(tk) ==> tk@ == combined_at_zero::<G1>(
            sorted(st.t_set@),
            partial_tokens(
                responses(resps@),
                computed_value(st.password@, st.rho@, sorted(st.t_set@), responses(resps@)),
                sorted(st.t_set@),
            ),
        ) && g1_valid(tk@),
        forall|req: Seq<u8>, base: Seq<u8>, kc: Seq<int>, gc: Seq<int>| #[trigger]
            honest_responses(
                st.password@,
                st.rho@,
                st.t_set@,
                responses(resps@),
                req,
                base,
                kc,
                gc,
            ) ==> (r matches Some(tk) && tk@ == g1_mul(
                base,
                (eval(gc, 0) % (crate::bls::order() as int)) as nat,
            )),
{
    let ghost s = responses(resps@);
    if resps.len() != st.t_set.len() {
        return None;
    }
    let mut ids: Vec<u32> = Vec::with_capacity(resps.len());
    let mut i: usize = 0;
    while i < resps.len()
        invariant
            i <= resps@.len(),
            ids@.len() == i,
            forall|k: int| 0 <= k < i ==> ids@[k] == resps@[k].server_id,
        decreases resps@.len() - i,
    {
        ids.push(resps[i].server_id);
        i = i + 1;
    }
    assert(ids@ =~= responders(s));
    let ids_sorted = sort_ids(ids.as_slice());
    let ts = sort_ids(st.t_set.as_slice());
    if !same_ids(ids_sorted.as_slice(), ts.as_slice()) {
        return None;
    }
    proof {
        lemma_sorted(ids@);
        assert forall|k: int| 0 <= k < ts@.len() implies ids@.contains(#[trigger] ts@[k]) by {
            assert(sorted(ids@).contains(ts@[k]));
        }
    }
    let lambdas: Vec<Scalar> = lagrange_coeffs_at_zero::<Scalar>(ts.as_slice());
    assert(vals(lambdas@).len() == ts@.len());
    let mut partials: Vec<Point> = Vec::with_capacity(resps.len());
    let mut k: usize = 0;
    while k < ts.len()
        invariant
            k <= ts@.len(),
            partials@.len() == k,
            forall|q: int|
                0 <= q < k ==> ristretto_valid(response_of(s, #[trigger] ts@[q]).z_i)
                    && partials@[q]@ == response_of(s, ts@[q]).z_i,
        decreases ts@.len() - k,
    {
        assert(ids@.contains(ts@[k as int]));
        let at = match find_id(ids.as_slice(), ts[k]) {
            Some(at) => at,
            None => {
                return None;
            },
        };
        assert(s[at as int] == resps@[at as int]@);
        assert(response_of(s, ts@[k as int]) == s[at as int]);
        match Point::decompress(&resps[at].z_i) {
            Some(p) => {
                partials.push(p);
            },
            None => {
                assert(!ristretto_valid(response_of(s, ts@[k as int]).z_i));
                return None;
            },
        }
        k = k + 1;
    }
    assert(encs(partials@) =~= partial_values(s, ts@));
    let h = toprf::toprf_client_eval_from_partials(
        st.password.as_slice(),
        st.rho,
        partials.as_slice(),
        lambdas.as_slice(),
    );
    assert(h@ == computed_value(st.password@, st.rho@, ts@, s));
    proof {
        assert forall|req: Seq<u8>, base: Seq<u8>, kc: Seq<int>, gc: Seq<int>| #[trigger]
            honest_responses(st.password@, st.rho@, st.t_set@, s, req, base, kc, gc) implies h@
            == password_value(st.password@, (eval(kc, 0) % (order() as int)) as nat) by {
            let k0 = (eval(kc, 0) % (order() as int)) as nat;
            lemma_recovery(vals(lambdas@), ts@, kc, order());
            let ys = values_at(kc, ts@, order());
            assert forall|q: int| 0 <= q < ys.len() implies 0 <= ys[q] < order()
                && #[trigger] encs(partials@)[q] == ristretto_mul(req, ys[q] as nat) by {
                assert(response_of(s, ts@[q]).z_i == encs(partials@)[q]);
            }
            assert(are_multiples::<Point>(encs(partials@), req, ys));
            assert(ristretto_mul(req, k0) == ristretto_mul(
                password_point(st.password@),
                (st.rho@ * k0) % order(),
            ));
        }
    }
    let aad: [u8; 0] = [];
    assert(aad@ =~= no_aad());
    let mut tokens: Vec<G1> = Vec::with_capacity(resps.len());
    let mut j: usize = 0;
    while j < ts.len()
        invariant
            j <= ts@.len(),
            tokens@.len() == j,
            forall|q: int|
                0 <= q < j ==> (opened_partial(s, h@, #[trigger] ts@[q]) matches Some(y)
                    && g1_valid(y) && tokens@[q]@ == y),
        decreases ts@.len() - j,
    {
        let sid = ts[j];
        assert(ids@.contains(ts@[j as int]));
        let at = match find_id(ids.as_slice(), sid) {
            Some(at) => at,
            None => {
                return None;
            },
        };
        assert(s[at as int] == resps@[at as int]@);
        assert(response_of(s, ts@[j as int]) == s[at as int]);
        let h_i = hash_hi(&h, sid);
        let y_bytes = match aead::xchacha_decrypt_detached(&h_i, &aad, &resps[at].ctxt_i) {
            Ok(y) => y,
            Err(_) => {
                assert(opened_partial(s, h@, ts@[j as int]) is None);
                return None;
            },
        };
        assert(opened_partial(s, h@, ts@[j as int]) == Some(y_bytes@));
        match ttg_token_from_partial_bytes(&y_bytes) {
            Some(p) => {
                tokens.push(p);
            },
            None => {
                return None;
            },
        }
        j = j + 1;
    }
    assert(encs(tokens@) =~= partial_tokens(s, h@, ts@));
    let tk = ttg_combine(ts.as_slice(), tokens.as_slice());
    proof {
        assert forall|req: Seq<u8>, base: Seq<u8>, kc: Seq<int>, gc: Seq<int>| #[trigger]
            honest_responses(st.password@, st.rho@, st.t_set@, s, req, base, kc, gc) implies tk@
            == g1_mul(base, (eval(gc, 0) % (crate::bls::order() as int)) as nat) by {
            let ys = values_at(gc, ts@, crate::bls::order());
            assert forall|q: int| 0 <= q < ys.len() implies 0 <= ys[q] < crate::bls::order()
                && #[trigger] encs(tokens@)[q] == G1::mul_of(base, ys[q] as nat) by {
                assert(opened_partial(s, h@, ts@[q]) == Some(encs(tokens@)[q]));
            }
            assert(on_polynomial::<G1>(encs(tokens@), base, ts@, gc));
        }
    }
    Some(tk)
}

/// Verifies a token on a short payload.
pub fn verify(vk: &TtgVk, c: ClientId, x: [u8; X_LEN], tk: &TtgToken) -> (r: bool)
    ensures
        r == token_verifies(vk@, token_message(x@, c.0@), tk@),
{
    let msg = build_ttg_msg_stack(&x, &c);
    ttg_verify(vk, &msg, tk)
}

/// Verifies a token on any payload.
pub fn verify_var_payload(vk: &TtgVk, c: ClientId, payload: &[u8], tk: &TtgToken) -> (r: bool)
    ensures
        r == token_verifies(vk@, token_message(payload@, c.0@), tk@),
{
    let msg = build_ttg_msg_heap(payload, &c);
    ttg_verify(vk, msg.as_slice(), tk)
}

} // verus!
