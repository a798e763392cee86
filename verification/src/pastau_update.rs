//! Change of a client's password, carried out by a token on the new server keys.
use vstd::prelude::*;

use crate::aead::{self, opened, sealed, Blob, CtBlob};
use crate::augsso_auth::{after_nonces, no_aad};
use crate::bls::{g1_mul, g1_valid, g2_of, G1};
use crate::bytes::{self, cat2, cat3, push_bytes};
use crate::crypto_pastau::{
    hash_hi, hi_of, toprf_encode, token_base, token_verifies, ttg_verify, TtgToken, TtgVk,
};
use crate::field::{distinct, lagrange_coeffs_at_zero, vals, weights, Field};
use crate::group::{are_multiples, combined_at_zero, encs, lemma_recovery, values_at};
use crate::ids::{copy_ids, lemma_only_place, lemma_sorted, sorted};
use crate::interpolation::eval;
use crate::pastau::{
    blinded, blinds_password, computed_value, finalize, finalize_accepts, honest_responses,
    opened_partial, partial_tokens, password_value, respond_toprf_only, respond_var_payload,
    responders, response, response_of, responses, token_message, useful_response, ClientId,
    ClientState, PastauServer, RecordState, Response, ServerResponse, ServerState, TOP_PARTIAL_LEN,
    UID_LEN, UPDATE_BLOB_LEN, UPDATE_PT_LEN,
};
use crate::ristretto::{order, ristretto_mul, ristretto_valid, Point, Scalar};
use crate::rng::{Rng, RngState};
use crate::toprf::{self, password_point, scalar_drawn, unblinded_key};

verus! {

/// What a client sends to change its password, and the new keys of all servers.
#[derive(Clone, Debug)]
pub struct PasswordUpdateClientOut {
    pub pld3: Vec<u8>,
    pub tk_pld3: TtgToken,
    pub new_hi: Vec<[u8; 32]>,
}

/// The blob that 104 bytes hold.
pub open spec fn blob_in(b: Seq<u8>) -> Blob {
    Blob { nonce: b.subrange(0, 24), ct: b.subrange(24, 88), tag: b.subrange(88, 104) }
}

/// Writes a blob out.
pub(crate) fn serialize_update_blob(blob: &CtBlob<UPDATE_PT_LEN>) -> (r: [u8; UPDATE_BLOB_LEN])
    ensures
        r@ == blob@.flat(),
{
    let all = cat3(&blob.nonce, &blob.ct, &blob.tag);
    bytes::to_array::<UPDATE_BLOB_LEN>(all.as_slice())
}

/// Reads a blob.
pub(crate) fn deserialize_update_blob(b: &[u8; UPDATE_BLOB_LEN]) -> (r: CtBlob<UPDATE_PT_LEN>)
    ensures
        r@ == blob_in(b@),
{
    let nonce = bytes::piece::<24>(b, 0);
    let ct = bytes::piece::<UPDATE_PT_LEN>(b, 24);
    let tag = bytes::piece::<16>(b, 88);
    CtBlob { nonce, ct, tag }
}

/// Reading a blob undoes writing it.
pub proof fn update_blob_reads_back(blob: Blob)
    requires
        blob.nonce.len() == 24,
        blob.ct.len() == 64,
        blob.tag.len() == 16,
    ensures
        blob.flat().len() == UPDATE_BLOB_LEN,
        blob_in(blob.flat()) == blob,
{
    let b = blob.flat();
    assert(b.subrange(0, 24) =~= blob.nonce);
    assert(b.subrange(24, 88) =~= blob.ct);
    assert(b.subrange(88, 104) =~= blob.tag);
}

/// Writing a blob undoes reading it.
pub proof fn update_blob_writes_back(b: Seq<u8>)
    requires
        b.len() == UPDATE_BLOB_LEN,
    ensures
        blob_in(b).flat() == b,
{
    assert(blob_in(b).flat() =~= b);
}

/// Recovers the function value from partial values, if all are group elements.
fn derive_h_from_toprf_partials(
    password: &[u8],
    rho: Scalar,
    ids: &[u32],
    z_bytes: &Vec<[u8; TOP_PARTIAL_LEN]>,
) -> (r: Option<[u8; 32]>)
    requires
        ids@.len() == z_bytes@.len(),
    ensures
        r is Some <==> forall|k: int|
            0 <= k < z_bytes@.len() ==> ristretto_valid((#[trigger] z_bytes@[k])@),
        r matches Some(h) ==> {
            let zs = Seq::new(z_bytes@.len(), |k: int| z_bytes@[k]@);
            &&& h@ == unblinded_key(password@, rho@, zs, weights(ids@, order()))
            &&& forall|req: Seq<u8>, kc: Seq<int>|
                rho@ != 0 && distinct(ids@) && kc.len() <= ids@.len() && blinds_password(
                    req,
                    password@,
                    rho@,
                ) && #[trigger] are_multiples::<Point>(zs, req, values_at(kc, ids@, order()))
                    ==> h@ == password_value(
                    password@,
                    (eval(kc, 0) % (order() as int)) as nat,
                )
        },
{
    let ghost zs = Seq::new(z_bytes@.len(), |k: int| z_bytes@[k]@);
    let lambdas: Vec<Scalar> = lagrange_coeffs_at_zero::<Scalar>(ids);
    assert(vals(lambdas@).len() == ids@.len());
    let mut partials: Vec<Point> = Vec::with_capacity(z_bytes.len());
    let mut k: usize = 0;
    while k < z_bytes.len()
        invariant
            k <= z_bytes@.len(),
            partials@.len() == k,
            forall|q: int|
                0 <= q < k ==> ristretto_valid((#[trigger] z_bytes@[q])@) && partials@[q]@
                    == z_bytes@[q]@,
        decreases z_bytes@.len() - k,
    {
        match Point::decompress(&z_bytes[k]) {
            Some(p) => {
                partials.push(p);
            },
            None => {
                assert(!ristretto_valid(z_bytes@[k as int]@));
                return None;
            },
        }
        k = k + 1;
    }
    assert(encs(partials@) =~= zs);
    let h = toprf::toprf_client_eval_from_partials(
        password,
        rho,
        partials.as_slice(),
        lambdas.as_slice(),
    );
    proof {
        assert forall|req: Seq<u8>, kc: Seq<int>|
            rho@ != 0 && distinct(ids@) && kc.len() <= ids@.len() && blinds_password(
                req,
                password@,
                rho@,
            ) && #[trigger] are_multiples::<Point>(
                zs,
                req,
                values_at(kc, ids@, order()),
            ) implies h@ == password_value(
            password@,
            (eval(kc, 0) % (order() as int)) as nat,
        ) by {
            let k0 = (eval(kc, 0) % (order() as int)) as nat;
            lemma_recovery(vals(lambdas@), ids@, kc, order());
            assert(ristretto_mul(req, k0) == ristretto_mul(
                password_point(password@),
                (rho@ * k0) % order(),
            ));
        }
    }
    Some(h)
}

/// The keys of `n` servers under the function value `h`.
pub open spec fn all_hi(h: Seq<u8>, n: nat) -> Seq<Seq<u8>> {
    Seq::new(n, |i: int| hi_of(h, (i + 1) as u32))
}

/// Keys as sequences.
pub open spec fn key_seqs(v: Seq<[u8; 32]>) -> Seq<Seq<u8>> {
    Seq::new(v.len(), |i: int| v[i]@)
}

/// Derives the keys of `n` servers.
pub fn derive_all_hi(h: &[u8; 32], n: usize) -> (r: Vec<[u8; 32]>)
    requires
        n <= u32::MAX,
    ensures
        key_seqs(r@) == all_hi(h@, n as nat),
        r@.len() == n,
{
    let mut r: Vec<[u8; 32]> = Vec::with_capacity(n);
    let mut i: usize = 0;
    while i < n
        invariant
            i <= n,
            n <= u32::MAX,
            r@.len() == i,
            forall|k: int| 0 <= k < i ==> (#[trigger] r@[k])@ == hi_of(h@, (k + 1) as u32),
        decreases n - i,
    {
        r.push(hash_hi(h, (i + 1) as u32));
        i = i + 1;
    }
    assert(key_seqs(r@) =~= all_hi(h@, n as nat));
    r
}

/// What a list of servers holds.
pub open spec fn server_states(s: Seq<PastauServer>) -> Seq<ServerState> {
    Seq::new(s.len(), |i: int| s[i]@)
}

/// The server `sid` exists and knows the client.
pub open spec fn reachable(servers: Seq<ServerState>, c: Seq<u8>, sid: u32) -> bool {
    1 <= sid <= servers.len() && servers[sid - 1].records.dom().contains(c)
}

/// The partial values of the servers in `t_set` for a request.
pub open spec fn toprf_values(
    servers: Seq<ServerState>,
    c: Seq<u8>,
    t_set: Seq<u32>,
    req: Seq<u8>,
) -> Seq<Seq<u8>> {
    Seq::new(t_set.len(), |k: int| ristretto_mul(req, servers[t_set[k] - 1].records[c].k_i))
}

/// The function value that a client computes with the servers in `t_set`.
pub open spec fn value_with(
    servers: Seq<ServerState>,
    c: Seq<u8>,
    t_set: Seq<u32>,
    password: Seq<u8>,
    rho: nat,
) -> Seq<u8> {
    unblinded_key(
        password,
        rho,
        toprf_values(servers, c, t_set, blinded(password, rho)),
        weights(t_set, order()),
    )
}

/// The encrypted old and new keys of the server at place `i`.
pub open spec fn key_change(h_old: Seq<u8>, h_new: Seq<u8>, i: int, rng: RngState) -> Blob {
    let sid = (i + 1) as u32;
    sealed(
        hi_of(h_old, sid),
        no_aad(),
        hi_of(h_old, sid) + hi_of(h_new, sid),
        after_nonces(rng, i as nat).bytes(24),
    )
}

/// The encrypted keys of the first `n` servers, one after the other.
pub open spec fn update_body(h_old: Seq<u8>, h_new: Seq<u8>, n: nat, rng: RngState) -> Seq<u8>
    decreases n,
{
    if n == 0 {
        Seq::empty()
    } else {
        update_body(h_old, h_new, (n - 1) as nat, rng) + key_change(
            h_old,
            h_new,
            n - 1,
            rng,
        ).flat()
    }
}

/// The responses of the servers in `t_set` to a request for a token.
pub open spec fn token_responses(
    servers: Seq<ServerState>,
    c: Seq<u8>,
    t_set: Seq<u32>,
    msg: Seq<u8>,
    req: Seq<u8>,
    rng: RngState,
) -> Seq<Response> {
    Seq::new(
        t_set.len(),
        |k: int|
            response(servers[t_set[k] - 1], c, msg, req, after_nonces(rng, k as nat).bytes(24)),
    )
}

/// What a password update sends, in order of the steps that can fail: no servers or none
/// asked, a server that does not know the client, a token that cannot be made, a token
/// that does not verify. With it comes the generator as the step leaves it.
pub open spec fn update_outcome(
    servers: Seq<ServerState>,
    c: Seq<u8>,
    old_password: Seq<u8>,
    new_password: Seq<u8>,
    vk: Seq<u8>,
    t_set: Seq<u32>,
    rng: RngState,
) -> (Option<(Seq<u8>, Seq<u8>, Seq<Seq<u8>>)>, RngState) {
    let n = servers.len();
    let rho1 = scalar_drawn(rng);
    let rng1 = rng.skip(64);
    let rho2 = scalar_drawn(rng1);
    let rng2 = rng1.skip(64);
    let h_old = value_with(servers, c, t_set, old_password, rho1);
    let h_new = value_with(servers, c, t_set, new_password, rho2);
    let body = update_body(h_old, h_new, n, rng2);
    let rng3 = after_nonces(rng2, n);
    let rho3 = scalar_drawn(rng3);
    let rng4 = rng3.skip(64);
    let msg = token_message(body, c);
    let resps = token_responses(servers, c, t_set, msg, blinded(old_password, rho3), rng4);
    let rng5 = after_nonces(rng4, t_set.len());
    let ts = sorted(t_set);
    let tk = combined_at_zero::<G1>(
        ts,
        partial_tokens(resps, computed_value(old_password, rho3, ts, resps), ts),
    );
    if n == 0 || t_set.len() == 0 {
        (None, rng)
    } else if exists|k: int|
        0 <= k < t_set.len() && !reachable(servers, c, #[trigger] t_set[k]) {
        (None, rng1)
    } else if !finalize_accepts(old_password, rho3, t_set, resps) || !token_verifies(vk, msg, tk) {
        (None, rng5)
    } else {
        (Some((msg, tk, all_hi(h_new, n))), rng5)
    }
}

/// The servers share, on the polynomials `kc` and `gc`, the key of the password function
/// and the token key, and hold the keys that the password gives.
pub open spec fn servers_sound(
    servers: Seq<ServerState>,
    c: Seq<u8>,
    password: Seq<u8>,
    kc: Seq<int>,
    gc: Seq<int>,
) -> bool {
    let h = password_value(password, (eval(kc, 0) % (order() as int)) as nat);
    forall|i: int|
        0 <= i < servers.len() ==> (#[trigger] servers[i]) == sound_server(i, c, h, kc, gc)
}

/// What the server at place `i` holds.
pub open spec fn sound_server(
    i: int,
    c: Seq<u8>,
    h: Seq<u8>,
    kc: Seq<int>,
    gc: Seq<int>,
) -> ServerState {
    ServerState {
        id: (i + 1) as u32,
        ttg_share: (eval(gc, i + 1) % (crate::bls::order() as int)) as nat,
        records: Map::empty().insert(
            c,
            RecordState {
                k_i: (eval(kc, i + 1) % (order() as int)) as nat,
                h_i: hi_of(h, (i + 1) as u32),
            },
        ),
    }
}

/// Enough distinct servers of the list are asked.
pub open spec fn enough_asked(n: nat, t_set: Seq<u32>, kc: Seq<int>, gc: Seq<int>) -> bool {
    &&& t_set.len() > 0
    &&& distinct(t_set)
    &&& kc.len() <= t_set.len()
    &&& gc.len() <= t_set.len()
    &&& forall|k: int| 0 <= k < t_set.len() ==> 1 <= #[trigger] t_set[k] <= n
}

/// Asks the servers in `t_set` for partial values.
fn ask_values(
    servers: &[PastauServer],
    c: ClientId,
    t_set: &[u32],
    req: &[u8; 32],
) -> (r: Option<Vec<[u8; TOP_PARTIAL_LEN]>>)
    requires
        forall|k: int| 0 <= k < t_set@.len() ==> #[trigger] t_set@[k] >= 1,
        ristretto_valid(req@),
    ensures
        r is Some <==> forall|k: int|
            0 <= k < t_set@.len() ==> reachable(
                server_states(servers@),
                c.0@,
                #[trigger] t_set@[k],
            ),
        r matches Some(zs) ==> {
            &&& zs@.len() == t_set@.len()
            &&& key_seqs(zs@) == toprf_values(server_states(servers@), c.0@, t_set@, req@)
            &&& forall|k: int| 0 <= k < zs@.len() ==> ristretto_valid((#[trigger] zs@[k])@)
        },
{
    let ghost ss = server_states(servers@);
    let mut zs: Vec<[u8; TOP_PARTIAL_LEN]> = Vec::with_capacity(t_set.len());
    let mut k: usize = 0;
    while k < t_set.len()
        invariant
            k <= t_set@.len(),
            ss == server_states(servers@),
            ristretto_valid(req@),
            forall|q: int| 0 <= q < t_set@.len() ==> #[trigger] t_set@[q] >= 1,
            zs@.len() == k,
            forall|q: int|
                0 <= q < k ==> reachable(ss, c.0@, #[trigger] t_set@[q]) && zs@[q]@
                    == ristretto_mul(req@, ss[t_set@[q] - 1].records[c.0@].k_i)
                    && ristretto_valid(zs@[q]@),
        decreases t_set@.len() - k,
    {
        assert(t_set@[k as int] >= 1);
        let at: usize = (t_set[k] - 1) as usize;
        if at >= servers.len() {
            assert(!reachable(ss, c.0@, t_set@[k as int]));
            return None;
        }
        assert(ss[at as int] == servers@[at as int]@);
        match respond_toprf_only(&servers[at], c, req) {
            Some(z) => {
                zs.push(z);
            },
            None => {
                assert(!reachable(ss, c.0@, t_set@[k as int]));
                return None;
            },
        }
        k = k + 1;
    }
    proof {
        assert forall|q: int| 0 <= q < zs@.len() implies ristretto_valid((#[trigger] zs@[q])@) by {
            assert(reachable(ss, c.0@, t_set@[q]));
        }
        assert forall|q: int| 0 <= q < zs@.len() implies #[trigger] key_seqs(zs@)[q]
            == toprf_values(ss, c.0@, t_set@, req@)[q] by {
            assert(reachable(ss, c.0@, t_set@[q]));
        }
    }
    assert(key_seqs(zs@) =~= toprf_values(ss, c.0@, t_set@, req@));
    Some(zs)
}

pub proof fn lemma_body(h_old: Seq<u8>, h_new: Seq<u8>, n: nat, rng: RngState, i: int)
    requires
        0 <= i < n,
        forall|k: int|
            0 <= k < n ==> (#[trigger] key_change(h_old, h_new, k, rng)).flat().len()
                == UPDATE_BLOB_LEN,
    ensures
        update_body(h_old, h_new, n, rng).len() == n * 104,
        update_body(h_old, h_new, n, rng).subrange(i * 104, i * 104 + 104) == key_change(
            h_old,
            h_new,
            i,
            rng,
        ).flat(),
    decreases n,
{
    let m = (n - 1) as nat;
    let front = update_body(h_old, h_new, m, rng);
    let whole = update_body(h_old, h_new, n, rng);
    assert(key_change(h_old, h_new, m as int, rng).flat().len() == 104);
    if m == 0 {
        assert(front.len() == 0);
    } else {
        if i < m {
            lemma_body(h_old, h_new, m, rng, i);
        } else {
            lemma_body(h_old, h_new, m, rng, 0);
        }
    }
    assert(front.len() == m * 104);
    if i < m {
        assert(i * 104 + 104 <= m * 104) by (nonlinear_arith)
            requires
                i < m,
        ;
        assert(whole.subrange(i * 104, i * 104 + 104) =~= front.subrange(
            i * 104,
            i * 104 + 104,
        ));
    } else {
        assert(whole.subrange(i * 104, i * 104 + 104) =~= key_change(
            h_old,
            h_new,
            i,
            rng,
        ).flat());
    }
}

/// Encrypts the old and new keys of all servers. Each server can open its own.
fn build_body(
    old_hi: &Vec<[u8; 32]>,
    new_hi: &Vec<[u8; 32]>,
    Ghost(h_old): Ghost<Seq<u8>>,
    Ghost(h_new): Ghost<Seq<u8>>,
    rng: &mut Rng,
) -> (r: Vec<u8>)
    requires
        old_hi@.len() == new_hi@.len(),
        key_seqs(old_hi@) == all_hi(h_old, old_hi@.len()),
        key_seqs(new_hi@) == all_hi(h_new, old_hi@.len()),
        old_hi@.len() <= u32::MAX,
    ensures
        r@ == update_body(h_old, h_new, old_hi@.len(), old(rng)@),
        final(rng)@ == after_nonces(old(rng)@, old_hi@.len()),
        forall|i: int|
            0 <= i < old_hi@.len() ==> {
                let blob = #[trigger] key_change(h_old, h_new, i, old(rng)@);
                let sid = (i + 1) as u32;
                &&& blob.nonce.len() == 24
                &&& blob.ct.len() == 64
                &&& blob.tag.len() == 16
                &&& opened(hi_of(h_old, sid), no_aad(), blob) == Some(
                    hi_of(h_old, sid) + hi_of(h_new, sid),
                )
                &&& hi_of(h_old, sid).len() == 32
                &&& hi_of(h_new, sid).len() == 32
            },
{
    let ghost r0 = rng@;
    let aad: [u8; 0] = [];
    assert(aad@ =~= no_aad());
    let mut body: Vec<u8> = Vec::new();
    let mut i: usize = 0;
    assert(body@ =~= update_body(h_old, h_new, 0, r0));
    while i < old_hi.len()
        invariant
            i <= old_hi@.len(),
            old_hi@.len() == new_hi@.len(),
            old_hi@.len() <= u32::MAX,
            key_seqs(old_hi@) == all_hi(h_old, old_hi@.len()),
            key_seqs(new_hi@) == all_hi(h_new, old_hi@.len()),
            aad@ == no_aad(),
            body@ == update_body(h_old, h_new, i as nat, r0),
            rng@ == after_nonces(r0, i as nat),
            forall|k: int|
                0 <= k < i ==> {
                    let blob = #[trigger] key_change(h_old, h_new, k, r0);
                    let sid = (k + 1) as u32;
                    &&& blob.nonce.len() == 24
                    &&& blob.ct.len() == 64
                    &&& blob.tag.len() == 16
                    &&& opened(hi_of(h_old, sid), no_aad(), blob) == Some(
                        hi_of(h_old, sid) + hi_of(h_new, sid),
                    )
                    &&& hi_of(h_old, sid).len() == 32
                    &&& hi_of(h_new, sid).len() == 32
                },
        decreases old_hi@.len() - i,
    {
        proof {
            assert(key_seqs(old_hi@)[i as int] == hi_of(h_old, (i + 1) as u32));
            assert(key_seqs(new_hi@)[i as int] == hi_of(h_new, (i + 1) as u32));
        }
        let both = cat2(&old_hi[i], &new_hi[i]);
        let pt = bytes::to_array::<UPDATE_PT_LEN>(both.as_slice());
        let blob = aead::xchacha_encrypt_detached(&old_hi[i], &aad, &pt, rng);
        assert(blob@ == key_change(h_old, h_new, i as int, r0));
        let b = serialize_update_blob(&blob);
        push_bytes(&mut body, &b);
        i = i + 1;
    }
    body
}

/// Encrypts the old and new keys of `n` servers under the old ones. Each server can open its
/// own.
pub fn make_update_body(h_old: &[u8; 32], h_new: &[u8; 32], n: usize, rng: &mut Rng) -> (r: Vec<u8>)
    requires
        n <= u32::MAX,
    ensures
        r@ == update_body(h_old@, h_new@, n as nat, old(rng)@),
        final(rng)@ == after_nonces(old(rng)@, n as nat),
        n > 0 ==> forall|c: Seq<u8>|
            c.len() == 32 ==> update_is_for(#[trigger] (r@ + c), c, h_old@, h_new@, n as nat),
{
    let ghost r0 = rng@;
    let old_hi = derive_all_hi(h_old, n);
    let new_hi = derive_all_hi(h_new, n);
    let body = build_body(&old_hi, &new_hi, Ghost(h_old@), Ghost(h_new@), rng);
    proof {
        if n > 0 {
            assert forall|c: Seq<u8>| c.len() == 32 implies update_is_for(
                #[trigger] (body@ + c),
                c,
                h_old@,
                h_new@,
                n as nat,
            ) by {
                lemma_update_is_for(h_old@, h_new@, n as nat, r0, c);
            }
        }
    }
    body
}

/// Asks the servers in `t_set` for a token on a payload.
#[verifier::rlimit(40)]
fn ask_token(
    servers: &[PastauServer],
    c: ClientId,
    t_set: &[u32],
    payload: &[u8],
    req: &[u8; 32],
    rng: &mut Rng,
) -> (r: Option<Vec<ServerResponse>>)
    requires
        ristretto_valid(req@),
        forall|k: int|
            0 <= k < t_set@.len() ==> reachable(
                server_states(servers@),
                c.0@,
                #[trigger] t_set@[k],
            ),
    ensures
        r matches Some(resps) && responses(resps@) == token_responses(
            server_states(servers@),
            c.0@,
            t_set@,
            token_message(payload@, c.0@),
            req@,
            old(rng)@,
        ) && resps@.len() == t_set@.len() && forall|k: int|
            0 <= k < t_set@.len() ==> useful_response(
                (#[trigger] resps@[k])@,
                server_states(servers@)[t_set@[k] - 1],
                c.0@,
                token_message(payload@, c.0@),
            ),
        final(rng)@ == after_nonces(old(rng)@, t_set@.len()),
{
    let ghost ss = server_states(servers@);
    let ghost r0 = rng@;
    let ghost msg = token_message(payload@, c.0@);
    let ghost want = token_responses(ss, c.0@, t_set@, msg, req@, r0);
    let mut resps: Vec<ServerResponse> = Vec::with_capacity(t_set.len());
    let mut k: usize = 0;
    while k < t_set.len()
        invariant
            k <= t_set@.len(),
            ss == server_states(servers@),
            msg == token_message(payload@, c.0@),
            want == token_responses(ss, c.0@, t_set@, msg, req@, r0),
            ristretto_valid(req@),
            forall|q: int| 0 <= q < t_set@.len() ==> reachable(ss, c.0@, #[trigger] t_set@[q]),
            rng@ == after_nonces(r0, k as nat),
            resps@.len() == k,
            forall|q: int|
                0 <= q < k ==> (#[trigger] resps@[q])@ == want[q] && useful_response(
                    resps@[q]@,
                    ss[t_set@[q] - 1],
                    c.0@,
                    msg,
                ),
        decreases t_set@.len() - k,
    {
        assert(reachable(ss, c.0@, t_set@[k as int]));
        let at: usize = (t_set[k] - 1) as usize;
        assert(ss[at as int] == servers@[at as int]@);
        match respond_var_payload(&servers[at], c, payload, req, rng) {
            Some(resp) => {
                resps.push(resp);
            },
            None => {
                return None;
            },
        }
        k = k + 1;
    }
    assert(responses(resps@) =~= want) by {
        assert forall|q: int| 0 <= q < want.len() implies #[trigger] responses(resps@)[q]
            == want[q] by {
            assert(resps@[q]@ == want[q]);
        }
    }
    Some(resps)
}

/// Responses of sound servers are honest.
#[verifier::rlimit(60)]
pub proof fn lemma_sound_responses(
    servers: Seq<ServerState>,
    c: Seq<u8>,
    password: Seq<u8>,
    kc: Seq<int>,
    gc: Seq<int>,
    t_set: Seq<u32>,
    rho: nat,
    req: Seq<u8>,
    msg: Seq<u8>,
    s: Seq<Response>,
)
    requires
        servers_sound(servers, c, password, kc, gc),
        enough_asked(servers.len(), t_set, kc, gc),
        servers.len() <= u32::MAX,
        rho != 0,
        blinds_password(req, password, rho),
        s.len() == t_set.len(),
        forall|k: int|
            0 <= k < t_set.len() ==> {
                &&& (#[trigger] s[k]).server_id == servers[t_set[k] - 1].id
                &&& s[k].z_i == ristretto_mul(req, servers[t_set[k] - 1].records[c].k_i)
                &&& useful_response(s[k], servers[t_set[k] - 1], c, msg)
            },
    ensures
        honest_responses(password, rho, t_set, s, req, token_base(msg), kc, gc),
{
    let ts = sorted(t_set);
    let h = password_value(password, (eval(kc, 0) % (order() as int)) as nat);
    lemma_sorted(t_set);
    assert forall|k: int| 0 <= k < t_set.len() implies #[trigger] responders(s)[k] == t_set[k] by {
        assert(s[k].server_id == servers[t_set[k] - 1].id);
        assert(1 <= t_set[k] <= servers.len());
        assert(servers[t_set[k] - 1] == sound_server(t_set[k] - 1, c, h, kc, gc));
    }
    assert(responders(s) =~= t_set);
    lemma_sorted_distinct(t_set);
    assert(s[0].server_id == servers[t_set[0] - 1].id);
    assert forall|k: int| 0 <= k < ts.len() implies {
        let a = (eval(kc, ts[k] as int) % (order() as int)) as nat;
        let b = (eval(gc, ts[k] as int) % (crate::bls::order() as int)) as nat;
        &&& response_of(s, #[trigger] ts[k]).z_i == ristretto_mul(req, a)
        &&& ristretto_valid(response_of(s, ts[k]).z_i)
        &&& opened_partial(s, h, ts[k]) == Some(g1_mul(token_base(msg), b))
        &&& g1_valid(g1_mul(token_base(msg), b))
    } by {
        assert(ts.contains(ts[k]));
        assert(t_set.contains(ts[k]));
        let p = t_set.index_of(ts[k]);
        assert(t_set[p] == ts[k]);
        lemma_only_place(t_set, p);
        assert(response_of(s, ts[k]) == s[p]);
        assert(1 <= t_set[p] <= servers.len());
        assert(servers[t_set[p] - 1] == sound_server(t_set[p] - 1, c, h, kc, gc));
        assert(s[p].server_id == servers[t_set[p] - 1].id);
    }
}

/// Sorting distinct identifiers leaves them distinct.
pub proof fn lemma_sorted_distinct(ids: Seq<u32>)
    requires
        distinct(ids),
    ensures
        distinct(sorted(ids)),
{
    broadcast use vstd::seq_lib::group_to_multiset_ensures;

    lemma_sorted(ids);
    assert(ids.no_duplicates()) by {
        assert forall|i: int, j: int|
            0 <= i < ids.len() && 0 <= j < ids.len() && i != j implies ids[i] != ids[j] by {
            if i < j {
                assert(ids[i] != ids[j]);
            } else {
                assert(ids[j] != ids[i]);
            }
        }
    }
    ids.lemma_multiset_has_no_duplicates();
    sorted(ids).lemma_multiset_has_no_duplicates_conv();
}

/// Prepares a password update: computes the function values of both passwords with the
/// servers in `t_set`, encrypts the change of each server's key, and gets a token on it.
/// With sound servers, enough of them asked, and nonzero blinding factors it succeeds,
/// and each server can open its own key change.
#[verifier::rlimit(80)]
pub fn password_update_client(
    c: ClientId,
    old_password: &[u8],
    new_password: &[u8],
    vk: &TtgVk,
    servers: &[PastauServer],
    t_set: &[u32],
    rng: &mut Rng,
) -> (r: Option<PasswordUpdateClientOut>)
    requires
        servers@.len() <= u32::MAX,
        forall|k: int| 0 <= k < t_set@.len() ==> #[trigger] t_set@[k] >= 1,
    ensures
        ({
            let out = update_outcome(
                server_states(servers@),
                c.0@,
                old_password@,
                new_password@,
                vk@,
                t_set@,
                old(rng)@,
            );
            &&& final(rng)@ == out.1
            &&& match r {
                Some(o) => out.0 == Some((o.pld3@, o.tk_pld3@, key_seqs(o.new_hi@))),
                None => out.0 is None,
            }
        }),
        forall|kc: Seq<int>, gc: Seq<int>| #[trigger]
            servers_sound(server_states(servers@), c.0@, old_password@, kc, gc) && enough_asked(
                servers@.len(),
                t_set@,
                kc,
                gc,
            ) && scalar_drawn(old(rng)@) != 0 && scalar_drawn(old(rng)@.skip(64)) != 0
                && scalar_drawn(
                after_nonces(old(rng)@.skip(64).skip(64), servers@.len()),
            ) != 0 && vk@ == g2_of(
                (eval(gc, 0) % (crate::bls::order() as int)) as nat,
            ) ==> (r matches Some(o) && update_is_for(
                o.pld3@,
                c.0@,
                password_value(old_password@, (eval(kc, 0) % (order() as int)) as nat),
                password_value(new_password@, (eval(kc, 0) % (order() as int)) as nat),
                servers@.len(),
            ) && token_verifies(vk@, o.pld3@, o.tk_pld3@)),
{
    let ghost ss = server_states(servers@);
    let ghost r0 = rng@;
    let n = servers.len();
    if n == 0 || t_set.len() == 0 {
        return None;
    }
    let rho1 = toprf::random_scalar(rng);
    let req1_pt: Point = toprf_encode(old_password, rho1);
    let req1 = req1_pt.compress();
    let z1 = match ask_values(servers, c, t_set, &req1) {
        Some(z) => z,
        None => {
            assert(exists|k: int|
                0 <= k < t_set@.len() && !reachable(ss, c.0@, #[trigger] t_set@[k]));
            return None;
        },
    };
    let h_old = match derive_h_from_toprf_partials(old_password, rho1, t_set, &z1) {
        Some(h) => h,
        None => {
            return None;
        },
    };
    assert(Seq::new(z1@.len(), |k: int| z1@[k]@) =~= key_seqs(z1@));
    let old_hi = derive_all_hi(&h_old, n);
    let ghost rng1 = rng@;
    let rho2 = toprf::random_scalar(rng);
    let req2_pt: Point = toprf_encode(new_password, rho2);
    let req2 = req2_pt.compress();
    let z2 = match ask_values(servers, c, t_set, &req2) {
        Some(z) => z,
        None => {
            return None;
        },
    };
    let h_new = match derive_h_from_toprf_partials(new_password, rho2, t_set, &z2) {
        Some(h) => h,
        None => {
            return None;
        },
    };
    assert(Seq::new(z2@.len(), |k: int| z2@[k]@) =~= key_seqs(z2@));
    let new_hi = derive_all_hi(&h_new, n);
    let ghost rng2 = rng@;
    assert(h_old@ == value_with(ss, c.0@, t_set@, old_password@, rho1@));
    assert(h_new@ == value_with(ss, c.0@, t_set@, new_password@, rho2@));
    let body = build_body(&old_hi, &new_hi, Ghost(h_old@), Ghost(h_new@), rng);
    let pld3 = cat2(body.as_slice(), &c.0);
    let ghost rng3 = rng@;
    let rho3 = toprf::random_scalar(rng);
    let req3_pt: Point = toprf_encode(old_password, rho3);
    let req3 = req3_pt.compress();
    let ghost rng4 = rng@;
    let resps = match ask_token(servers, c, t_set, body.as_slice(), &req3, rng) {
        Some(v) => v,
        None => {
            return None;
        },
    };
    let st = ClientState {
        c,
        password: bytes::copy_bytes(old_password),
        rho: rho3,
        t_set: copy_ids(t_set),
    };
    let ghost msg = token_message(body@, c.0@);
    proof {
        assert forall|kc: Seq<int>, gc: Seq<int>| #[trigger]
            servers_sound(ss, c.0@, old_password@, kc, gc) && enough_asked(
                ss.len(),
                t_set@,
                kc,
                gc,
            ) && rho1@ != 0 && rho2@ != 0 && rho3@ != 0 implies honest_responses(
            old_password@,
            rho3@,
            t_set@,
            responses(resps@),
            req3@,
            token_base(msg),
            kc,
            gc,
        ) && h_old@ == password_value(
            old_password@,
            (eval(kc, 0) % (order() as int)) as nat,
        ) && h_new@ == password_value(
            new_password@,
            (eval(kc, 0) % (order() as int)) as nat,
        ) by {
            let s = responses(resps@);
            assert forall|k: int| 0 <= k < t_set@.len() implies {
                &&& (#[trigger] s[k]).server_id == ss[t_set@[k] - 1].id
                &&& s[k].z_i == ristretto_mul(req3@, ss[t_set@[k] - 1].records[c.0@].k_i)
                &&& useful_response(s[k], ss[t_set@[k] - 1], c.0@, msg)
            } by {
                assert(s[k] == resps@[k]@);
            }
            lemma_sound_responses(
                ss,
                c.0@,
                old_password@,
                kc,
                gc,
                t_set@,
                rho3@,
                req3@,
                msg,
                s,
            );
            lemma_sound_values(ss, c.0@, old_password@, kc, gc, t_set@, req1@);
            lemma_sound_values(ss, c.0@, old_password@, kc, gc, t_set@, req2@);
        }
    }
    let tk = match finalize(&st, resps.as_slice()) {
        Some(tk) => tk,
        None => {
            return None;
        },
    };
    if !ttg_verify(vk, pld3.as_slice(), &tk) {
        return None;
    }
    proof {
        assert forall|kc: Seq<int>, gc: Seq<int>| #[trigger]
            servers_sound(ss, c.0@, old_password@, kc, gc) && enough_asked(
                ss.len(),
                t_set@,
                kc,
                gc,
            ) && rho1@ != 0 && rho2@ != 0 && rho3@ != 0 implies update_is_for(
            pld3@,
            c.0@,
            h_old@,
            h_new@,
            ss.len(),
        ) by {
            lemma_update_is_for(h_old@, h_new@, ss.len(), rng2, c.0@);
        }
    }
    Some(PasswordUpdateClientOut { pld3, tk_pld3: tk, new_hi })
}

/// The partial values of sound servers are multiples of the request.
proof fn lemma_sound_values(
    servers: Seq<ServerState>,
    c: Seq<u8>,
    password: Seq<u8>,
    kc: Seq<int>,
    gc: Seq<int>,
    t_set: Seq<u32>,
    req: Seq<u8>,
)
    requires
        servers_sound(servers, c, password, kc, gc),
        enough_asked(servers.len(), t_set, kc, gc),
        ristretto_valid(req),
    ensures
        are_multiples::<Point>(
            toprf_values(servers, c, t_set, req),
            req,
            values_at(kc, t_set, order()),
        ),
{
    let h = password_value(password, (eval(kc, 0) % (order() as int)) as nat);
    let ys = values_at(kc, t_set, order());
    assert forall|k: int| 0 <= k < t_set.len() implies 0 <= ys[k] < order()
        && #[trigger] toprf_values(servers, c, t_set, req)[k] == ristretto_mul(
        req,
        ys[k] as nat,
    ) by {
        assert(1 <= t_set[k] <= servers.len());
        assert(servers[t_set[k] - 1] == sound_server(t_set[k] - 1, c, h, kc, gc));
    }
}

/// The bytes of the server at place `i` in an update message.
pub open spec fn chunk(pld: Seq<u8>, i: int) -> Seq<u8> {
    pld.subrange(i * 104, i * 104 + 104)
}

/// The message is for the client `c` and lets each of `n` servers replace its key under
/// `h_old` by that under `h_new`.
pub open spec fn update_is_for(
    pld: Seq<u8>,
    c: Seq<u8>,
    h_old: Seq<u8>,
    h_new: Seq<u8>,
    n: nat,
) -> bool {
    &&& pld.len() == n * 104 + 32
    &&& c.len() == 32
    &&& pld.subrange(pld.len() - 32, pld.len() as int) == c
    &&& forall|i: int|
        0 <= i < n ==> {
            let sid = (i + 1) as u32;
            &&& opened(hi_of(h_old, sid), no_aad(), blob_in(#[trigger] chunk(pld, i))) == Some(
                hi_of(h_old, sid) + hi_of(h_new, sid),
            )
            &&& hi_of(h_old, sid).len() == 32
            &&& hi_of(h_new, sid).len() == 32
        }
}

proof fn lemma_update_is_for(
    h_old: Seq<u8>,
    h_new: Seq<u8>,
    n: nat,
    rng: RngState,
    c: Seq<u8>,
)
    requires
        n > 0,
        c.len() == 32,
        forall|i: int|
            0 <= i < n ==> {
                let blob = #[trigger] key_change(h_old, h_new, i, rng);
                let sid = (i + 1) as u32;
                &&& blob.nonce.len() == 24
                &&& blob.ct.len() == 64
                &&& blob.tag.len() == 16
                &&& opened(hi_of(h_old, sid), no_aad(), blob) == Some(
                    hi_of(h_old, sid) + hi_of(h_new, sid),
                )
                &&& hi_of(h_old, sid).len() == 32
                &&& hi_of(h_new, sid).len() == 32
            },
    ensures
        update_is_for(update_body(h_old, h_new, n, rng) + c, c, h_old, h_new, n),
{
    let body = update_body(h_old, h_new, n, rng);
    let pld = body + c;
    assert forall|k: int| 0 <= k < n implies (#[trigger] key_change(
        h_old,
        h_new,
        k,
        rng,
    )).flat().len() == UPDATE_BLOB_LEN by {
        update_blob_reads_back(key_change(h_old, h_new, k, rng));
    }
    lemma_body(h_old, h_new, n, rng, 0);
    assert(pld.subrange(pld.len() - 32, pld.len() as int) =~= c);
    assert forall|i: int| 0 <= i < n implies {
        let sid = (i + 1) as u32;
        &&& opened(hi_of(h_old, sid), no_aad(), blob_in(#[trigger] chunk(pld, i))) == Some(
            hi_of(h_old, sid) + hi_of(h_new, sid),
        )
        &&& hi_of(h_old, sid).len() == 32
        &&& hi_of(h_new, sid).len() == 32
    } by {
        let blob = key_change(h_old, h_new, i, rng);
        lemma_body(h_old, h_new, n, rng, i);
        update_blob_reads_back(blob);
        assert(i * 104 + 104 <= n * 104) by (nonlinear_arith)
            requires
                i < n,
        ;
        assert(chunk(pld, i) =~= body.subrange(i * 104, i * 104 + 104));
    }
}

/// The client that an update message is for.
pub open spec fn client_of(pld: Seq<u8>) -> Seq<u8> {
    pld.subrange(pld.len() - 32, pld.len() as int)
}

/// A server takes an update that carries a good token, has a whole number of key changes
/// and one for this server, is for a registered client, and opens under the present key
/// to that key and a new one.
pub open spec fn takes_update(
    srv: ServerState,
    vk: Seq<u8>,
    pld: Seq<u8>,
    tk: Seq<u8>,
) -> bool {
    let c = client_of(pld);
    let h = srv.records[c].h_i;
    &&& pld.len() >= 32
    &&& token_verifies(vk, pld, tk)
    &&& (pld.len() - 32) % 104 == 0
    &&& 1 <= srv.id <= (pld.len() - 32) / 104
    &&& srv.records.dom().contains(c)
    &&& opened(h, no_aad(), blob_in(chunk(pld, srv.id - 1))) matches Some(pt) && pt.subrange(0, 32)
        == h
}

/// The server with the client's key replaced by the new one in the message.
pub open spec fn after_update(srv: ServerState, pld: Seq<u8>) -> ServerState {
    let c = client_of(pld);
    let rec = srv.records[c];
    let pt = opened(rec.h_i, no_aad(), blob_in(chunk(pld, srv.id - 1)))->Some_0;
    srv.with_record(c, RecordState { k_i: rec.k_i, h_i: pt.subrange(32, 64) })
}

/// Handles an update message. A refused one changes nothing.
pub fn password_update_handle(
    srv: &mut PastauServer,
    vk: &TtgVk,
    pld3: &[u8],
    tk_pld3: &TtgToken,
) -> (r: bool)
    ensures
        r == takes_update(old(srv)@, vk@, pld3@, tk_pld3@),
        final(srv)@ == if r {
            after_update(old(srv)@, pld3@)
        } else {
            old(srv)@
        },
{
    let ghost s0 = srv@;
    if pld3.len() < UID_LEN {
        return false;
    }
    if !ttg_verify(vk, pld3, tk_pld3) {
        return false;
    }
    let c = ClientId(bytes::piece::<UID_LEN>(pld3, pld3.len() - UID_LEN));
    assert(c.0@ == client_of(pld3@));
    let body_len: usize = pld3.len() - UID_LEN;
    if body_len % UPDATE_BLOB_LEN != 0 {
        return false;
    }
    let n: usize = body_len / UPDATE_BLOB_LEN;
    let sid: u64 = srv.id as u64;
    if sid == 0 || sid > n as u64 {
        return false;
    }
    let rec = match srv.get_record(c) {
        Some(rec) => *rec,
        None => {
            return false;
        },
    };
    let at: usize = (sid - 1) as usize;
    proof {
        assert(n * 104 <= body_len) by (nonlinear_arith)
            requires
                n == body_len / 104,
        ;
        assert((at + 1) * 104 <= n * 104) by (nonlinear_arith)
            requires
                at + 1 <= n,
        ;
    }
    let off: usize = at * UPDATE_BLOB_LEN;
    let chunk_arr = bytes::piece::<UPDATE_BLOB_LEN>(pld3, off);
    assert(chunk_arr@ == chunk(pld3@, srv@.id - 1));
    let blob = deserialize_update_blob(&chunk_arr);
    let aad: [u8; 0] = [];
    assert(aad@ =~= no_aad());
    let pt = match aead::xchacha_decrypt_detached(&rec.h_i, &aad, &blob) {
        Ok(pt) => pt,
        Err(_) => {
            return false;
        },
    };
    let old_hi = bytes::piece::<32>(&pt, 0);
    let new_hi = bytes::piece::<32>(&pt, 32);
    if !bytes::same_bytes(&old_hi, &rec.h_i) {
        return false;
    }
    match srv.get_record_mut(c) {
        Some(held) => {
            held.h_i = new_hi;
            true
        },
        None => false,
    }
}

/// A sound server takes an update made for the servers' keys, and holds the new key
/// afterwards.
pub proof fn update_moves_server(
    servers: Seq<ServerState>,
    c: Seq<u8>,
    old_password: Seq<u8>,
    new_password: Seq<u8>,
    kc: Seq<int>,
    gc: Seq<int>,
    vk: Seq<u8>,
    pld: Seq<u8>,
    tk: Seq<u8>,
    i: int,
)
    requires
        servers_sound(servers, c, old_password, kc, gc),
        servers.len() <= u32::MAX,
        0 <= i < servers.len(),
        token_verifies(vk, pld, tk),
        update_is_for(
            pld,
            c,
            password_value(old_password, (eval(kc, 0) % (order() as int)) as nat),
            password_value(new_password, (eval(kc, 0) % (order() as int)) as nat),
            servers.len(),
        ),
    ensures
        takes_update(servers[i], vk, pld, tk),
        after_update(servers[i], pld) == sound_server(
            i,
            c,
            password_value(new_password, (eval(kc, 0) % (order() as int)) as nat),
            kc,
            gc,
        ),
{
    let h_old = password_value(old_password, (eval(kc, 0) % (order() as int)) as nat);
    let h_new = password_value(new_password, (eval(kc, 0) % (order() as int)) as nat);
    let n = servers.len();
    let sid = (i + 1) as u32;
    assert(servers[i] == sound_server(i, c, h_old, kc, gc));
    assert((n * 104) % 104 == 0 && (n * 104) / 104 == n as int) by (nonlinear_arith);
    assert(chunk(pld, servers[i].id - 1) == chunk(pld, i));
    let pt = hi_of(h_old, sid) + hi_of(h_new, sid);
    assert(pt.subrange(0, 32) =~= hi_of(h_old, sid));
    assert(pt.subrange(32, 64) =~= hi_of(h_new, sid));
    assert(after_update(servers[i], pld).records =~= sound_server(i, c, h_new, kc, gc).records);
}

} // verus!
