//! What PAS-TA-U is for: what a token covers, whose keys a response uses, which responses make
//! a token, and what a password update changes.
use vstd::prelude::*;
use vstd::string::StringSliceAdditionalSpecFns;

use crate::aead::{opened, sealed, Blob};
use crate::augsso_auth::after_nonces;
use crate::bls::{g1_mul, g1_of, g1_valid, g2_of, pairings_equal};
use crate::bytes::{le_nat, u32_le};
use crate::crypto_pastau::{hi_of, token_base, token_verifies, ttg_poly};
use crate::field::{after_draws, drawn, lemma_drawn_len, shares_of};
use crate::hash::{blake3_hash, blake3_wide};
use crate::ids::{lemma_place_of, lemma_sorted, place_of, sorted};
use crate::interpolation::eval;
use crate::pastau::{
    answers, finalize_accepts, opened_partial, password_value, registered_value, responders,
    response, response_of, token_message, RecordState, Response, ServerState,
};
use crate::pastau_update::{
    after_update, key_change, lemma_body, takes_update, update_body, update_outcome, value_with,
};
use crate::ristretto::{order, ristretto_from_uniform, ristretto_mul, ristretto_valid};
use crate::rng::RngState;
use crate::toprf::{key_poly, password_point, scalar_drawn};

verus! {

/// What is hashed for a message of a token: the tag and the whole message.
pub open spec fn token_input(msg: Seq<u8>) -> Seq<u8> {
    "pastau/ttg/hash_to_g1/v1".spec_bytes() + msg
}

/// The group element of a message is the generator times the number that the hash of the tag
/// and the whole message gives, and different messages have different hash inputs.
pub proof fn token_base_covers_message(a: Seq<u8>, b: Seq<u8>)
    ensures
        token_base(a) == g1_of(le_nat(blake3_wide(token_input(a))) % crate::bls::order()),
        a != b ==> token_input(a) != token_input(b),
{
    let d = "pastau/ttg/hash_to_g1/v1".spec_bytes();
    assert(token_input(a).skip(d.len() as int) =~= a);
    assert(token_input(b).skip(d.len() as int) =~= b);
}

/// A token is for one payload and one client: other payloads or other clients give other hash
/// inputs. It verifies where it is a group element that pairs with the generator as the
/// element of that input pairs with the key.
pub proof fn token_is_for_payload_and_client(
    vk: Seq<u8>,
    pld: Seq<u8>,
    c: Seq<u8>,
    pld2: Seq<u8>,
    c2: Seq<u8>,
    tk: Seq<u8>,
)
    requires
        c.len() == 32,
        c2.len() == 32,
    ensures
        token_verifies(vk, token_message(pld, c), tk) <==> g1_valid(tk) && pairings_equal(
            tk,
            g2_of(1),
            g1_of(
                le_nat(
                    blake3_wide("pastau/ttg/hash_to_g1/v1".spec_bytes() + (pld + c)),
                ) % crate::bls::order(),
            ),
            vk,
        ),
        pld != pld2 || c != c2 ==> token_input(token_message(pld, c)) != token_input(
            token_message(pld2, c2),
        ),
{
    let (m, m2) = (token_message(pld, c), token_message(pld2, c2));
    token_base_covers_message(m, m2);
    if m == m2 {
        let k = m.len() - 32;
        assert(m.take(k) =~= pld);
        assert(m.skip(k) =~= c);
        assert(m2.take(k) =~= pld2);
        assert(m2.skip(k) =~= c2);
    }
}

/// A server's key is the hash, under its own tag, of the whole function value and the server's
/// number, and different values or servers give different hash inputs.
pub proof fn server_keys_cover_value_and_server(h: Seq<u8>, i: u32, h2: Seq<u8>, i2: u32)
    ensures
        hi_of(h, i) == blake3_hash("pastau/hi/v1".spec_bytes() + (h + u32_le(i))),
        u32_le(i).len() == 4,
        h != h2 || i != i2 ==> h + u32_le(i) != h2 + u32_le(i2),
{
    vstd::bytes::lemma_auto_spec_u32_to_from_le_bytes();
    let (a, b) = (h + u32_le(i), h2 + u32_le(i2));
    if a == b {
        let k = a.len() - 4;
        assert(a.take(k) =~= h);
        assert(a.skip(k) =~= u32_le(i));
        assert(b.take(k) =~= h2);
        assert(b.skip(k) =~= u32_le(i2));
    }
}

/// The value of the password function is the hash, under its own tag, of the whole password and
/// the point of the whole password times the key.
pub proof fn function_value_covers_password(password: Seq<u8>, k: nat)
    ensures
        password_point(password) == ristretto_from_uniform(
            blake3_wide("upspa/toprf/hash_to_point/v1".spec_bytes() + password),
        ),
        password_value(password, k) == blake3_hash(
            "upspa/toprf/finalize/v1".spec_bytes() + (password + ristretto_mul(
                password_point(password),
                k,
            )),
        ),
{
}

/// A server answers exactly its registered clients, and only requests that are points. It
/// multiplies the request by its share for this client, and seals under its key for this
/// client, with no associated data, its part of the token on this message.
pub proof fn response_is_for_the_client(
    srv: ServerState,
    c: Seq<u8>,
    msg: Seq<u8>,
    req: Seq<u8>,
    nonce: Seq<u8>,
)
    ensures
        answers(srv, c, req) <==> srv.records.dom().contains(c) && ristretto_valid(req),
        response(srv, c, msg, req, nonce).server_id == srv.id,
        response(srv, c, msg, req, nonce).z_i == ristretto_mul(req, srv.records[c].k_i),
        response(srv, c, msg, req, nonce).ctxt_i == sealed(
            srv.records[c].h_i,
            Seq::empty(),
            g1_mul(
                g1_of(le_nat(blake3_wide(token_input(msg))) % crate::bls::order()),
                srv.ttg_share,
            ),
            nonce,
        ),
{
}

/// Responses make a token only where they come from exactly the servers asked, each as often
/// as it was asked, and where what each server sealed opens under the key that the value the
/// client computed gives that server, to a group element.
pub proof fn responses_come_from_servers_asked(
    password: Seq<u8>,
    rho: nat,
    t_set: Seq<u32>,
    s: Seq<Response>,
    i: int,
)
    requires
        finalize_accepts(password, rho, t_set, s),
        0 <= i < t_set.len(),
    ensures
        s.len() == t_set.len(),
        responders(s).to_multiset() == t_set.to_multiset(),
        ({
            let h = crate::pastau::computed_value(password, rho, sorted(t_set), s);
            let r = response_of(s, t_set[i]);
            &&& r.server_id == t_set[i]
            &&& s.contains(r)
            &&& ristretto_valid(r.z_i)
            &&& opened(
                blake3_hash("pastau/hi/v1".spec_bytes() + (h + u32_le(t_set[i]))),
                Seq::empty(),
                r.ctxt_i,
            ) matches Some(y) && g1_valid(y)
        }),
{
    let ts = sorted(t_set);
    let ids = responders(s);
    lemma_sorted(t_set);
    lemma_sorted(ids);
    assert(t_set.contains(t_set[i]));
    let k = ts.index_of(t_set[i]);
    assert(ts[k] == t_set[i]);
    let h = crate::pastau::computed_value(password, rho, ts, s);
    assert(opened_partial(s, h, ts[k]) is Some);
    assert(ristretto_valid(response_of(s, ts[k]).z_i));
    assert(ids.contains(t_set[i]));
    lemma_place_of(ids, t_set[i]);
    let p = place_of(ids, t_set[i])->Some_0;
    assert(ids[p] == s[p].server_id);
    assert(s[p] == response_of(s, t_set[i]));
}

/// A server takes an update exactly where its last 32 bytes name a client of its, the token is
/// good for the whole message, what stands in front is a whole number of key changes of 104
/// bytes with one at this server's place, and that one opens under the client's present key,
/// to this key and something more.
pub proof fn update_is_taken(srv: ServerState, vk: Seq<u8>, body: Seq<u8>, c: Seq<u8>, tk: Seq<u8>)
    requires
        c.len() == 32,
    ensures
        takes_update(srv, vk, body + c, tk) <==> {
            let at = (srv.id - 1) * 104;
            let h = srv.records[c].h_i;
            &&& token_verifies(vk, body + c, tk)
            &&& body.len() % 104 == 0
            &&& srv.id >= 1
            &&& srv.id * 104 <= body.len()
            &&& srv.records.dom().contains(c)
            &&& opened(
                h,
                Seq::empty(),
                (Blob {
                    nonce: body.subrange(at, at + 24),
                    ct: body.subrange(at + 24, at + 88),
                    tag: body.subrange(at + 88, at + 104),
                }),
            ) matches Some(pt) && pt.subrange(0, 32) == h
        },
{
    let pld = body + c;
    let at = (srv.id - 1) * 104;
    assert(pld.subrange(pld.len() - 32, pld.len() as int) =~= c);
    assert(pld.len() - 32 == body.len());
    if srv.id >= 1 && srv.id * 104 <= body.len() {
        let ch = pld.subrange(at, at + 104);
        assert(ch.subrange(0, 24) =~= body.subrange(at, at + 24));
        assert(ch.subrange(24, 88) =~= body.subrange(at + 24, at + 88));
        assert(ch.subrange(88, 104) =~= body.subrange(at + 88, at + 104));
    }
}

/// A server that took an update holds for the client the second half of what its part of the
/// message opened to. The share for this client, the other clients, the server's number and
/// its share of the token key stay.
pub proof fn update_replaces_one_key(
    srv: ServerState,
    vk: Seq<u8>,
    body: Seq<u8>,
    c: Seq<u8>,
    tk: Seq<u8>,
    old: Seq<u8>,
    new: Seq<u8>,
    other: Seq<u8>,
)
    requires
        c.len() == 32,
        old.len() == 32,
        new.len() == 32,
        takes_update(srv, vk, body + c, tk),
        ({
            let at = (srv.id - 1) * 104;
            opened(
                srv.records[c].h_i,
                Seq::empty(),
                (Blob {
                    nonce: body.subrange(at, at + 24),
                    ct: body.subrange(at + 24, at + 88),
                    tag: body.subrange(at + 88, at + 104),
                }),
            ) == Some(old + new)
        }),
    ensures
        old == srv.records[c].h_i,
        ({
            let q = after_update(srv, body + c);
            &&& q.id == srv.id
            &&& q.ttg_share == srv.ttg_share
            &&& q.records.dom() == srv.records.dom()
            &&& q.records[c].h_i == new
            &&& q.records[c].k_i == srv.records[c].k_i
            &&& other != c ==> q.records[other] == srv.records[other]
        }),
{
    update_is_taken(srv, vk, body, c, tk);
    let pld = body + c;
    let at = (srv.id - 1) * 104;
    assert(pld.subrange(pld.len() - 32, pld.len() as int) =~= c);
    let ch = pld.subrange(at, at + 104);
    assert(ch.subrange(0, 24) =~= body.subrange(at, at + 24));
    assert(ch.subrange(24, 88) =~= body.subrange(at + 24, at + 88));
    assert(ch.subrange(88, 104) =~= body.subrange(at + 88, at + 104));
    assert((old + new).subrange(0, 32) =~= old);
    assert((old + new).subrange(32, 64) =~= new);
    assert(after_update(srv, pld).records.dom() =~= srv.records.dom());
}

/// The change for the server with number `i + 1` stands at its place in an update: under the
/// server's old key, the old key and the new one, with the nonce at that place of the stream.
pub proof fn update_body_has_a_change_per_server(
    h_old: Seq<u8>,
    h_new: Seq<u8>,
    n: nat,
    rng: RngState,
    i: int,
)
    requires
        0 <= i < n,
        forall|k: int|
            0 <= k < n ==> (#[trigger] key_change(h_old, h_new, k, rng)).flat().len() == 104,
    ensures
        ({
            let sid = (i + 1) as u32;
            let old = blake3_hash("pastau/hi/v1".spec_bytes() + (h_old + u32_le(sid)));
            let new = blake3_hash("pastau/hi/v1".spec_bytes() + (h_new + u32_le(sid)));
            let b = sealed(old, Seq::empty(), old + new, after_nonces(rng, i as nat).bytes(24));
            let body = update_body(h_old, h_new, n, rng);
            &&& body.len() == n * 104
            &&& body.subrange(i * 104, i * 104 + 104) == b.nonce + b.ct + b.tag
        }),
{
    lemma_body(h_old, h_new, n, rng, i);
}

/// An update that is sent ends with the client's name and carries a token that verifies on all
/// of it; and it comes with the new keys of all servers, under the value of the new password.
pub proof fn sent_updates_verify(
    servers: Seq<ServerState>,
    c: Seq<u8>,
    old_password: Seq<u8>,
    new_password: Seq<u8>,
    vk: Seq<u8>,
    t_set: Seq<u32>,
    rng: RngState,
)
    ensures
        update_outcome(
            servers,
            c,
            old_password,
            new_password,
            vk,
            t_set,
            rng,
        ).0 matches Some((msg, tk, keys)) ==> {
            let h_old = value_with(servers, c, t_set, old_password, scalar_drawn(rng));
            let h_new = value_with(servers, c, t_set, new_password, scalar_drawn(rng.skip(64)));
            &&& msg == update_body(h_old, h_new, servers.len(), rng.skip(64).skip(64)) + c
            &&& token_verifies(vk, msg, tk)
            &&& keys.len() == servers.len()
            &&& forall|i: int|
                0 <= i < keys.len() ==> #[trigger] keys[i] == blake3_hash(
                    "pastau/hi/v1".spec_bytes() + (h_new + u32_le((i + 1) as u32)),
                )
        },
{
}

/// The shared key is the first of the drawn numbers and the constant term; there are as many
/// coefficients as servers needed, drawn one after the other; and the server with number
/// `i + 1` gets the value of the polynomial there.
pub proof fn keys_are_shared_by_polynomials(t: nat, n: nat, rng: RngState, k: int, i: int)
    requires
        1 <= k < t,
        0 <= i < n,
    ensures
        key_poly(t, rng).len() == t,
        key_poly(t, rng)[0] == le_nat(rng.bytes(64)) % order(),
        key_poly(t, rng)[k] == le_nat(after_draws(rng, k as nat).bytes(64)) % order(),
        ttg_poly(t, rng).len() == t,
        ttg_poly(t, rng)[0] == le_nat(rng.bytes(64)) % crate::bls::order(),
        ttg_poly(t, rng)[k] == le_nat(after_draws(rng, k as nat).bytes(64)) % crate::bls::order(),
        shares_of(key_poly(t, rng), n, order())[i] == (
            (i + 1) as u32,
            (eval(key_poly(t, rng), i + 1) % (order() as int)) as nat,
        ),
        shares_of(key_poly(t, rng), n, order()).len() == n,
{
    let r1 = rng.skip(64);
    lemma_drawn_len(r1, (t - 1) as nat, order());
    lemma_drawn_len(r1, (t - 1) as nat, crate::bls::order());
    lemma_drawn_at(r1, (t - 1) as nat, order(), k - 1);
    lemma_drawn_at(r1, (t - 1) as nat, crate::bls::order(), k - 1);
    lemma_draws_shift(rng, (k - 1) as nat);
}

proof fn lemma_drawn_at(rng: RngState, n: nat, m: nat, k: int)
    requires
        0 <= k < n,
    ensures
        drawn(rng, n, m)[k] == (le_nat(after_draws(rng, k as nat).bytes(64)) % m) as int,
    decreases n,
{
    lemma_drawn_len(rng, (n - 1) as nat, m);
    if k < n - 1 {
        lemma_drawn_at(rng, (n - 1) as nat, m, k);
    }
}

proof fn lemma_draws_shift(rng: RngState, k: nat)
    ensures
        after_draws(rng.skip(64), k) == after_draws(rng, k + 1),
    decreases k,
{
    if k > 0 {
        lemma_draws_shift(rng, (k - 1) as nat);
    } else {
        reveal_with_fuel(after_draws, 2);
    }
}

/// Registration computes the function value through a blinded password: the point of the
/// password times the blinding factor, times the key, times the inverse of the factor.
pub proof fn registration_unblinds(password: Seq<u8>, r: nat, k: nat)
    ensures
        registered_value(password, r, k) == blake3_hash(
            "upspa/toprf/finalize/v1".spec_bytes() + (password + ristretto_mul(
                ristretto_mul(ristretto_mul(password_point(password), r), k),
                crate::field::inverse_of(r, order()),
            )),
        ),
{
}

/// Stored records are found again under their client, and other clients are untouched.
pub proof fn records_are_found_again(
    srv: ServerState,
    c: Seq<u8>,
    other: Seq<u8>,
    rec: RecordState,
)
    ensures
        srv.with_record(c, rec).records.dom().contains(c),
        srv.with_record(c, rec).records[c] == rec,
        other != c ==> (srv.with_record(c, rec).records.dom().contains(other)
            <==> srv.records.dom().contains(other)) && srv.with_record(c, rec).records[other]
            == srv.records[other],
        srv.with_record(c, rec).id == srv.id,
        srv.with_record(c, rec).ttg_share == srv.ttg_share,
{
}

} // verus!
