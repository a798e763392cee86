//! What AugSSO is for: what hashes cover, whose keys a response uses, which responses make a
//! token, and what a password update changes.
use vstd::prelude::*;
use vstd::string::StringSliceAdditionalSpecFns;

use crate::aead::{opened, sealed, Blob};
use crate::augsso::{
    after_setup, client_secret, gamma_poly, hardened, password_g1, phi_poly, public_shares,
    ServerState,
};
use crate::augsso_auth::{
    answers, client_in, first_response, key_ids, phase1_accepts, recovered_sigma, responders,
    response_of, sigma_checks, Respond1Rand, Response1,
};
use crate::augsso_fixture::{at, rand_drawn, seed_of};
use crate::augsso_token::{
    finalize_accepts, opened_token, partial_token, payload_g1, responders2, response2_of,
    session_key_of, token_checks, token_plain, Response2,
};
use crate::augsso_update::{
    answers_update, popularity_hardened, update_accepts, update_challenge_accepted, update_opened,
    update_responders, update_response1, with_client_key, PasswordUpdateClientState,
    PasswordUpdateRequest, PasswordUpdateServerSession, UpdateResponse1,
};
use crate::bls::{g1_mul, g1_of, g1_valid, g2_of, order, pairings_equal};
use crate::bytes::{le_nat, u64_le};
use crate::crypto_augsso::{hashed_scalar, pke_opened, pke_sealed, pke_secret};
use crate::field::{after_draws, lemma_drawn_len};
use crate::hash::{blake3_hash, blake3_wide};
use crate::ids::{
    last_place_of, lemma_last_place_of, lemma_place_of, lemma_sorted, place_of, sorted,
};
use crate::interpolation::eval;
use crate::keys::{x25519_public, x25519_shared};
use crate::rng::RngState;

verus! {

/// The group elements of passwords and payloads are the generator times the number that the
/// hash of the tag and the whole text gives; each has its own tag, and different texts give
/// different hash inputs.
pub proof fn hashed_elements_cover_texts(a: Seq<u8>, b: Seq<u8>)
    ensures
        password_g1(a) == g1_of(
            le_nat(blake3_wide("augsso/H_pw/v1".spec_bytes() + a)) % order(),
        ),
        payload_g1(a) == g1_of(
            le_nat(blake3_wide("augsso/H_pld/v1".spec_bytes() + a)) % order(),
        ),
        a != b ==> "augsso/H_pw/v1".spec_bytes() + a != "augsso/H_pw/v1".spec_bytes() + b,
        a != b ==> "augsso/H_pld/v1".spec_bytes() + a != "augsso/H_pld/v1".spec_bytes() + b,
{
    let (d, e) = ("augsso/H_pw/v1".spec_bytes(), "augsso/H_pld/v1".spec_bytes());
    assert((d + a).skip(d.len() as int) =~= a);
    assert((d + b).skip(d.len() as int) =~= b);
    assert((e + a).skip(e.len() as int) =~= a);
    assert((e + b).skip(e.len() as int) =~= b);
}

/// A hashed number covers the tag and the whole message.
pub proof fn hashed_numbers_cover_messages(domain: Seq<u8>, msg: Seq<u8>)
    ensures
        hashed_scalar(domain, msg) == le_nat(blake3_wide(domain + msg)) % order(),
{
}

/// The secret key of a password is the hash, under its tag, of the hash, under its own tag, of
/// the value of the password function and the whole password.
pub proof fn client_keys_cover_value_and_password(sigma: Seq<u8>, pw: Seq<u8>)
    ensures
        hardened(sigma, pw) == blake3_hash("augsso/hpw/v1".spec_bytes() + sigma + pw),
        client_secret(sigma, pw) == blake3_hash(
            "augsso/pke/kg/v1".spec_bytes() + blake3_hash(
                "augsso/hpw/v1".spec_bytes() + sigma + pw,
            ),
        ),
        pke_secret(pw) == blake3_hash("augsso/pke/kg/v1".spec_bytes() + pw),
        popularity_hardened(sigma, pw) == blake3_hash(
            "augsso/popular-password-harden/v1".spec_bytes() + sigma + pw,
        ),
{
}

/// Public-key encryption agrees on a secret with a fresh key and seals under the hash of that
/// secret, the fresh public key and the recipient's; whoever holds a secret key that agrees on
/// the same secret opens with the same key.
pub proof fn encryption_is_to_the_recipient(
    pk: Seq<u8>,
    aad: Seq<u8>,
    plaintext: Seq<u8>,
    eph_sk: Seq<u8>,
    nonce: Seq<u8>,
    sk: Seq<u8>,
)
    ensures
        ({
            let eph_pk = x25519_public(eph_sk);
            let key = blake3_hash(
                "augsso/pke/kdf/v1".spec_bytes() + (x25519_shared(eph_sk, pk) + eph_pk + pk),
            );
            let ct = pke_sealed(pk, aad, plaintext, eph_sk, nonce);
            &&& ct.eph_pk == eph_pk
            &&& ct.blob == sealed(key, aad, plaintext, nonce)
            &&& pk == x25519_public(sk) && x25519_shared(sk, eph_pk) == x25519_shared(eph_sk, pk)
                ==> pke_opened(sk, aad, ct) == opened(key, aad, ct.blob)
        }),
{
}

/// A server answers exactly a registered client, whose name is the second half of the payload,
/// and only group elements. It multiplies the blinded password by its share for this client
/// and encrypts to this client's public key its challenge and its session key.
pub proof fn first_response_is_for_the_client(
    srv: ServerState,
    x: Seq<u8>,
    c: Seq<u8>,
    bpw: Seq<u8>,
    rand: Respond1Rand,
)
    requires
        x.len() == 32,
        c.len() == 32,
    ensures
        client_in(x + c) == c,
        answers(srv, x + c, bpw) <==> srv.records.dom().contains(c) && g1_valid(bpw),
        ({
            let r = first_response(srv, x + c, bpw, rand);
            &&& r.server_id == srv.id
            &&& r.sigma_i == g1_mul(bpw, srv.records[c].sk_i)
            &&& r.ct_res == pke_sealed(
                srv.records[c].rpk,
                Seq::empty(),
                rand.ch@ + rand.ek@,
                rand.pke_eph_sk@,
                rand.pke_nonce@,
            )
        }),
{
    assert((x + c).subrange(32, 64) =~= c);
}

/// The client accepts first responses only from exactly the servers asked, each as often as it
/// was asked; and only where each partial value is a group element that pairs with the
/// generator as the blinded password pairs with that server's listed key, and each ciphertext
/// opens under the key of the password.
pub proof fn first_responses_are_checked(
    password: Seq<u8>,
    r: nat,
    t_set: Seq<u32>,
    bpw: Seq<u8>,
    s: Seq<Response1>,
    pks: Seq<(u32, Seq<u8>)>,
    i: int,
)
    requires
        phase1_accepts(password, r, t_set, bpw, s, pks),
        0 <= i < t_set.len(),
    ensures
        s.len() == t_set.len(),
        responders(s).to_multiset() == t_set.to_multiset(),
        ({
            let x = response_of(s, t_set[i]);
            &&& s.contains(x)
            &&& x.server_id == t_set[i]
            &&& g1_valid(x.sigma_i)
            &&& exists|j: int|
                0 <= j < pks.len() && (#[trigger] pks[j]).0 == t_set[i] && pairings_equal(
                    x.sigma_i,
                    g2_of(1),
                    bpw,
                    pks[j].1,
                )
            &&& pke_opened(
                client_secret(recovered_sigma(s, sorted(t_set), r), password),
                Seq::empty(),
                x.ct_res,
            ) is Some
        }),
{
    let ts = sorted(t_set);
    let ids = responders(s);
    lemma_sorted(t_set);
    lemma_sorted(ids);
    assert(t_set.contains(t_set[i]));
    let k = ts.index_of(t_set[i]);
    assert(ts[k] == t_set[i]);
    assert(sigma_checks(s, pks, bpw, ts[k]));
    assert(ids.contains(t_set[i]));
    lemma_place_of(ids, t_set[i]);
    let p = place_of(ids, t_set[i])->Some_0;
    assert(ids[p] == s[p].server_id);
    assert(s[p] == response_of(s, t_set[i]));
    lemma_place_of(key_ids(pks), t_set[i]);
    let j = place_of(key_ids(pks), t_set[i])->Some_0;
    assert(key_ids(pks)[j] == pks[j].0);
    assert(pks[j].0 == t_set[i]);
}

/// A second response holds the server's part of the token on the payload and the payload.
pub proof fn second_response_is_for_the_payload(srv: ServerState, pld: Seq<u8>)
    ensures
        token_plain(srv, pld) == g1_mul(
            g1_of(le_nat(blake3_wide("augsso/H_pld/v1".spec_bytes() + pld)) % order()),
            srv.gamma_i,
        ) + pld,
{
}

/// The client accepts second responses only from exactly the servers asked, each as often as it
/// was asked; and only where each opens under that server's session key to a partial token and
/// this payload, and the partial token is a group element that pairs with the generator as the
/// hashed payload pairs with that server's listed key.
pub proof fn second_responses_are_checked(
    t_set: Seq<u32>,
    pld: Seq<u8>,
    s: Seq<Response2>,
    eks: Seq<(u32, Seq<u8>)>,
    pks: Seq<(u32, Seq<u8>)>,
    i: int,
)
    requires
        finalize_accepts(t_set, pld, s, eks, pks),
        0 <= i < t_set.len(),
    ensures
        s.len() == t_set.len(),
        responders2(s).to_multiset() == t_set.to_multiset(),
        ({
            let x = response2_of(s, t_set[i]);
            let tkn = partial_token(s, eks, t_set[i]);
            &&& s.contains(x)
            &&& x.server_id == t_set[i]
            &&& exists|j: int|
                0 <= j < eks.len() && (#[trigger] eks[j]).0 == t_set[i] && (opened(
                    eks[j].1,
                    Seq::empty(),
                    x.ct_tkn,
                ) matches Some(pt) && pt.subrange(0, 48) == tkn && pt.subrange(48, 112) == pld)
            &&& g1_valid(tkn)
            &&& exists|j: int|
                0 <= j < pks.len() && (#[trigger] pks[j]).0 == t_set[i] && pairings_equal(
                    tkn,
                    g2_of(1),
                    g1_of(le_nat(blake3_wide("augsso/H_pld/v1".spec_bytes() + pld)) % order()),
                    pks[j].1,
                )
        }),
{
    let ts = sorted(t_set);
    let ids = responders2(s);
    lemma_sorted(t_set);
    lemma_sorted(ids);
    assert(t_set.contains(t_set[i]));
    let k = ts.index_of(t_set[i]);
    assert(ts[k] == t_set[i]);
    assert(token_checks(s, eks, pks, pld, ts[k]));
    assert(ids.contains(t_set[i]));
    lemma_place_of(ids, t_set[i]);
    let p = place_of(ids, t_set[i])->Some_0;
    assert(ids[p] == s[p].server_id);
    assert(s[p] == response2_of(s, t_set[i]));
    lemma_last_place_of(key_ids(eks), t_set[i]);
    let e = last_place_of(key_ids(eks), t_set[i])->Some_0;
    assert(key_ids(eks)[e] == eks[e].0);
    assert(eks[e].0 == t_set[i]);
    assert(session_key_of(eks, t_set[i]) == eks[e].1);
    assert(opened_token(s, eks, t_set[i]) is Some);
    lemma_place_of(key_ids(pks), t_set[i]);
    let j = place_of(key_ids(pks), t_set[i])->Some_0;
    assert(key_ids(pks)[j] == pks[j].0);
    assert(pks[j].0 == t_set[i]);
}

/// In an update a server answers exactly a registered client, and only group elements. It
/// multiplies the old blinded password by its share for this client, and encrypts to this
/// client's present public key its challenge, its session key and the new blinded password
/// times the share.
pub proof fn update_response_is_for_the_client(
    srv: ServerState,
    req: PasswordUpdateRequest,
    rand: Respond1Rand,
)
    ensures
        answers_update(srv, req) <==> srv.records.dom().contains(req.client_id.0@) && g1_valid(
            req.bpw_old@,
        ) && g1_valid(req.bpw_new@),
        ({
            let rec = srv.records[req.client_id.0@];
            let r = update_response1(srv, req, rand);
            &&& r.server_id == srv.id
            &&& r.sigma_old_i == g1_mul(req.bpw_old@, rec.sk_i)
            &&& r.ct_res == pke_sealed(
                rec.rpk,
                Seq::empty(),
                rand.ch@ + rand.ek@ + g1_mul(req.bpw_new@, rec.sk_i),
                rand.pke_eph_sk@,
                rand.pke_nonce@,
            )
        }),
{
}

/// A client starts an update of all servers only where all answered, each once, and for every
/// one both values check against its listed key and the answer opens under the key of the old
/// password.
pub proof fn update_responses_are_checked(
    st: PasswordUpdateClientState,
    req: PasswordUpdateRequest,
    s: Seq<UpdateResponse1>,
    pks: Seq<(u32, Seq<u8>)>,
    nonces: Option<nat>,
    i: int,
)
    requires
        update_accepts(st, req, s, pks, nonces),
        0 <= i < s.len(),
    ensures
        s.len() == st.nsp,
        update_responders(s).to_multiset() == crate::augsso_fixture::first_ids(
            st.nsp as nat,
        ).to_multiset(),
        g1_valid(s[i].sigma_old_i),
        exists|j: int|
            0 <= j < pks.len() && (#[trigger] pks[j]).0 == s[i].server_id && pairings_equal(
                s[i].sigma_old_i,
                g2_of(1),
                req.bpw_old@,
                pks[j].1,
            ),
        ({
            let sk = crate::augsso_update::old_secret(
                st.old_password@,
                st.r_old@,
                st.t_set@,
                s,
            );
            pke_opened(sk, Seq::empty(), s[i].ct_res) matches Some(pt) && g1_valid(
                pt.subrange(64, 112),
            ) && exists|j: int|
                0 <= j < pks.len() && (#[trigger] pks[j]).0 == s[i].server_id && pairings_equal(
                    pt.subrange(64, 112),
                    g2_of(1),
                    req.bpw_new@,
                    pks[j].1,
                )
        }),
        st.r_old@ != 0,
        st.r_new@ != 0,
{
    let sk = crate::augsso_update::old_secret(st.old_password@, st.r_old@, st.t_set@, s);
    lemma_sorted(update_responders(s));
    let sid = s[i].server_id;
    assert(update_opened(sk, s, i) is Some);
    lemma_place_of(key_ids(pks), sid);
    let j = place_of(key_ids(pks), sid)->Some_0;
    assert(key_ids(pks)[j] == pks[j].0);
    assert(pks[j].0 == sid);
}

/// A server takes a new key exactly where the session is its own and of a client it knows, what
/// the client returned opens under the session key and starts with the challenge, and the new
/// blinded password is a group element.
pub proof fn update_challenge_is_checked(
    srv: ServerState,
    sess: PasswordUpdateServerSession,
    ct: Blob,
    rpk: Seq<u8>,
)
    requires
        sess.ch@.len() == 32,
        rpk.len() == 32,
    ensures
        update_challenge_accepted(srv, sess, ct) ==> opened(
            sess.ek@,
            Seq::empty(),
            ct,
        ) is Some && opened(sess.ek@, Seq::empty(), ct)->Some_0.subrange(0, 32) == sess.ch@
            && srv.id == sess.server_id && srv.records.dom().contains(sess.client_id.0@)
            && g1_valid(sess.bpw_new@),
        srv.id == sess.server_id && srv.records.dom().contains(sess.client_id.0@) && g1_valid(
            sess.bpw_new@,
        ) && opened(sess.ek@, Seq::empty(), ct) == Some(sess.ch@ + rpk)
            ==> update_challenge_accepted(srv, sess, ct),
{
    assert((sess.ch@ + rpk).subrange(0, 32) =~= sess.ch@);
}

/// A new key replaces the client's public key and nothing else: the share for this client, the
/// other clients and the server's own keys stay.
pub proof fn new_key_replaces_one_key(
    srv: ServerState,
    client: Seq<u8>,
    rpk: Seq<u8>,
    other: Seq<u8>,
)
    ensures
        ({
            let q = with_client_key(srv, client, rpk);
            &&& q.records[client].rpk == rpk
            &&& q.records[client].sk_i == srv.records[client].sk_i
            &&& q.records.dom().contains(client)
            &&& other != client ==> q.records[other] == srv.records[other] && (
            q.records.dom().contains(other) <==> srv.records.dom().contains(other))
            &&& q.id == srv.id
            &&& q.gamma_i == srv.gamma_i
            &&& q.phi_i == srv.phi_i
            &&& q.gamma_pub_i == srv.gamma_pub_i
            &&& q.phi_pub_i == srv.phi_pub_i
            &&& q.pp == srv.pp
        }),
{
}

/// A setup draws its two keys first, then the coefficients that share the first, then those that
/// share the second; each polynomial has as many coefficients as servers are needed, with the
/// key as the constant term. A server's public key is the generator times its share.
pub proof fn keys_are_shared(t: nat, rng: RngState, shares: Seq<(u32, nat)>, i: int)
    requires
        t >= 1,
        0 <= i < shares.len(),
    ensures
        gamma_poly(t, rng).len() == t,
        phi_poly(t, rng).len() == t,
        gamma_poly(t, rng)[0] == le_nat(rng.bytes(64)) % order(),
        phi_poly(t, rng)[0] == le_nat(rng.skip(64).bytes(64)) % order(),
        after_setup(t, rng) == after_draws(
            after_draws(rng.skip(64).skip(64), (t - 1) as nat),
            (t - 1) as nat,
        ),
        public_shares(shares)[i] == (shares[i].0, g2_of(shares[i].1)),
{
    lemma_drawn_len(rng.skip(64).skip(64), (t - 1) as nat, order());
    lemma_drawn_len(
        after_draws(rng.skip(64).skip(64), (t - 1) as nat),
        (t - 1) as nat,
        order(),
    );
}

/// A share is the value of the polynomial, modulo the order of the group.
pub proof fn shares_are_values(c: Seq<int>, x: int)
    ensures
        at(c, x) == eval(c, x) % (order() as int),
        at(c, x) < order(),
{
    vstd::arithmetic::div_mod::lemma_mod_bound(eval(c, x), order() as int);
}

/// Random values are drawn in this order: challenge, session key, ephemeral secret, nonce.
pub proof fn random_values_are_drawn_in_order(rand: Respond1Rand, rng: RngState)
    requires
        rand_drawn(rand, rng),
    ensures
        rand.ch@ == rng.bytes(32),
        rand.ek@ == rng.skip(32).bytes(32),
        rand.pke_eph_sk@ == rng.skip(32).skip(32).bytes(32),
        rand.pke_nonce@ == rng.skip(32).skip(32).skip(32).bytes(24),
{
}

/// The seed of an experiment covers its tag and both of its numbers: other numbers give other
/// hash inputs.
pub proof fn seeds_cover_their_numbers(tag: Seq<u8>, n: usize, t: usize, n2: usize, t2: usize)
    ensures
        seed_of(tag, n, t) == blake3_hash(tag + u64_le(n as u64) + u64_le(t as u64)),
        n as u64 != n2 as u64 || t as u64 != t2 as u64 ==> tag + u64_le(n as u64) + u64_le(
            t as u64,
        ) != tag + u64_le(n2 as u64) + u64_le(t2 as u64),
{
    vstd::bytes::lemma_auto_spec_u64_to_from_le_bytes();
    let k = tag.len() as int;
    let a = tag + u64_le(n as u64) + u64_le(t as u64);
    let b = tag + u64_le(n2 as u64) + u64_le(t2 as u64);
    assert(a.subrange(k, k + 8) =~= u64_le(n as u64));
    assert(a.subrange(k + 8, k + 16) =~= u64_le(t as u64));
    assert(b.subrange(k, k + 8) =~= u64_le(n2 as u64));
    assert(b.subrange(k + 8, k + 16) =~= u64_le(t2 as u64));
}

} // verus!
