//! What the measured runs of AugSSO do: which random values go where, how far a round comes,
//! what an update leaves in the servers, and what each measured piece of work returns.
use vstd::prelude::*;
use vstd::string::StringSliceAdditionalSpecFns;

use crate::aead::{opened, sealed, CtBlob};
use crate::augsso::{
    client_poly, client_secret, message_shares, password_g1, record_of, AugSsoServer, RecordState,
    RegistrationMsg, ServerState,
};
use crate::augsso_auth::{
    after_nonces, answers, first_response, phase1_accepts, recovered_sigma, response_of,
    ClientRequest, Respond1Rand, ServerSession,
};
use crate::augsso_fixture::{
    after_responses, challenge_accepted, challenge_ids, fixture_client_poly, fixture_rng,
    rand_drawn, seed_of, Fixture, IterData,
};
use crate::augsso_prims::{aug_prim_name, aug_prims, filled, sample_point, AugPrim, AugPrimOut, AugPrims};
use crate::augsso_steps::{
    accepting, after_first_round, after_second_round, after_update_round, answering,
    answering_update, drawn_response, drawn_session, update_drawn,
};
use crate::augsso_token::{finalize_accepts, partial_tokens, token_plain, Response2};
use crate::augsso_update::{
    after_update_rands, answers_update, hardened_by, hardening_keys, hardens, new_public,
    new_values, old_secret, phi_values, sent_key, server_after_update, update_accepted_at,
    update_accepting, update_answers, update_challenge_accepted, update_challenge_ids,
    update_first_accepted, update_gets, update_got, update_reached, update_responders,
    update_responders2, update_response1, update_returned, update_started, update_succeeds,
    update_yields, PasswordUpdateClientState, PasswordUpdateIterData, PasswordUpdateRequest,
    PasswordUpdateResponse2, PasswordUpdateServerSession, UpdateResponse1,
};
use crate::augsso_work::{
    aug_sp_name, aug_sps, rng_for, tag_of, AugSp, AugSpOut, AugWork, Purpose, Use,
};
use crate::bls::{g1_mul, g1_of, g1_valid, g2_of, order, pairings_equal, G1};
use crate::bytes::le_nat;
use crate::crypto_augsso::{first_nonzero, nonzero_drawn, pke_opened, pke_sealed};
use crate::field::{inverse_of, sharing_poly, weights};
use crate::group::combined_at_zero;
use crate::hash::{blake3_hash, blake3_wide};
use crate::ids::{place_of, sorted};
use crate::keys::x25519_public;
use crate::rng::RngState;

verus! {

/// A generator after `k` draws of 64 bytes.
pub open spec fn after_wide(rng: RngState, k: nat) -> RngState
    decreases k,
{
    if k == 0 {
        rng
    } else {
        after_wide(rng.skip(64), (k - 1) as nat)
    }
}

/// The number that a draw of 64 bytes gives.
pub open spec fn wide_value(rng: RngState) -> nat {
    le_nat(rng.bytes(64)) % order()
}

/// A number that must not be zero is the first draw that is not, and the generator stands
/// behind it.
pub proof fn nonzero_numbers_are_the_first_drawn(rng: RngState, left: nat)
    ensures
        match first_nonzero(rng, left).0 {
            Some(v) => v != 0 && exists|k: nat|
                k < left && #[trigger] wide_value(after_wide(rng, k)) == v && first_nonzero(
                    rng,
                    left,
                ).1 == after_wide(rng, k + 1) && forall|j: nat|
                    j < k ==> #[trigger] wide_value(after_wide(rng, j)) == 0,
            None => forall|j: nat| j < left ==> #[trigger] wide_value(after_wide(rng, j)) == 0,
        },
    decreases left,
{
    reveal_with_fuel(after_wide, 2);
    if left > 0 {
        assert(after_wide(rng, 0) == rng);
        assert(after_wide(rng, 1) == rng.skip(64));
        if wide_value(rng) == 0 {
            let next = rng.skip(64);
            let m = (left - 1) as nat;
            nonzero_numbers_are_the_first_drawn(next, m);
            if first_nonzero(next, m).0 is Some {
                let v = first_nonzero(next, m).0->Some_0;
                let k = choose|k: nat|
                    k < m && #[trigger] wide_value(after_wide(next, k)) == v && first_nonzero(
                        next,
                        m,
                    ).1 == after_wide(next, k + 1) && forall|j: nat|
                        j < k ==> #[trigger] wide_value(after_wide(next, j)) == 0;
                assert(wide_value(after_wide(rng, k + 1)) == v);
                assert(after_wide(rng, k + 2) == after_wide(next, k + 1));
                assert forall|j: nat| j < k + 1 implies #[trigger] wide_value(after_wide(rng, j))
                    == 0 by {
                    if j > 0 {
                        assert(wide_value(after_wide(next, (j - 1) as nat)) == 0);
                    }
                }
            } else {
                assert forall|j: nat| j < left implies #[trigger] wide_value(after_wide(rng, j))
                    == 0 by {
                    if j > 0 {
                        assert(wide_value(after_wide(next, (j - 1) as nat)) == 0);
                    }
                }
            }
        } else {
            assert(wide_value(after_wide(rng, 0)) != 0);
        }
    }
}

/// A response takes 120 bytes of the generator, and those of an update message 144.
pub proof fn responses_draw_in_turn(rng: RngState, k: nat)
    ensures
        after_responses(rng, 0) == rng,
        after_responses(rng, k + 1) == after_responses(rng, k).skip(32).skip(32).skip(32).skip(24),
        after_update_rands(rng, 0) == rng,
        after_update_rands(rng, k + 1) == after_update_rands(rng, k).skip(32).skip(32).skip(
            32,
        ).skip(24).skip(24),
{
}

/// The first round stops at the first server that does not answer: all before it do.
pub proof fn first_round_stops_at_the_first_silent(
    s: Seq<AugSsoServer>,
    pld: Seq<u8>,
    bpw: Seq<u8>,
    k: nat,
    t: nat,
)
    requires
        k <= t,
    ensures
        k <= answering(s, pld, bpw, k, t) <= t,
        forall|j: int|
            k <= j < answering(s, pld, bpw, k, t) ==> (#[trigger] s[j])@.records.dom().contains(
                pld.subrange(32, 64),
            ) && g1_valid(bpw),
        answering(s, pld, bpw, k, t) < t ==> !((s[answering(
            s,
            pld,
            bpw,
            k,
            t,
        ) as int])@.records.dom().contains(pld.subrange(32, 64)) && g1_valid(bpw)),
    decreases t - k,
{
    if k < t && answers(s[k as int]@, pld, bpw) {
        first_round_stops_at_the_first_silent(s, pld, bpw, k + 1, t);
    }
}

/// The first round draws for each server that answers, and for the one it stops at where that
/// knows the client.
pub proof fn first_round_draws_for_the_servers_asked(
    fx: Fixture,
    req: ClientRequest,
    rng: RngState,
)
    ensures
        ({
            let k = answering(fx.servers@, req.pld@, req.bpw@, 0, fx.t as nat);
            &&& k == fx.t ==> after_first_round(fx, req, rng) == after_responses(rng, k)
            &&& k < fx.t && fx.servers@[k as int]@.records.dom().contains(
                req.pld@.subrange(32, 64),
            ) ==> after_first_round(fx, req, rng) == after_responses(rng, k + 1)
            &&& k < fx.t && !fx.servers@[k as int]@.records.dom().contains(
                req.pld@.subrange(32, 64),
            ) ==> after_first_round(fx, req, rng) == after_responses(rng, k)
        }),
{
    first_round_stops_at_the_first_silent(fx.servers@, req.pld@, req.bpw@, 0, fx.t as nat);
}

/// A drawn response is the power of the blinded password by the client's share and, encrypted
/// to the client's key, the challenge and the session key. The session keeps both and the
/// payload.
pub proof fn drawn_responses_hold_challenge_and_key(
    srv: ServerState,
    pld: Seq<u8>,
    bpw: Seq<u8>,
    rng: RngState,
    s: ServerSession,
)
    ensures
        ({
            let rec = srv.records[pld.subrange(32, 64)];
            let ek = rng.bytes(32);
            let ch = rng.skip(32).bytes(32);
            let r = drawn_response(srv, pld, bpw, rng);
            &&& r.server_id == srv.id
            &&& r.sigma_i == g1_mul(bpw, rec.sk_i)
            &&& r.ct_res == pke_sealed(
                rec.rpk,
                Seq::empty(),
                ch + ek,
                rng.skip(32).skip(32).bytes(32),
                rng.skip(32).skip(32).skip(32).bytes(24),
            )
            &&& drawn_session(s, srv, pld, rng) <==> s.server_id == srv.id && s.ek@ == ek && s.ch@
                == ch && s.pld@ == pld
        }),
{
}

/// A returned challenge is accepted where the entry for the server opens under the session key
/// to the session's challenge. The second round stops at the first server where it does not.
pub proof fn second_round_stops_at_the_first_refused(
    sess: Seq<ServerSession>,
    s: Seq<(u32, CtBlob<32>)>,
    k: nat,
    t: nat,
    rng: RngState,
)
    requires
        k <= t,
    ensures
        k <= accepting(sess, s, k, t) <= t,
        forall|j: int|
            k <= j < accepting(sess, s, k, t) ==> (place_of(
                challenge_ids(s),
                (j + 1) as u32,
            ) matches Some(p) && opened((#[trigger] sess[j]).ek@, Seq::empty(), s[p].1@) == Some(
                sess[j].ch@,
            )),
        accepting(sess, s, k, t) < t ==> !challenge_accepted(
            sess[accepting(sess, s, k, t) as int],
            s,
            accepting(sess, s, k, t) as int,
        ),
        ({
            let m = accepting(sess, s, 0, t);
            after_second_round(sess, s, t, rng) == if m < t && place_of(
                challenge_ids(s),
                (m + 1) as u32,
            ) is Some {
                after_nonces(rng, m + 1)
            } else {
                after_nonces(rng, m)
            }
        }),
    decreases t - k,
{
    if k < t && challenge_accepted(sess[k as int], s, k as int) {
        second_round_stops_at_the_first_refused(sess, s, k + 1, t, rng);
    }
}

/// The entries of a round are found by their server numbers.
pub proof fn entries_are_found_by_number(
    s: Seq<(u32, CtBlob<32>)>,
    u: Seq<(u32, CtBlob<64>)>,
    r: Seq<PasswordUpdateResponse2>,
    i: int,
)
    ensures
        challenge_ids(s).len() == s.len(),
        0 <= i < s.len() ==> challenge_ids(s)[i] == s[i].0,
        update_challenge_ids(u).len() == u.len(),
        0 <= i < u.len() ==> update_challenge_ids(u)[i] == u[i].0,
        update_responders2(r).len() == r.len(),
        0 <= i < r.len() ==> update_responders2(r)[i] == r[i].server_id,
{
}

/// In a run each server answers the blinded password with its own random values, the client
/// sends each the challenge that it found in the answer, sealed under the key found with it,
/// and each server seals its part of the token under its session key.
pub proof fn runs_return_the_challenges_found(fx: Fixture, it: IterData, j: int, k: int)
    requires
        0 <= j < fx.t,
        0 <= k < sorted(fx.t_set@).len(),
    ensures
        fx.blinded(it) == g1_mul(password_g1(fx.password@), it.r@),
        fx.first_answers(it).len() == fx.t,
        fx.first_answers(it)[j] == first_response(
            fx.servers@[j]@,
            fx.pld@,
            g1_mul(password_g1(fx.password@), it.r@),
            it.r1@[j],
        ),
        pke_opened(
            client_secret(
                recovered_sigma(fx.first_answers(it), sorted(fx.t_set@), it.r@),
                fx.password@,
            ),
            Seq::empty(),
            response_of(fx.first_answers(it), sorted(fx.t_set@)[k]).ct_res,
        ) matches Some(pt) ==> fx.returned(it, k) == sealed(
            pt.subrange(32, 64),
            Seq::empty(),
            pt.subrange(0, 32),
            it.ctch_nonces@[k]@,
        ) && fx.found_keys(it)[k] == (sorted(fx.t_set@)[k], pt.subrange(32, 64)),
        fx.second_answers(it)[j].server_id == fx.servers@[j]@.id,
        fx.second_answers(it)[j].ct_tkn == sealed(
            it.r1@[j].ek@,
            Seq::empty(),
            token_plain(fx.servers@[j]@, fx.pld@),
            it.cttkn_nonces@[j]@,
        ),
        fx.second_answers(it).len() == fx.t,
        fx.found_keys(it).len() == sorted(fx.t_set@).len(),
{
}

/// The token of a run is a group element that pairs with the generator as the hashed payload
/// with the key, and combines what the accepted answers hold. There is none where a server
/// does not answer, a round is refused or a challenge does not come back.
pub proof fn run_tokens_verify(fx: Fixture, it: IterData, j: int)
    requires
        0 <= j < fx.t,
    ensures
        !answers(fx.servers@[j]@, fx.pld@, fx.blinded(it)) ==> fx.token_of(it) is None,
        !(place_of(sorted(fx.t_set@), (j + 1) as u32) matches Some(p) && opened(
            it.r1@[j].ek@,
            Seq::empty(),
            fx.returned(it, p),
        ) == Some(it.r1@[j].ch@)) ==> fx.token_of(it) is None,
        !phase1_accepts(
            fx.password@,
            it.r@,
            fx.t_set@,
            fx.blinded(it),
            fx.first_answers(it),
            crate::augsso::keyed(fx.pk_shares@),
        ) ==> fx.token_of(it) is None,
        !finalize_accepts(
            fx.t_set@,
            fx.pld@,
            fx.second_answers(it),
            fx.found_keys(it),
            crate::augsso::keyed(fx.gamma_pub_shares@),
        ) ==> fx.token_of(it) is None,
        fx.token_of(it) matches Some(tk) ==> g1_valid(tk) && pairings_equal(
            tk,
            g2_of(1),
            g1_of(le_nat(blake3_wide("augsso/H_pld/v1".spec_bytes() + fx.pld@)) % order()),
            fx.gamma_pk@,
        ) && tk == combined_at_zero::<G1>(
            sorted(fx.t_set@),
            partial_tokens(fx.second_answers(it), fx.found_keys(it), sorted(fx.t_set@)),
        ),
{
    if !(place_of(sorted(fx.t_set@), (j + 1) as u32) matches Some(p) && opened(
        it.r1@[j].ek@,
        Seq::empty(),
        fx.returned(it, p),
    ) == Some(it.r1@[j].ch@)) {
        assert(!fx.gets_challenge(it, j));
    }
}

/// The generators and the client's polynomial of a fixture follow from its numbers; the shares
/// of a registration are what the messages hold, and a server records them with their public
/// key.
pub proof fn fixtures_are_seeded_by_their_numbers(
    n: usize,
    t: usize,
    sk: nat,
    rng: RngState,
    msgs: Seq<RegistrationMsg>,
    i: int,
)
    requires
        0 <= i < msgs.len(),
    ensures
        fixture_rng(n, t) == RngState::start(seed_of("augsso/fixture/v1".spec_bytes(), n, t)),
        client_poly(sk, t as nat, rng) == sharing_poly(sk, t as nat, rng, order()),
        fixture_client_poly(n, t) == ({
            let r = crate::augsso::after_setup(t as nat, fixture_rng(n, t).skip(32).skip(32));
            sharing_poly(nonzero_drawn(r).0->Some_0, t as nat, nonzero_drawn(r).1, order())
        }),
        message_shares(msgs)[i] == (msgs[i].server_id, msgs[i].sk_i@),
        record_of(msgs[i]) == (RecordState {
            sk_i: msgs[i].sk_i@,
            rpk: msgs[i].rpk@,
            pk_i: g2_of(msgs[i].sk_i@),
        }),
{
}

/// An update round stops at the first server that does not answer. It draws for every server
/// that answers and for the one it stops at.
pub proof fn update_round_stops_at_the_first_silent(
    s: Seq<AugSsoServer>,
    req: PasswordUpdateRequest,
    k: nat,
    n: nat,
    fx: Fixture,
    rng: RngState,
)
    requires
        k <= n,
    ensures
        k <= answering_update(s, req, k, n) <= n,
        forall|j: int|
            k <= j < answering_update(s, req, k, n) ==> answers_update((#[trigger] s[j])@, req),
        answering_update(s, req, k, n) < n ==> !answers_update(
            s[answering_update(s, req, k, n) as int]@,
            req,
        ),
        ({
            let m = answering_update(fx.servers@, req, 0, fx.n as nat);
            after_update_round(fx, req, rng) == after_responses(
                rng,
                if m < fx.n {
                    m + 1
                } else {
                    m
                },
            )
        }),
    decreases n - k,
{
    if k < n && answers_update(s[k as int]@, req) {
        update_round_stops_at_the_first_silent(s, req, k + 1, n, fx, rng);
    }
}

/// The server's state for an update keeps the client, its blinded new password, and the
/// challenge and key that the response holds.
pub proof fn update_sessions_keep_what_was_drawn(
    resp: crate::augsso_update::PasswordUpdateResponse1,
    sess: PasswordUpdateServerSession,
    srv: ServerState,
    req: PasswordUpdateRequest,
    rng: RngState,
)
    requires
        update_drawn(resp, sess, srv, req, rng),
    ensures
        sess.server_id == srv.id,
        sess.client_id == req.client_id,
        sess.bpw_new == req.bpw_new,
        sess.ch@ == rng.bytes(32),
        sess.ek@ == rng.skip(32).bytes(32),
        resp.server_id == srv.id,
        resp.sigma_old_i@ == g1_mul(req.bpw_old@, srv.records[req.client_id.0@].sk_i),
        resp.ct_res@ == pke_sealed(
            srv.records[req.client_id.0@].rpk,
            Seq::empty(),
            rng.bytes(32) + rng.skip(32).bytes(32) + g1_mul(
                req.bpw_new@,
                srv.records[req.client_id.0@].sk_i,
            ),
            rng.skip(32).skip(32).bytes(32),
            rng.skip(32).skip(32).skip(32).bytes(24),
        ),
{
    let rand = choose|rand: Respond1Rand| #[trigger]
        rand_drawn(rand, rng) && resp@ == update_response1(srv, req, rand) && sess == (
        PasswordUpdateServerSession {
            server_id: srv.id,
            client_id: req.client_id,
            bpw_new: req.bpw_new,
            ek: rand.ek,
            ch: rand.ch,
        });
    assert(rand_drawn(rand, rng));
    let plain = rand.ch@ + rand.ek@ + g1_mul(req.bpw_new@, srv.records[req.client_id.0@].sk_i);
    assert(resp@.ct_res == pke_sealed(
        srv.records[req.client_id.0@].rpk,
        crate::augsso_auth::no_aad(),
        plain,
        rand.pke_eph_sk@,
        rand.pke_nonce@,
    ));
}

/// The client sends every server the challenge that it found in the response and the public
/// key of the new password's value, sealed under the key found in the response.
pub proof fn updates_return_challenge_and_new_key(
    fx: Fixture,
    it: PasswordUpdateIterData,
    st: PasswordUpdateClientState,
    req: PasswordUpdateRequest,
    i: int,
)
    requires
        0 <= i < fx.n,
    ensures
        ({
            let s = update_answers(fx, it, req);
            let sk = old_secret(st.old_password@, st.r_old@, st.t_set@, s);
            &&& s.len() == fx.n
            &&& s[i] == update_response1(fx.servers@[i]@, req, it.respond1_rand@[i])
            &&& pke_opened(sk, Seq::empty(), s[i].ct_res) matches Some(pt) ==> update_returned(
                fx,
                it,
                st,
                req,
                i,
            ) == sealed(
                pt.subrange(32, 64),
                Seq::empty(),
                pt.subrange(0, 32) + new_public(st.new_password@, st.r_new@, st.t_set@, sk, s),
                it.ctch_nonces@[i]@,
            )
        }),
{
}

/// The new public key is that of the new password and of the value that the opened parts of the
/// servers chosen combine to, without the new blinding factor.
pub proof fn new_key_is_for_the_new_password(
    new_password: Seq<u8>,
    r_new: nat,
    t_set: Seq<u32>,
    sk: Seq<u8>,
    s: Seq<UpdateResponse1>,
    k: int,
)
    requires
        0 <= k < t_set.len(),
    ensures
        new_public(new_password, r_new, t_set, sk, s) == x25519_public(
            client_secret(
                g1_mul(
                    combined_at_zero::<G1>(t_set, new_values(sk, s, t_set)),
                    inverse_of(r_new, order()),
                ),
                new_password,
            ),
        ),
        new_values(sk, s, t_set).len() == t_set.len(),
        pke_opened(
            sk,
            Seq::empty(),
            s[place_of(update_responders(s), t_set[k])->Some_0].ct_res,
        ) matches Some(pt) ==> new_values(sk, s, t_set)[k] == pt.subrange(64, 112),
{
}

/// The round of returned challenges stops at the first server that does not accept its own:
/// the servers before it accept, and the key that each then takes is what stands behind the
/// challenge.
pub proof fn update_challenges_stop_at_the_first_refused(
    servers: Seq<AugSsoServer>,
    sess: Seq<PasswordUpdateServerSession>,
    s: Seq<(u32, CtBlob<64>)>,
    k: nat,
)
    requires
        k <= sess.len(),
    ensures
        k <= update_accepting(servers, sess, s, k) <= sess.len(),
        forall|j: int|
            k <= j < update_accepting(servers, sess, s, k) ==> (place_of(
                update_challenge_ids(s),
                (j + 1) as u32,
            ) matches Some(p) && update_challenge_accepted(
                servers[j]@,
                #[trigger] sess[j],
                s[p].1@,
            ) && (opened(sess[j].ek@, Seq::empty(), s[p].1@) matches Some(pt) && sent_key(
                sess[j],
                s,
                j,
            ) == pt.subrange(32, 64))),
        update_accepting(servers, sess, s, k) < sess.len() ==> !update_accepted_at(
            servers[update_accepting(servers, sess, s, k) as int]@,
            sess[update_accepting(servers, sess, s, k) as int],
            s,
            update_accepting(servers, sess, s, k) as int,
        ),
    decreases sess.len() - k,
{
    if k < sess.len() && update_accepted_at(servers[k as int]@, sess[k as int], s, k as int) {
        update_challenges_stop_at_the_first_refused(servers, sess, s, k + 1);
    }
}

/// An update reaches the servers up to the first that does not accept what it got.
pub proof fn updates_reach_servers_in_order(
    fx: Fixture,
    it: PasswordUpdateIterData,
    st: PasswordUpdateClientState,
    req: PasswordUpdateRequest,
    k: nat,
)
    requires
        k <= fx.n,
    ensures
        k <= update_reached(fx, it, st, req, k) <= fx.n,
        forall|j: int|
            k <= j < update_reached(fx, it, st, req, k) ==> (#[trigger] update_got(
                fx,
                it,
                st,
                req,
                j,
            ) matches Some(b) && update_challenge_accepted(
                fx.servers@[j]@,
                PasswordUpdateServerSession {
                    server_id: fx.servers@[j]@.id,
                    client_id: req.client_id,
                    bpw_new: req.bpw_new,
                    ek: it.respond1_rand@[j].ek,
                    ch: it.respond1_rand@[j].ch,
                },
                b,
            )),
        update_reached(fx, it, st, req, k) < fx.n ==> !update_gets(
            fx,
            it,
            st,
            req,
            update_reached(fx, it, st, req, k) as int,
        ),
    decreases fx.n - k,
{
    if k < fx.n && update_gets(fx, it, st, req, k as int) {
        updates_reach_servers_in_order(fx, it, st, req, k + 1);
    }
}

/// An update gives each server that it reached the new key for the client, which stands behind
/// the challenge in what the server got; the share of the client and all other records stay. A
/// server not reached stays as it was, and so do all where the first round was refused.
pub proof fn updates_replace_the_client_key(
    fx: Fixture,
    it: PasswordUpdateIterData,
    st: PasswordUpdateClientState,
    req: PasswordUpdateRequest,
    j: int,
    other: Seq<u8>,
)
    requires
        0 <= j < fx.n,
        other != fx.c.0@,
    ensures
        ({
            let before = fx.servers@[j]@;
            let after = server_after_update(fx, it, st, req, j);
            let reached = update_first_accepted(fx, it, st, req) && j < update_reached(
                fx,
                it,
                st,
                req,
                0,
            );
            let got = opened(
                it.respond1_rand@[j].ek@,
                Seq::empty(),
                update_got(fx, it, st, req, j)->Some_0,
            );
            &&& !reached ==> after == before
            &&& reached && got is Some ==> after.records[fx.c.0@].rpk == got->Some_0.subrange(
                32,
                64,
            )
            &&& reached ==> after.records[fx.c.0@].sk_i == before.records[fx.c.0@].sk_i
            &&& after.records.dom().contains(other) == before.records.dom().contains(other)
            &&& after.records.dom().contains(other) ==> after.records[other]
                == before.records[other]
            &&& after.id == before.id
            &&& after.gamma_i == before.gamma_i
            &&& after.phi_i == before.phi_i
            &&& after.pp == before.pp
        }),
{
}

/// An update starts from both passwords, each blinded with its own factor, for the client and
/// all servers of the fixture; its first round is accepted only where every server answers and
/// there is a nonce for each.
pub proof fn updates_start_from_both_passwords(
    fx: Fixture,
    new_password: Seq<u8>,
    it: PasswordUpdateIterData,
    st: PasswordUpdateClientState,
    req: PasswordUpdateRequest,
    j: int,
)
    requires
        update_started(fx, new_password, it, st, req),
        0 <= j < fx.n,
    ensures
        st.old_password@ == fx.password@,
        st.new_password@ == new_password,
        st.r_old@ == it.r_old@,
        st.r_new@ == it.r_new@,
        st.t_set@ == fx.t_set@,
        st.nsp == fx.n,
        req.client_id == fx.c,
        req.bpw_old@ == g1_mul(password_g1(fx.password@), it.r_old@),
        req.bpw_new@ == g1_mul(password_g1(new_password), it.r_new@),
        update_first_accepted(fx, it, st, req) ==> answers_update(fx.servers@[j]@, req)
            && it.ctch_nonces@.len() == fx.n,
{
}

/// A successful update reached every server, and gives the hardened value: the hash of the new
/// password and of the value that the answers of the servers chosen combine to, without the
/// new factor. Each of those answers is a group element that pairs with the generator as the
/// blinded new password with that server's hardening key.
pub proof fn successful_updates_harden(
    fx: Fixture,
    it: PasswordUpdateIterData,
    st: PasswordUpdateClientState,
    req: PasswordUpdateRequest,
    s: Seq<PasswordUpdateResponse2>,
    k: int,
)
    requires
        update_succeeds(fx, it, st, req, s),
        hardens(fx, req, s),
        0 <= k < st.t_set@.len(),
    ensures
        update_first_accepted(fx, it, st, req),
        update_reached(fx, it, st, req, 0) == fx.n,
        s.len() == fx.n,
        forall|j: int|
            0 <= j < fx.n ==> (#[trigger] s[j]).server_id == fx.servers@[j]@.id
                && s[j].sigma_phi_i@ == g1_mul(req.bpw_new@, fx.servers@[j]@.phi_i),
        hardened_by(st, s) == blake3_hash(
            "augsso/popular-password-harden/v1".spec_bytes() + g1_mul(
                combined_at_zero::<G1>(st.t_set@, phi_values(s, st.t_set@)),
                inverse_of(st.r_new@, order()),
            ) + st.new_password@,
        ),
        place_of(update_responders2(s), st.t_set@[k]) matches Some(p) && phi_values(
            s,
            st.t_set@,
        )[k] == s[p].sigma_phi_i@,
        g1_valid(phi_values(s, st.t_set@)[k]),
        pairings_equal(
            phi_values(s, st.t_set@)[k],
            g2_of(1),
            req.bpw_new@,
            crate::augsso_auth::key_of(hardening_keys(fx), st.t_set@[k]),
        ),
        st.r_new@ != 0,
{
    assert(place_of(update_responders2(s), st.t_set@[k]) is Some);
}

/// The hardening keys are the public hardening keys of the servers, under their numbers.
pub proof fn hardening_keys_are_the_servers(fx: Fixture, k: int)
    requires
        0 <= k < fx.servers@.len(),
    ensures
        hardening_keys(fx).len() == fx.servers@.len(),
        hardening_keys(fx)[k] == (fx.servers@[k]@.id, fx.servers@[k]@.phi_pub_i),
{
}

/// What an update returns is the hardened value of a run that started from both passwords and
/// succeeded.
pub proof fn updates_return_the_hardened_value(
    fx: Fixture,
    new_password: Seq<u8>,
    it: PasswordUpdateIterData,
    h: Seq<u8>,
)
    requires
        update_yields(fx, new_password, it, h),
    ensures
        exists|
            st: PasswordUpdateClientState,
            req: PasswordUpdateRequest,
            s: Seq<PasswordUpdateResponse2>,
        | #[trigger]
            update_started(fx, new_password, it, st, req) && #[trigger] hardens(fx, req, s)
                && update_succeeds(fx, it, st, req, s) && h == hardened_by(st, s),
{
}

/// The names under which the primitives and the work of a server are reported, in their order.
pub proof fn measured_names_are_known(i: int)
    ensures
        aug_prims().map(|i: int, p: AugPrim| aug_prim_name(p)) == seq![
            "hash_to_g1_pw"@,
            "hash_to_g1_pld"@,
            "lagrange_coeffs"@,
            "combine_g1"@,
            "pairing_check"@,
            "pke_kg"@,
            "pke_encrypt"@,
            "pke_decrypt"@,
            "aead_encrypt_32"@,
            "aead_decrypt_32"@,
            "aead_encrypt_112"@,
            "aead_decrypt_112"@,
        ],
        aug_sps().map(|i: int, p: AugSp| aug_sp_name(p)) == seq![
            "reg_store"@,
            "auth_db_get"@,
            "auth_respond1"@,
            "auth_respond2"@,
            "update_respond1"@,
            "update_respond2"@,
        ],
        sample_point(i) == g1_of(
            le_nat(blake3_wide("augsso/prim/pt".spec_bytes() + seq![(i % 256) as u8])) % order(),
        ),
{
}

/// What each measured primitive returns of the inputs it is measured on.
pub proof fn primitives_return_their_values(w: AugPrims, timed: bool, out: AugPrimOut)
    ensures
        w.yields(AugPrim::HashPassword, timed, out) ==> (out matches AugPrimOut::Point(x) && x@
            == g1_of(le_nat(blake3_wide("augsso/H_pw/v1".spec_bytes() + w.password@)) % order())),
        w.yields(AugPrim::HashPayload, timed, out) ==> (out matches AugPrimOut::Point(x) && x@
            == g1_of(le_nat(blake3_wide("augsso/H_pld/v1".spec_bytes() + w.pld@)) % order())),
        w.yields(AugPrim::Lagrange, timed, out) ==> (out matches AugPrimOut::Scalars(v)
            && crate::field::vals(v@) == weights(w.ids@, order())),
        w.yields(AugPrim::Combine, timed, out) ==> (out matches AugPrimOut::Point(x) && x@
            == combined_at_zero::<G1>(w.ids@, crate::group::encs(w.points@))),
        w.yields(AugPrim::Pairing, timed, out) ==> (out matches AugPrimOut::Truth(b) && b
            == pairings_equal(w.sig@, g2_of(1), w.h@, w.pk@)),
        w.yields(AugPrim::KeyPair, timed, out) ==> (out matches AugPrimOut::Keys(k) && k.sk@
            == blake3_hash("augsso/pke/kg/v1".spec_bytes() + filled(42, 32)) && k.pk@
            == x25519_public(k.sk@)),
        w.yields(AugPrim::Encrypt, timed, out) ==> (out matches AugPrimOut::Encrypted(c) && c@
            == pke_sealed(
            w.keys.pk@,
            Seq::empty(),
            filled(9, 64),
            if timed {
                w.rng_pke@.bytes(32)
            } else {
                filled(1, 32)
            },
            if timed {
                w.rng_pke@.skip(32).bytes(24)
            } else {
                filled(2, 24)
            },
        )),
        w.yields(AugPrim::Decrypt, timed, out) ==> (out matches AugPrimOut::Decrypted(m) && (
        m matches Ok(m) && m@ == filled(9, 64))),
        w.yields(AugPrim::Seal32, timed, out) ==> (out matches AugPrimOut::Sealed32(c) && c@
            == sealed(
            filled(3, 32),
            Seq::empty(),
            filled(4, 32),
            if timed {
                w.rng32@.bytes(24)
            } else {
                filled(5, 24)
            },
        )),
        w.yields(AugPrim::Open32, timed, out) ==> (out matches AugPrimOut::Opened32(m) && (
        m matches Ok(m) && m@ == filled(4, 32))),
        w.yields(AugPrim::Seal112, timed, out) ==> (out matches AugPrimOut::Sealed112(c) && c@
            == sealed(
            filled(6, 32),
            Seq::empty(),
            filled(7, 112),
            if timed {
                w.rng112@.bytes(24)
            } else {
                filled(8, 24)
            },
        )),
        w.yields(AugPrim::Open112, timed, out) ==> (out matches AugPrimOut::Opened112(m) && (
        m matches Ok(m) && m@ == filled(7, 112))),
{
}

/// The inputs of the primitives are the password, payload and key of the fixture, and the first
/// server's signature on the payload.
pub proof fn primitives_are_measured_on_the_fixture(w: AugPrims, fx: Fixture, n: usize, t: usize)
    requires
        w.prepared(fx, n, t),
    ensures
        w.password@ == fx.password@,
        w.pld == fx.pld,
        w.pk == fx.gamma_pk,
        w.ids@ == Seq::new(t as nat, |i: int| (i + 1) as u32),
        w.h@ == g1_of(le_nat(blake3_wide("augsso/H_pld/v1".spec_bytes() + fx.pld@)) % order()),
        w.sig@ == g1_mul(w.h@, fx.servers@[0]@.gamma_i),
        w.keys.pk@ == x25519_public(w.keys.sk@),
        w.encrypted@ == pke_sealed(
            w.keys.pk@,
            Seq::empty(),
            filled(9, 64),
            filled(1, 32),
            filled(2, 24),
        ),
        w.sealed32@ == sealed(filled(3, 32), Seq::empty(), filled(4, 32), filled(5, 24)),
        w.sealed112@ == sealed(filled(6, 32), Seq::empty(), filled(7, 112), filled(8, 24)),
{
}

/// The seeds of a server's work tell what is drawn from them, and for which purpose.
pub proof fn work_seeds_tell_their_use(n: usize, t: usize, p: Purpose, u: Use)
    ensures
        rng_for(p, u, n, t) == RngState::start(seed_of(tag_of(p, u), n, t)),
        tag_of(Purpose::Report, Use::Registration) == "bench_augsso/sp/reg_msg".spec_bytes(),
        tag_of(Purpose::Report, Use::FirstValues) == "bench_augsso/sp/auth1_it".spec_bytes(),
        tag_of(Purpose::Report, Use::FirstRng) == "bench_augsso/sp/auth1_rng".spec_bytes(),
        tag_of(Purpose::Report, Use::SecondValues) == "bench_augsso/sp/auth2_it".spec_bytes(),
        tag_of(Purpose::Report, Use::SecondRng) == "bench_augsso/sp/auth2_rng".spec_bytes(),
        tag_of(Purpose::Report, Use::UpdateValues) == "bench_augsso/sp/update_it".spec_bytes(),
        tag_of(Purpose::Report, Use::UpdateRng) == "bench_augsso/sp/update1_rng".spec_bytes(),
        tag_of(Purpose::Calibration, Use::Registration)
            == "bench_augsso/proc/store_msg".spec_bytes(),
        tag_of(Purpose::Calibration, Use::FirstValues)
            == "bench_augsso/proc/auth_it".spec_bytes(),
        tag_of(Purpose::Calibration, Use::FirstRng)
            == "bench_augsso/proc/auth_respond1_rng".spec_bytes(),
        tag_of(Purpose::Calibration, Use::SecondValues)
            == "bench_augsso/proc/auth_it".spec_bytes(),
        tag_of(Purpose::Calibration, Use::SecondRng)
            == "bench_augsso/proc/auth_respond2_rng".spec_bytes(),
        tag_of(Purpose::Calibration, Use::UpdateValues)
            == "bench_augsso/proc/update_it".spec_bytes(),
        tag_of(Purpose::Calibration, Use::UpdateRng)
            == "bench_augsso/proc/update_respond1_rng".spec_bytes(),
{
}

/// What the measured work of a server returns: whether the client is known, its answer to the
/// blinded password, its sealed part of the token, and its answers to an update. Where draws are
/// timed they come from the generators; otherwise they are those given.
pub proof fn work_returns_what_servers_answer(
    w: AugWork,
    srv: ServerState,
    timed: bool,
    out: AugSpOut,
)
    ensures
        w.yields(srv, AugSp::Store, timed, out) ==> out is Stored,
        w.yields(srv, AugSp::Lookup, timed, out) ==> (out matches AugSpOut::Found(b) && b
            == srv.records.dom().contains(w.c.0@)),
        w.yields(srv, AugSp::Respond1, timed, out) ==> (out matches AugSpOut::First(o) && (
        o matches Some(f) && f.0@ == if timed {
            drawn_response(srv, w.req.pld@, w.req.bpw@, w.rng1@)
        } else {
            first_response(srv, w.req.pld@, w.req.bpw@, w.rand)
        } && f.1.server_id == srv.id && f.1.pld == w.req.pld && f.1.ek@ == if timed {
            w.rng1@.bytes(32)
        } else {
            w.rand.ek@
        } && f.1.ch@ == if timed {
            w.rng1@.skip(32).bytes(32)
        } else {
            w.rand.ch@
        })),
        w.yields(srv, AugSp::Respond2, timed, out) ==> (out matches AugSpOut::Second(o) && (
        o matches Some(resp) && resp@ == (Response2 {
            server_id: srv.id,
            ct_tkn: sealed(
                w.sess.ek@,
                Seq::empty(),
                token_plain(srv, w.sess.pld@),
                if timed {
                    w.rng2@.bytes(24)
                } else {
                    w.nonce@
                },
            ),
        }))),
        w.yields(srv, AugSp::UpdateRespond1, timed, out) && !timed ==> (out matches AugSpOut::UpdateFirst(o) && (o matches Some(f) && f.0@ == update_response1(
            srv,
            w.upd_req,
            w.upd_rand,
        ) && f.1.ek == w.upd_rand.ek && f.1.ch == w.upd_rand.ch && f.1.server_id == srv.id
            && f.1.client_id == w.upd_req.client_id && f.1.bpw_new == w.upd_req.bpw_new)),
        w.yields(srv, AugSp::UpdateRespond1, timed, out) && timed ==> (out matches AugSpOut::UpdateFirst(o) && (o matches Some(f) && update_drawn(
            f.0,
            f.1,
            srv,
            w.upd_req,
            w.upd_rng@,
        ))),
        w.yields(srv, AugSp::UpdateRespond2, timed, out) ==> (out matches AugSpOut::UpdateSecond(o)
            && (o matches Some(resp) && resp.server_id == srv.id && resp.sigma_phi_i@ == g1_mul(
            w.upd_sess.bpw_new@,
            srv.phi_i,
        ) && (opened(w.upd_sess.ek@, Seq::empty(), w.upd_ct_ch@) matches Some(pt) ==> resp.new_rpk@
            == pt.subrange(32, 64)))),
{
}

} // verus!
