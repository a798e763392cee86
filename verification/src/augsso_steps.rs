//! The rounds of AugSSO with the servers' random values drawn as they are needed.
use vstd::prelude::*;

use crate::aead::{sealed, CtBlob};
use crate::augsso::{keyed, AugSsoServer, ServerState, CTCH_PT_LEN};
use crate::augsso_auth::{
    answers, client_in, no_aad, respond1, ClientRequest, Response1, ServerResponse1, ServerSession,
};
use crate::augsso_fixture::{
    after_responses, challenge_accepted, challenge_ids, rand_drawn, Fixture,
};
use crate::augsso_token::{respond2, token_plain, Response2, ServerResponse2};
use crate::augsso_auth::{after_nonces, Respond1Rand};
use crate::augsso_update::{
    answers_update, password_update_respond1, update_response1, PasswordUpdateRequest,
    PasswordUpdateResponse1, PasswordUpdateServerSession,
};
use crate::bls::{g1_mul, G2};
use crate::crypto_augsso::pke_sealed;
use crate::ids::{find_id, place_of};
use crate::rng::{Rng, RngState};

verus! {

/// The first response of a server that draws its session key, challenge, ephemeral secret
/// and nonce in this order.
pub open spec fn drawn_response(
    srv: ServerState,
    pld: Seq<u8>,
    bpw: Seq<u8>,
    rng: RngState,
) -> Response1 {
    let rec = srv.records[client_in(pld)];
    Response1 {
        server_id: srv.id,
        sigma_i: g1_mul(bpw, rec.sk_i),
        ct_res: pke_sealed(
            rec.rpk,
            no_aad(),
            rng.skip(32).bytes(32) + rng.bytes(32),
            rng.skip(32).skip(32).bytes(32),
            rng.skip(32).skip(32).skip(32).bytes(24),
        ),
    }
}

/// The session of a server that drew its values.
pub open spec fn drawn_session(s: ServerSession, srv: ServerState, pld: Seq<u8>, rng: RngState) -> bool {
    &&& s.server_id == srv.id
    &&& s.ek@ == rng.bytes(32)
    &&& s.ch@ == rng.skip(32).bytes(32)
    &&& s.pld@ == pld
}

/// How many of the servers from place `k` up to `t` answer before one does not, counted from
/// the first.
pub open spec fn answering(s: Seq<AugSsoServer>, pld: Seq<u8>, bpw: Seq<u8>, k: nat, t: nat) -> nat
    decreases t - k,
{
    if k < t && answers(s[k as int]@, pld, bpw) {
        answering(s, pld, bpw, k + 1, t)
    } else {
        k
    }
}

/// The generator after the first round: a server that knows the client draws, whether or not
/// it can answer, and the first that cannot ends the round.
pub open spec fn after_first_round(fx: Fixture, req: ClientRequest, rng: RngState) -> RngState {
    let t = fx.t as nat;
    let k = answering(fx.servers@, req.pld@, req.bpw@, 0, t);
    if k < t && fx.servers@[k as int]@.records.dom().contains(client_in(req.pld@)) {
        after_responses(rng, k + 1)
    } else {
        after_responses(rng, k)
    }
}

/// Asks the first `t` servers for their first responses; they draw their random values one
/// after the other.
pub fn first_round_drawn(fx: &Fixture, req: &ClientRequest, rng: &mut Rng) -> (r: Option<
    (Vec<ServerResponse1>, Vec<ServerSession>),
>)
    requires
        fx.t <= fx.servers@.len(),
    ensures
        r is Some <==> forall|j: int|
            0 <= j < fx.t ==> answers((#[trigger] fx.servers@[j])@, req.pld@, req.bpw@),
        r matches Some((resps, sess)) ==> {
            &&& resps@.len() == fx.t
            &&& sess@.len() == fx.t
            &&& forall|j: int|
                0 <= j < fx.t ==> (#[trigger] resps@[j])@ == drawn_response(
                    fx.servers@[j]@,
                    req.pld@,
                    req.bpw@,
                    after_responses(old(rng)@, j as nat),
                )
            &&& forall|j: int|
                0 <= j < fx.t ==> drawn_session(
                    #[trigger] sess@[j],
                    fx.servers@[j]@,
                    req.pld@,
                    after_responses(old(rng)@, j as nat),
                )
            &&& final(rng)@ == after_responses(old(rng)@, fx.t as nat)
        },
        final(rng)@ == after_first_round(*fx, *req, old(rng)@),
{
    let ghost r0 = rng@;
    let mut resps: Vec<ServerResponse1> = Vec::with_capacity(fx.t);
    let mut sess: Vec<ServerSession> = Vec::with_capacity(fx.t);
    let mut j: usize = 0;
    while j < fx.t
        invariant
            j <= fx.t <= fx.servers@.len(),
            resps@.len() == j,
            sess@.len() == j,
            r0 == old(rng)@,
            rng@ == after_responses(r0, j as nat),
            answering(fx.servers@, req.pld@, req.bpw@, 0, fx.t as nat) == answering(
                fx.servers@,
                req.pld@,
                req.bpw@,
                j as nat,
                fx.t as nat,
            ),
            forall|k: int|
                0 <= k < j ==> answers((#[trigger] fx.servers@[k])@, req.pld@, req.bpw@),
            forall|k: int|
                0 <= k < j ==> (#[trigger] resps@[k])@ == drawn_response(
                    fx.servers@[k]@,
                    req.pld@,
                    req.bpw@,
                    after_responses(r0, k as nat),
                ),
            forall|k: int|
                0 <= k < j ==> drawn_session(
                    #[trigger] sess@[k],
                    fx.servers@[k]@,
                    req.pld@,
                    after_responses(r0, k as nat),
                ),
        decreases fx.t - j,
    {
        match respond1(&fx.servers[j], req, rng) {
            Some((resp, s)) => {
                resps.push(resp);
                sess.push(s);
            },
            None => {
                assert(!answers(fx.servers@[j as int]@, req.pld@, req.bpw@));
                assert(answering(fx.servers@, req.pld@, req.bpw@, 0, fx.t as nat) == j);
                return None;
            },
        }
        j = j + 1;
    }
    Some((resps, sess))
}

/// How many of the servers from place `k` up to `t` accept their challenge before one does
/// not, counted from the first.
pub open spec fn accepting(
    sess: Seq<ServerSession>,
    ct_ch: Seq<(u32, CtBlob<CTCH_PT_LEN>)>,
    k: nat,
    t: nat,
) -> nat
    decreases t - k,
{
    if k < t && challenge_accepted(sess[k as int], ct_ch, k as int) {
        accepting(sess, ct_ch, k + 1, t)
    } else {
        k
    }
}

/// The generator after the second round: a server that has a challenge draws, whether or not
/// it accepts, and the first that does not ends the round.
pub open spec fn after_second_round(
    sess: Seq<ServerSession>,
    ct_ch: Seq<(u32, CtBlob<CTCH_PT_LEN>)>,
    t: nat,
    rng: RngState,
) -> RngState {
    let k = accepting(sess, ct_ch, 0, t);
    if k < t && place_of(challenge_ids(ct_ch), (k + 1) as u32) is Some {
        after_nonces(rng, k + 1)
    } else {
        after_nonces(rng, k)
    }
}

/// Hands the first `t` servers their challenges; they draw their nonces one after the other.
pub fn second_round_drawn(
    fx: &Fixture,
    sess: &Vec<ServerSession>,
    ct_ch: &Vec<(u32, CtBlob<CTCH_PT_LEN>)>,
    rng: &mut Rng,
) -> (r: Option<Vec<ServerResponse2>>)
    requires
        fx.t <= fx.servers@.len(),
        fx.t <= sess@.len(),
        fx.t <= u32::MAX,
    ensures
        r is Some <==> forall|j: int|
            0 <= j < fx.t ==> challenge_accepted(#[trigger] sess@[j], ct_ch@, j),
        r matches Some(resps) ==> {
            &&& resps@.len() == fx.t
            &&& forall|j: int|
                0 <= j < fx.t ==> (#[trigger] resps@[j])@ == (Response2 {
                    server_id: fx.servers@[j]@.id,
                    ct_tkn: sealed(
                        sess@[j].ek@,
                        no_aad(),
                        token_plain(fx.servers@[j]@, sess@[j].pld@),
                        after_nonces(old(rng)@, j as nat).bytes(24),
                    ),
                })
            &&& final(rng)@ == after_nonces(old(rng)@, fx.t as nat)
        },
        final(rng)@ == after_second_round(sess@, ct_ch@, fx.t as nat, old(rng)@),
{
    let ghost r0 = rng@;
    let mut ids: Vec<u32> = Vec::with_capacity(ct_ch.len());
    let mut i: usize = 0;
    while i < ct_ch.len()
        invariant
            i <= ct_ch@.len(),
            ids@.len() == i,
            forall|k: int| 0 <= k < i ==> ids@[k] == ct_ch@[k].0,
        decreases ct_ch@.len() - i,
    {
        ids.push(ct_ch[i].0);
        i = i + 1;
    }
    assert(ids@ =~= challenge_ids(ct_ch@));
    let mut resps: Vec<ServerResponse2> = Vec::with_capacity(fx.t);
    let mut j: usize = 0;
    while j < fx.t
        invariant
            j <= fx.t <= fx.servers@.len(),
            fx.t <= sess@.len(),
            fx.t <= u32::MAX,
            ids@ == challenge_ids(ct_ch@),
            ids@.len() == ct_ch@.len(),
            resps@.len() == j,
            r0 == old(rng)@,
            rng@ == after_nonces(r0, j as nat),
            accepting(sess@, ct_ch@, 0, fx.t as nat) == accepting(
                sess@,
                ct_ch@,
                j as nat,
                fx.t as nat,
            ),
            forall|k: int| 0 <= k < j ==> challenge_accepted(#[trigger] sess@[k], ct_ch@, k),
            forall|k: int|
                0 <= k < j ==> (#[trigger] resps@[k])@ == (Response2 {
                    server_id: fx.servers@[k]@.id,
                    ct_tkn: sealed(
                        sess@[k].ek@,
                        no_aad(),
                        token_plain(fx.servers@[k]@, sess@[k].pld@),
                        after_nonces(r0, k as nat).bytes(24),
                    ),
                }),
        decreases fx.t - j,
    {
        let at = match find_id(ids.as_slice(), (j + 1) as u32) {
            Some(at) => at,
            None => {
                assert(!challenge_accepted(sess@[j as int], ct_ch@, j as int));
                assert(accepting(sess@, ct_ch@, 0, fx.t as nat) == j);
                return None;
            },
        };
        match respond2(&fx.servers[j], &sess[j], &ct_ch[at].1, rng) {
            Some(resp) => {
                resps.push(resp);
            },
            None => {
                assert(!challenge_accepted(sess@[j as int], ct_ch@, j as int));
                assert(accepting(sess@, ct_ch@, 0, fx.t as nat) == j);
                return None;
            },
        }
        j = j + 1;
    }
    Some(resps)
}

/// A first response to a password update is that of a server that drew its values.
pub open spec fn update_drawn(
    resp: PasswordUpdateResponse1,
    sess: PasswordUpdateServerSession,
    srv: ServerState,
    req: PasswordUpdateRequest,
    rng: RngState,
) -> bool {
    exists|rand: Respond1Rand| #[trigger]
        rand_drawn(rand, rng) && resp@ == update_response1(srv, req, rand) && sess == (
        PasswordUpdateServerSession {
            server_id: srv.id,
            client_id: req.client_id,
            bpw_new: req.bpw_new,
            ek: rand.ek,
            ch: rand.ch,
        })
}

/// How many of the servers from place `k` up to `n` answer a password update before one does
/// not, counted from the first.
pub open spec fn answering_update(
    s: Seq<AugSsoServer>,
    req: PasswordUpdateRequest,
    k: nat,
    n: nat,
) -> nat
    decreases n - k,
{
    if k < n && answers_update(s[k as int]@, req) {
        answering_update(s, req, k + 1, n)
    } else {
        k
    }
}

/// The generator after the first round of a password update: every server that is asked
/// draws, and the first that cannot answer ends the round.
pub open spec fn after_update_round(
    fx: Fixture,
    req: PasswordUpdateRequest,
    rng: RngState,
) -> RngState {
    let k = answering_update(fx.servers@, req, 0, fx.n as nat);
    if k < fx.n {
        after_responses(rng, k + 1)
    } else {
        after_responses(rng, k)
    }
}

/// Asks all servers for their first responses to a password update; they draw their random
/// values one after the other.
pub fn update_first_round_drawn(fx: &Fixture, req: &PasswordUpdateRequest, rng: &mut Rng) -> (r:
    Option<(Vec<PasswordUpdateResponse1>, Vec<PasswordUpdateServerSession>)>)
    requires
        fx.n <= fx.servers@.len(),
    ensures
        r is Some <==> forall|j: int|
            0 <= j < fx.n ==> answers_update((#[trigger] fx.servers@[j])@, *req),
        r matches Some((resps, sess)) ==> {
            &&& resps@.len() == fx.n
            &&& sess@.len() == fx.n
            &&& forall|j: int|
                0 <= j < fx.n ==> update_drawn(
                    #[trigger] resps@[j],
                    sess@[j],
                    fx.servers@[j]@,
                    *req,
                    after_responses(old(rng)@, j as nat),
                )
            &&& final(rng)@ == after_responses(old(rng)@, fx.n as nat)
        },
        final(rng)@ == after_update_round(*fx, *req, old(rng)@),
{
    let ghost r0 = rng@;
    let mut resps: Vec<PasswordUpdateResponse1> = Vec::with_capacity(fx.n);
    let mut sess: Vec<PasswordUpdateServerSession> = Vec::with_capacity(fx.n);
    let mut j: usize = 0;
    while j < fx.n
        invariant
            j <= fx.n <= fx.servers@.len(),
            resps@.len() == j,
            sess@.len() == j,
            r0 == old(rng)@,
            rng@ == after_responses(r0, j as nat),
            answering_update(fx.servers@, *req, 0, fx.n as nat) == answering_update(
                fx.servers@,
                *req,
                j as nat,
                fx.n as nat,
            ),
            forall|k: int| 0 <= k < j ==> answers_update((#[trigger] fx.servers@[k])@, *req),
            forall|k: int|
                0 <= k < j ==> update_drawn(
                    #[trigger] resps@[k],
                    sess@[k],
                    fx.servers@[k]@,
                    *req,
                    after_responses(r0, k as nat),
                ),
        decreases fx.n - j,
    {
        match password_update_respond1(&fx.servers[j], req, rng) {
            Some((resp, s)) => {
                assert(update_drawn(
                    resp,
                    s,
                    fx.servers@[j as int]@,
                    *req,
                    after_responses(r0, j as nat),
                ));
                resps.push(resp);
                sess.push(s);
            },
            None => {
                assert(!answers_update(fx.servers@[j as int]@, *req));
                assert(answering_update(fx.servers@, *req, 0, fx.n as nat) == j);
                return None;
            },
        }
        j = j + 1;
    }
    Some((resps, sess))
}

/// What a list of servers holds.
pub open spec fn server_views(s: Seq<AugSsoServer>) -> Seq<ServerState> {
    Seq::new(s.len(), |i: int| s[i]@)
}

/// Copies of servers.
pub fn copy_servers(s: &Vec<AugSsoServer>) -> (r: Vec<AugSsoServer>)
    ensures
        server_views(r@) == server_views(s@),
{
    let mut v: Vec<AugSsoServer> = Vec::with_capacity(s.len());
    let mut i: usize = 0;
    while i < s.len()
        invariant
            i <= s@.len(),
            v@.len() == i,
            forall|k: int| 0 <= k < i ==> (#[trigger] v@[k])@ == s@[k]@,
        decreases s@.len() - i,
    {
        v.push(s[i].copy());
        i = i + 1;
    }
    assert(server_views(v@) =~= server_views(s@));
    v
}

/// The second public keys of servers, by their identifiers.
pub fn phi_keys(s: &Vec<AugSsoServer>) -> (r: Vec<(u32, G2)>)
    ensures
        keyed(r@) == Seq::new(s@.len(), |i: int| (s@[i]@.id, s@[i]@.phi_pub_i)),
{
    let mut v: Vec<(u32, G2)> = Vec::with_capacity(s.len());
    let mut i: usize = 0;
    while i < s.len()
        invariant
            i <= s@.len(),
            v@.len() == i,
            forall|k: int|
                0 <= k < i ==> (#[trigger] v@[k]).0 == s@[k]@.id && v@[k].1@ == s@[k]@.phi_pub_i,
        decreases s@.len() - i,
    {
        v.push((s[i].id, s[i].phi_pub_i));
        i = i + 1;
    }
    assert(keyed(v@) =~= Seq::new(s@.len(), |i: int| (s@[i]@.id, s@[i]@.phi_pub_i)));
    v
}

} // verus!
