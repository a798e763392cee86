//! A password update as it is measured: its stages, and the message that comes out.
use vstd::prelude::*;

use crate::augsso_auth::after_nonces;
use crate::bls::G1;
use crate::bytes::cat2;
use crate::crypto_pastau::{token_verifies, ttg_verify, TtgToken};
use crate::group::combined_at_zero;
use crate::ids::sorted;
use crate::pastau::{
    answers, blinded, computed_value, finalize, finalize_accepts, partial_tokens, request,
    request_with_rho, respond_var_payload_with_nonce, response, responses, token_message,
    ClientRequest, ClientState, Response, ServerResponse, ServerState,
};
use crate::pastau_fixture::Fixture;
use crate::pastau_steps::{
    all_answered, body_with, derive_h_from_responses, nonce_seqs, update_body_with_nonces,
    UpdateIterData,
};
use crate::pastau_update::{make_update_body, server_states, update_body};
use crate::ristretto::Scalar;
use crate::rng::{Rng, RngState};
use crate::toprf::scalar_drawn;

verus! {

/// A signed update message.
#[derive(Clone)]
pub struct UpdateWire {
    pub pld3: Vec<u8>,
    pub tk_pld3: TtgToken,
}

impl Fixture {
    /// The servers asked exist, and there are random values for each.
    pub open spec fn can_ask(self, it: UpdateIterData) -> bool {
        &&& self.t_set@.len() > 0
        &&& self.servers@.len() == self.n <= u32::MAX
        &&& forall|k: int|
            0 <= k < self.t_set@.len() ==> 1 <= #[trigger] self.t_set@[k] <= self.servers@.len()
        &&& it.nonces_old@.len() >= self.t_set@.len()
        &&& it.nonces_new@.len() >= self.t_set@.len()
        &&& it.nonces_token@.len() >= self.t_set@.len()
        &&& it.update_nonces@.len() == self.n
    }
}

/// Every server asked answers a request.
pub open spec fn all_answer(servers: Seq<ServerState>, c: Seq<u8>, ids: Seq<u32>, req: Seq<u8>) -> bool {
    forall|k: int| 0 <= k < ids.len() ==> answers(servers[#[trigger] ids[k] - 1], c, req)
}

/// The responses of the servers asked.
pub open spec fn asked(
    servers: Seq<ServerState>,
    c: Seq<u8>,
    ids: Seq<u32>,
    payload: Seq<u8>,
    req: Seq<u8>,
    nonces: Seq<Seq<u8>>,
) -> Seq<Response> {
    Seq::new(
        ids.len(),
        |k: int| response(servers[ids[k] - 1], c, token_message(payload, c), req, nonces[k]),
    )
}

/// Asks the servers of the fixture for partial tokens on a payload, with given nonces.
pub fn ask_each(fx: &Fixture, payload: &[u8], req: &[u8; 32], nonces: &Vec<[u8; 24]>) -> (r: Option<
    Vec<ServerResponse>,
>)
    requires
        forall|k: int|
            0 <= k < fx.t_set@.len() ==> 1 <= #[trigger] fx.t_set@[k] <= fx.servers@.len(),
        nonces@.len() >= fx.t_set@.len(),
    ensures
        match r {
            Some(v) => all_answer(server_states(fx.servers@), fx.c.0@, fx.t_set@, req@)
                && responses(v@) == asked(
                server_states(fx.servers@),
                fx.c.0@,
                fx.t_set@,
                payload@,
                req@,
                nonce_seqs(nonces@),
            ),
            None => !all_answer(server_states(fx.servers@), fx.c.0@, fx.t_set@, req@),
        },
{
    let ghost ss = server_states(fx.servers@);
    let ghost g = nonce_seqs(nonces@);
    let mut v: Vec<ServerResponse> = Vec::with_capacity(fx.t_set.len());
    let mut k: usize = 0;
    while k < fx.t_set.len()
        invariant
            k <= fx.t_set@.len() <= nonces@.len(),
            ss == server_states(fx.servers@),
            g == nonce_seqs(nonces@),
            forall|j: int|
                0 <= j < fx.t_set@.len() ==> 1 <= #[trigger] fx.t_set@[j] <= fx.servers@.len(),
            v@.len() == k,
            forall|j: int|
                0 <= j < k ==> answers(ss[#[trigger] fx.t_set@[j] - 1], fx.c.0@, req@) && v@[j]@
                    == response(
                    ss[fx.t_set@[j] - 1],
                    fx.c.0@,
                    token_message(payload@, fx.c.0@),
                    req@,
                    g[j],
                ),
        decreases fx.t_set@.len() - k,
    {
        let sid = fx.t_set[k];
        assert(1 <= fx.t_set@[k as int] <= fx.servers@.len());
        let at: usize = (sid - 1) as usize;
        assert(ss[sid - 1] == fx.servers@[at as int]@);
        match respond_var_payload_with_nonce(&fx.servers[at], fx.c, payload, req, &nonces[k]) {
            Some(resp) => {
                v.push(resp);
            },
            None => {
                assert(!answers(ss[fx.t_set@[k as int] - 1], fx.c.0@, req@));
                return None;
            },
        }
        k = k + 1;
    }
    assert(responses(v@) =~= asked(ss, fx.c.0@, fx.t_set@, payload@, req@, g));
    Some(v)
}

/// The blinding factor of a request: drawn with `timed`, else given.
pub open spec fn factor(timed: bool, rng: RngState, given: nat) -> nat {
    if timed {
        scalar_drawn(rng)
    } else {
        given
    }
}

/// The generator after a request.
pub open spec fn after_factor(timed: bool, rng: RngState) -> RngState {
    if timed {
        rng.skip(64)
    } else {
        rng
    }
}

/// Blinds a password, with a factor that is drawn with `timed` and else given.
pub fn start_request(
    fx: &Fixture,
    password: &[u8],
    timed: bool,
    given: Scalar,
    rng: &mut Rng,
) -> (r: (ClientState, ClientRequest))
    requires
        fx.t_set@.len() > 0,
    ensures
        r.0.c == fx.c,
        r.0.password@ == password@,
        r.0.rho@ == factor(timed, old(rng)@, given@),
        r.0.t_set@ == fx.t_set@,
        r.1.req@ == blinded(password@, factor(timed, old(rng)@, given@)),
        final(rng)@ == after_factor(timed, old(rng)@),
{
    if timed {
        request(fx.c, password, fx.x, fx.t_set.as_slice(), rng)
    } else {
        request_with_rho(fx.c, password, fx.x, fx.t_set.as_slice(), given)
    }
}

/// The key changes, under nonces that are drawn with `timed` and else given.
pub open spec fn body_for(
    h_old: Seq<u8>,
    h_new: Seq<u8>,
    n: nat,
    timed: bool,
    nonces: Seq<Seq<u8>>,
    rng: RngState,
) -> Seq<u8> {
    if timed {
        update_body(h_old, h_new, n, rng)
    } else {
        body_with(h_old, h_new, nonces, n as int)
    }
}

/// The generator after the key changes.
pub open spec fn after_body(timed: bool, n: nat, rng: RngState) -> RngState {
    if timed {
        after_nonces(rng, n)
    } else {
        rng
    }
}

/// Encrypts the key changes of all servers.
pub fn make_body(
    h_old: &[u8; 32],
    h_new: &[u8; 32],
    timed: bool,
    nonces: &Vec<[u8; 24]>,
    rng: &mut Rng,
) -> (r: Vec<u8>)
    requires
        nonces@.len() <= u32::MAX,
    ensures
        r@ == body_for(
            h_old@,
            h_new@,
            nonces@.len(),
            timed,
            nonce_seqs(nonces@),
            old(rng)@,
        ),
        final(rng)@ == after_body(timed, nonces@.len(), old(rng)@),
{
    if timed {
        make_update_body(h_old, h_new, nonces.len(), rng)
    } else {
        update_body_with_nonces(h_old, h_new, nonces)
    }
}

/// The function value that a client gets in one round, with the servers' responses.
pub open spec fn round_value(
    fx: Fixture,
    password: Seq<u8>,
    rho: nat,
    nonces: Seq<Seq<u8>>,
) -> Option<Seq<u8>> {
    let ss = server_states(fx.servers@);
    let req = blinded(password, rho);
    let resps = asked(ss, fx.c.0@, fx.t_set@, fx.x@, req, nonces);
    if all_answer(ss, fx.c.0@, fx.t_set@, req) && all_answered(fx.t_set@, resps) {
        Some(computed_value(password, rho, sorted(fx.t_set@), resps))
    } else {
        None
    }
}

/// The update message and its token, in order of the steps that can fail: a round with the
/// old password, one with the new password, the token, and its verification. With it comes
/// the generator as the step leaves it.
pub open spec fn wire_outcome(
    fx: Fixture,
    new_password: Seq<u8>,
    timed: bool,
    it: UpdateIterData,
    rng: RngState,
) -> (Option<(Seq<u8>, Seq<u8>)>, RngState) {
    let ss = server_states(fx.servers@);
    let c = fx.c.0@;
    let rng1 = after_factor(timed, rng);
    match round_value(
        fx,
        fx.password@,
        factor(timed, rng, it.rho_old@),
        nonce_seqs(it.nonces_old@),
    ) {
        None => (None, rng1),
        Some(h_old) => {
            let rng2 = after_factor(timed, rng1);
            match round_value(
                fx,
                new_password,
                factor(timed, rng1, it.rho_new@),
                nonce_seqs(it.nonces_new@),
            ) {
                None => (None, rng2),
                Some(h_new) => {
                    let n = it.update_nonces@.len();
                    let body = body_for(
                        h_old,
                        h_new,
                        n,
                        timed,
                        nonce_seqs(it.update_nonces@),
                        rng2,
                    );
                    let rng3 = after_body(timed, n, rng2);
                    let rho = factor(timed, rng3, it.rho_token@);
                    let rng4 = after_factor(timed, rng3);
                    let req = blinded(fx.password@, rho);
                    let resps = asked(
                        ss,
                        c,
                        fx.t_set@,
                        body,
                        req,
                        nonce_seqs(it.nonces_token@),
                    );
                    let ts = sorted(fx.t_set@);
                    let tk = combined_at_zero::<G1>(
                        ts,
                        partial_tokens(resps, computed_value(fx.password@, rho, ts, resps), ts),
                    );
                    let pld = token_message(body, c);
                    if all_answer(ss, c, fx.t_set@, req) && finalize_accepts(
                        fx.password@,
                        rho,
                        fx.t_set@,
                        resps,
                    ) && token_verifies(fx.vk@, pld, tk) {
                        (Some((pld, tk)), rng4)
                    } else {
                        (None, rng4)
                    }
                },
            }
        },
    }
}

/// The value of the password function in one round.
pub fn value_of_round(
    fx: &Fixture,
    password: &[u8],
    st: &ClientState,
    req: &ClientRequest,
    nonces: &Vec<[u8; 24]>,
) -> (r: Option<[u8; 32]>)
    requires
        forall|k: int|
            0 <= k < fx.t_set@.len() ==> 1 <= #[trigger] fx.t_set@[k] <= fx.servers@.len(),
        nonces@.len() >= fx.t_set@.len(),
        req.req@ == blinded(password@, st.rho@),
    ensures
        match r {
            Some(h) => round_value(*fx, password@, st.rho@, nonce_seqs(nonces@)) == Some(h@),
            None => round_value(*fx, password@, st.rho@, nonce_seqs(nonces@)) is None,
        },
{
    match ask_each(fx, &fx.x, &req.req, nonces) {
        Some(resps) => derive_h_from_responses(
            password,
            st.rho,
            fx.t_set.as_slice(),
            resps.as_slice(),
        ),
        None => None,
    }
}

/// Combines the responses to a token on the key changes and checks it.
pub fn finish_wire(fx: &Fixture, st: &ClientState, body: &Vec<u8>, resps: &[ServerResponse]) -> (r:
    Option<UpdateWire>)
    ensures
        ({
            let s = responses(resps@);
            let ts = sorted(st.t_set@);
            let tk = combined_at_zero::<G1>(
                ts,
                partial_tokens(s, computed_value(st.password@, st.rho@, ts, s), ts),
            );
            let pld = token_message(body@, fx.c.0@);
            let good = finalize_accepts(st.password@, st.rho@, st.t_set@, s) && token_verifies(
                fx.vk@,
                pld,
                tk,
            );
            match r {
                Some(w) => good && w.pld3@ == pld && w.tk_pld3@ == tk,
                None => !good,
            }
        }),
{
    let tk_pld3 = match finalize(st, resps) {
        Some(tk) => tk,
        None => {
            return None;
        },
    };
    let pld3 = cat2(body.as_slice(), &fx.c.0);
    if !ttg_verify(&fx.vk, pld3.as_slice(), &tk_pld3) {
        return None;
    }
    Some(UpdateWire { pld3, tk_pld3 })
}

/// Makes the update message for a new password and its token.
#[verifier::rlimit(60)]
pub fn build_update_wire(
    fx: &Fixture,
    new_password: &[u8],
    timed: bool,
    it: &UpdateIterData,
    rng: &mut Rng,
) -> (r: Option<UpdateWire>)
    requires
        fx.can_ask(*it),
    ensures
        ({
            let out = wire_outcome(*fx, new_password@, timed, *it, old(rng)@);
            &&& final(rng)@ == out.1
            &&& match r {
                Some(w) => out.0 == Some((w.pld3@, w.tk_pld3@)),
                None => out.0 is None,
            }
        }),
{
    let (st_old, req_old) = start_request(fx, fx.password.as_slice(), timed, it.rho_old, rng);
    let h_old = match value_of_round(
        fx,
        fx.password.as_slice(),
        &st_old,
        &req_old,
        &it.nonces_old,
    ) {
        Some(h) => h,
        None => {
            return None;
        },
    };
    let (st_new, req_new) = start_request(fx, new_password, timed, it.rho_new, rng);
    let h_new = match value_of_round(fx, new_password, &st_new, &req_new, &it.nonces_new) {
        Some(h) => h,
        None => {
            return None;
        },
    };
    let body = make_body(&h_old, &h_new, timed, &it.update_nonces, rng);
    let (st_tok, req_tok) = start_request(fx, fx.password.as_slice(), timed, it.rho_token, rng);
    match ask_each(fx, body.as_slice(), &req_tok.req, &it.nonces_token) {
        Some(resps) => finish_wire(fx, &st_tok, &body, resps.as_slice()),
        None => None,
    }
}

} // verus!
