//! A reproducible deployment with one registered client; whole runs of the protocol.
use vstd::prelude::*;
use vstd::string::StringSliceAdditionalSpecFns;

use crate::augsso_auth::after_nonces;
use crate::augsso_fixture::{first_ids, lemma_first_ids, make_first_ids, seed_for, seed_of};
use crate::bls::{g1_mul, g2_of, G1};
use crate::bytes;
use crate::crypto_pastau::{
    hi_of, toprf_encode, token_base, token_verifies, ttg_poly, ttg_verify, TtgToken, TtgVk,
};
use crate::field::{after_draws, lemma_drawn_len, share_vals, shares_of, Field};
use crate::group::combined_at_zero;
use crate::ids::sorted;
use crate::interpolation::eval;
use crate::pastau::{
    answers, blinded, blinds_password, computed_value, finalize, finalize_accepts, global_setup,
    honest_responses, partial_tokens, password_value, registered_value, registration,
    request_with_rho, respond_with_nonce, response, responses, token_message, useful_response,
    ClientId, PastauServer, Response, ServerResponse, UID_LEN, X_LEN,
};
use crate::pastau_update::{
    after_update, enough_asked, lemma_sound_responses, password_update_client,
    password_update_handle, server_states, servers_sound, sound_server, takes_update, update_is_for,
    update_moves_server, update_outcome,
};
use crate::ristretto::{order, ristretto_mul, Point, Scalar};
use crate::rng::{Rng, RngState};
use crate::toprf::{self, key_poly, scalar_drawn};

verus! {

/// A deployment with one registered client.
#[derive(Clone)]
pub struct Fixture {
    pub n: usize,
    pub t: usize,
    pub c: ClientId,
    pub x: [u8; X_LEN],
    pub password: Vec<u8>,
    pub vk: TtgVk,
    pub servers: Vec<PastauServer>,
    pub t_set: Vec<u32>,
}

impl Fixture {
    /// The servers share the two keys on the polynomials `kc` and `gc` and hold the keys
    /// that the client's password gives.
    pub open spec fn sound(self, kc: Seq<int>, gc: Seq<int>) -> bool {
        &&& 1 <= self.t <= self.n <= u32::MAX
        &&& kc.len() == self.t
        &&& gc.len() == self.t
        &&& self.servers@.len() == self.n
        &&& self.t_set@ == first_ids(self.t as nat)
        &&& self.vk@ == g2_of((eval(gc, 0) % (crate::bls::order() as int)) as nat)
        &&& servers_sound(server_states(self.servers@), self.c.0@, self.password@, kc, gc)
    }
}

/// The generator that a fixture is drawn from, after the client's identifier and payload.
pub open spec fn fixture_rng(n: usize, t: usize) -> RngState {
    RngState::start(seed_of("pastau/fixture/v1".spec_bytes(), n, t)).skip(32).skip(32)
}

/// The generator at the registration of a fixture's client.
pub open spec fn registration_rng(n: usize, t: usize) -> RngState {
    after_draws(fixture_rng(n, t).skip(64), (t - 1) as nat)
}

proof fn lemma_ttg_poly(t: nat, rng: RngState)
    requires
        t >= 1,
    ensures
        ttg_poly(t, rng).len() == t,
        eval(ttg_poly(t, rng), 0) % (crate::bls::order() as int) == crate::augsso::scalar_drawn(
            rng,
        ),
{
    let c = ttg_poly(t, rng);
    let m = crate::bls::order();
    lemma_drawn_len(rng.skip(64), (t - 1) as nat, m);
    let tail = eval(c.drop_first(), 0);
    assert(0 * tail == 0);
    assert(c[0] == crate::augsso::scalar_drawn(rng));
    vstd::arithmetic::div_mod::lemma_mod_bound(crate::bytes::le_nat(rng.bytes(64)) as int, m as int);
    vstd::arithmetic::div_mod::lemma_small_mod(crate::augsso::scalar_drawn(rng), m);
}

proof fn lemma_key_poly(t: nat, rng: RngState)
    requires
        t >= 1,
    ensures
        key_poly(t, rng).len() == t,
        eval(key_poly(t, rng), 0) % (order() as int) == scalar_drawn(rng),
{
    let c = key_poly(t, rng);
    let m = order();
    lemma_drawn_len(rng.skip(64), (t - 1) as nat, m);
    let tail = eval(c.drop_first(), 0);
    assert(0 * tail == 0);
    assert(c[0] == scalar_drawn(rng));
    vstd::arithmetic::div_mod::lemma_mod_bound(crate::bytes::le_nat(rng.bytes(64)) as int, m as int);
    vstd::arithmetic::div_mod::lemma_small_mod(scalar_drawn(rng), m);
}

/// Sets up `n` servers and registers a client with them. All of it is a function of the
/// parameters. The fixture is sound unless the client's blinding factor came out zero.
#[verifier::rlimit(40)]
pub fn make_fixture(n: usize, t: usize) -> (fx: Fixture)
    requires
        1 <= t <= n <= u32::MAX,
    ensures
        ({
            let start = RngState::start(seed_of("pastau/fixture/v1".spec_bytes(), n, t));
            let gc = ttg_poly(t as nat, fixture_rng(n, t));
            let kc = key_poly(t as nat, registration_rng(n, t).skip(64));
            let h = registered_value(
                fx.password@,
                scalar_drawn(registration_rng(n, t)),
                scalar_drawn(registration_rng(n, t).skip(64)),
            );
            &&& fx.n == n
            &&& fx.t == t
            &&& fx.c.0@ == start.bytes(32)
            &&& fx.x@ == start.skip(32).bytes(32)
            &&& fx.password@ == "correct horse battery staple".spec_bytes()
            &&& fx.t_set@ == first_ids(t as nat)
            &&& fx.vk@ == g2_of(crate::augsso::scalar_drawn(fixture_rng(n, t)))
            &&& fx.servers@.len() == n
            &&& forall|i: int|
                0 <= i < n ==> (#[trigger] fx.servers@[i])@ == sound_server(
                    i,
                    fx.c.0@,
                    h,
                    kc,
                    gc,
                )
            &&& scalar_drawn(registration_rng(n, t)) != 0 ==> fx.sound(kc, gc)
        }),
{
    let mut rng = Rng::from_seed(seed_for("pastau/fixture/v1".as_bytes(), n, t));
    let c = ClientId(rng.take_array::<UID_LEN>());
    let x = rng.take_array::<X_LEN>();
    let password = bytes::copy_bytes("correct horse battery staple".as_bytes());
    let gs = global_setup(128, n, t, &mut rng);
    let ghost gc = ttg_poly(t as nat, fixture_rng(n, t));
    let ghost gv = share_vals(gs.ttg_shares@);
    assert(gv.len() == n);
    let ghost reg_rng = rng@;
    let reg = registration(n, t, password.as_slice(), &mut rng);
    let ghost kc = key_poly(t as nat, reg_rng.skip(64));
    let ghost h = registered_value(password@, scalar_drawn(reg_rng), reg.k0@);
    let mut servers: Vec<PastauServer> = Vec::with_capacity(n);
    let mut i: usize = 0;
    while i < n
        invariant
            i <= n,
            n <= u32::MAX,
            gs.ttg_shares@.len() == n,
            gv == share_vals(gs.ttg_shares@),
            gv == shares_of(gc, n as nat, crate::bls::order()),
            reg.msgs@.len() == n,
            h == registered_value(password@, scalar_drawn(reg_rng), reg.k0@),
            forall|k: int|
                0 <= k < n ==> {
                    let share = shares_of(kc, n as nat, order())[k];
                    &&& (#[trigger] reg.msgs@[k]).server_id == share.0
                    &&& reg.msgs@[k].k_i@ == share.1
                    &&& reg.msgs@[k].h_i@ == hi_of(h, share.0)
                },
            servers@.len() == i,
            forall|k: int|
                0 <= k < i ==> (#[trigger] servers@[k])@ == sound_server(k, c.0@, h, kc, gc),
        decreases n - i,
    {
        let (sid, share) = gs.ttg_shares[i];
        proof {
            assert(gv[i as int] == (sid, share@));
            assert(reg.msgs@[i as int].server_id == (i + 1) as u32);
        }
        let mut srv = PastauServer::new(sid, share);
        srv.store(c, &reg.msgs[i]);
        assert(srv@ =~= sound_server(i as int, c.0@, h, kc, gc));
        servers.push(srv);
        i = i + 1;
    }
    let t_set = make_first_ids(t);
    let fx = Fixture { n, t, c, x, password, vk: gs.vk, servers, t_set };
    proof {
        lemma_ttg_poly(t as nat, fixture_rng(n, t));
        lemma_key_poly(t as nat, reg_rng.skip(64));
        if scalar_drawn(reg_rng) != 0 {
            assert forall|k: int| 0 <= k < n implies (#[trigger] server_states(fx.servers@)[k])
                == sound_server(
                k,
                c.0@,
                password_value(fx.password@, (eval(kc, 0) % (order() as int)) as nat),
                kc,
                gc,
            ) by {
                assert(servers@[k]@ == sound_server(k, c.0@, h, kc, gc));
            }
            assert(fx.sound(kc, gc));
        }
    }
    fx
}

/// The random values of one request.
#[derive(Clone)]
pub struct IterData {
    pub rho: Scalar,
    pub req: [u8; 32],
    pub nonces: Vec<[u8; 24]>,
}

/// Draws the random values of one request to `fx.t` servers.
pub fn make_iter_data(fx: &Fixture, rng: &mut Rng) -> (r: IterData)
    ensures
        r.rho@ == scalar_drawn(old(rng)@),
        r.req@ == blinded(fx.password@, r.rho@),
        blinds_password(r.req@, fx.password@, r.rho@),
        r.nonces@.len() == fx.t,
        forall|k: int|
            0 <= k < fx.t ==> (#[trigger] r.nonces@[k])@ == after_nonces(
                old(rng)@.skip(64),
                k as nat,
            ).bytes(24),
        final(rng)@ == after_nonces(old(rng)@.skip(64), fx.t as nat),
{
    let rho = toprf::random_scalar(rng);
    let req_point: Point = toprf_encode(fx.password.as_slice(), rho);
    let req = req_point.compress();
    let ghost r0 = rng@;
    let mut nonces: Vec<[u8; 24]> = Vec::with_capacity(fx.t);
    let mut i: usize = 0;
    while i < fx.t
        invariant
            i <= fx.t,
            nonces@.len() == i,
            forall|k: int|
                0 <= k < i ==> (#[trigger] nonces@[k])@ == after_nonces(r0, k as nat).bytes(24),
            rng@ == after_nonces(r0, i as nat),
        decreases fx.t - i,
    {
        nonces.push(rng.take_array::<24>());
        i = i + 1;
    }
    IterData { rho, req, nonces }
}

/// Asks the first `t` servers for responses.
fn ask_servers(fx: &Fixture, req: &[u8; 32], nonces: &Vec<[u8; 24]>) -> (r: Option<
    Vec<ServerResponse>,
>)
    requires
        fx.t <= fx.servers@.len(),
        fx.t <= nonces@.len(),
    ensures
        r is Some <==> forall|j: int|
            0 <= j < fx.t ==> answers((#[trigger] fx.servers@[j])@, fx.c.0@, req@),
        r matches Some(v) ==> {
            &&& v@.len() == fx.t
            &&& forall|j: int|
                0 <= j < fx.t ==> (#[trigger] v@[j])@ == response(
                    fx.servers@[j]@,
                    fx.c.0@,
                    token_message(fx.x@, fx.c.0@),
                    req@,
                    nonces@[j]@,
                ) && useful_response(
                    v@[j]@,
                    fx.servers@[j]@,
                    fx.c.0@,
                    token_message(fx.x@, fx.c.0@),
                )
        },
{
    let mut v: Vec<ServerResponse> = Vec::with_capacity(fx.t);
    let mut j: usize = 0;
    while j < fx.t
        invariant
            j <= fx.t,
            fx.t <= fx.servers@.len(),
            fx.t <= nonces@.len(),
            v@.len() == j,
            forall|k: int| 0 <= k < j ==> answers((#[trigger] fx.servers@[k])@, fx.c.0@, req@),
            forall|k: int|
                0 <= k < j ==> (#[trigger] v@[k])@ == response(
                    fx.servers@[k]@,
                    fx.c.0@,
                    token_message(fx.x@, fx.c.0@),
                    req@,
                    nonces@[k]@,
                ) && useful_response(
                    v@[k]@,
                    fx.servers@[k]@,
                    fx.c.0@,
                    token_message(fx.x@, fx.c.0@),
                ),
        decreases fx.t - j,
    {
        match respond_with_nonce(&fx.servers[j], fx.c, fx.x, req, &nonces[j]) {
            Some(resp) => {
                v.push(resp);
            },
            None => {
                assert(!answers(fx.servers@[j as int]@, fx.c.0@, req@));
                return None;
            },
        }
        j = j + 1;
    }
    Some(v)
}

impl Fixture {
    /// The responses of the first `t` servers to a request for a token.
    pub open spec fn asked(self, it: IterData) -> Seq<Response> {
        Seq::new(
            self.t as nat,
            |j: int|
                response(
                    self.servers@[j]@,
                    self.c.0@,
                    token_message(self.x@, self.c.0@),
                    blinded(self.password@, it.rho@),
                    it.nonces@[j]@,
                ),
        )
    }

    /// The token of a whole authentication, where there is one: each of the first `t` servers
    /// answers, their responses are accepted, and what they combine to verifies.
    pub open spec fn token_of(self, it: IterData) -> Option<Seq<u8>> {
        let s = self.asked(it);
        let ts = sorted(self.t_set@);
        let tk = combined_at_zero::<G1>(
            ts,
            partial_tokens(s, computed_value(self.password@, it.rho@, ts, s), ts),
        );
        if (forall|j: int|
            0 <= j < self.t ==> answers(
                (#[trigger] self.servers@[j])@,
                self.c.0@,
                blinded(self.password@, it.rho@),
            )) && finalize_accepts(self.password@, it.rho@, self.t_set@, s) && token_verifies(
            self.vk@,
            token_message(self.x@, self.c.0@),
            tk,
        ) {
            Some(tk)
        } else {
            None
        }
    }

    /// The fixture after a password update: where the client gets a token on the change, each
    /// server that takes it has its new key, and the password is the new one where all took it.
    pub open spec fn updated(
        self,
        out: Option<(Seq<u8>, Seq<u8>, Seq<Seq<u8>>)>,
        new_password: Seq<u8>,
        after: Fixture,
        all: bool,
    ) -> bool {
        let ss = server_states(self.servers@);
        &&& after == (Fixture { servers: after.servers, password: after.password, ..self })
        &&& after.servers@.len() == self.servers@.len()
        &&& after.password@ == if all {
            new_password
        } else {
            self.password@
        }
        &&& match out {
            None => !all && forall|k: int|
                0 <= k < ss.len() ==> (#[trigger] after.servers@[k])@ == ss[k],
            Some((pld, tk, _)) => {
                &&& all == (forall|k: int|
                    0 <= k < ss.len() ==> takes_update(#[trigger] ss[k], self.vk@, pld, tk))
                &&& forall|k: int|
                    0 <= k < ss.len() ==> (#[trigger] after.servers@[k])@ == if takes_update(
                        ss[k],
                        self.vk@,
                        pld,
                        tk,
                    ) {
                        after_update(ss[k], pld)
                    } else {
                        ss[k]
                    }
            },
        }
    }
}

/// Runs a whole authentication of the fixture's client with its first `t` servers. In a
/// sound fixture and with a nonzero blinding factor it succeeds, and the token is the
/// one of the deployment's key and verifies.
#[verifier::rlimit(40)]
pub fn authenticate(fx: &Fixture, it: &IterData) -> (r: Option<TtgToken>)
    requires
        0 < fx.t_set@.len(),
        fx.t <= fx.servers@.len(),
        fx.t <= it.nonces@.len(),
    ensures
        match r {
            Some(tk) => fx.token_of(*it) == Some(tk@),
            None => fx.token_of(*it) is None,
        },
        r matches Some(tk) ==> token_verifies(fx.vk@, token_message(fx.x@, fx.c.0@), tk@),
        forall|kc: Seq<int>, gc: Seq<int>| #[trigger]
            fx.sound(kc, gc) && it.rho@ != 0 ==> (r matches Some(tk) && tk@ == g1_mul(
                token_base(token_message(fx.x@, fx.c.0@)),
                (eval(gc, 0) % (crate::bls::order() as int)) as nat,
            )),
{
    let (st, req) = request_with_rho(
        fx.c,
        fx.password.as_slice(),
        fx.x,
        fx.t_set.as_slice(),
        it.rho,
    );
    let ghost ss = server_states(fx.servers@);
    proof {
        assert forall|kc: Seq<int>, gc: Seq<int>| #[trigger]
            fx.sound(kc, gc) implies forall|j: int|
            0 <= j < fx.t ==> answers((#[trigger] fx.servers@[j])@, fx.c.0@, req.req@) by {
            assert forall|j: int| 0 <= j < fx.t implies answers(
                (#[trigger] fx.servers@[j])@,
                fx.c.0@,
                req.req@,
            ) by {
                assert(ss[j] == fx.servers@[j]@);
            }
        }
    }
    let resps = match ask_servers(fx, &req.req, &it.nonces) {
        Some(v) => v,
        None => {
            return None;
        },
    };
    let ghost msg = token_message(fx.x@, fx.c.0@);
    assert(responses(resps@) =~= fx.asked(*it)) by {
        assert forall|j: int| 0 <= j < fx.t implies #[trigger] responses(resps@)[j] == fx.asked(
            *it,
        )[j] by {
            assert(responses(resps@)[j] == resps@[j]@);
        }
    }
    proof {
        let s = responses(resps@);
        assert forall|kc: Seq<int>, gc: Seq<int>| #[trigger]
            fx.sound(kc, gc) && it.rho@ != 0 implies honest_responses(
            st.password@,
            st.rho@,
            st.t_set@,
            s,
            req.req@,
            token_base(msg),
            kc,
            gc,
        ) by {
            let ts = first_ids(fx.t as nat);
            lemma_first_ids(fx.t as nat);
            assert forall|k: int| 0 <= k < ts.len() implies {
                &&& (#[trigger] s[k]).server_id == ss[ts[k] - 1].id
                &&& s[k].z_i == ristretto_mul(req.req@, ss[ts[k] - 1].records[fx.c.0@].k_i)
                &&& useful_response(s[k], ss[ts[k] - 1], fx.c.0@, msg)
            } by {
                assert(s[k] == resps@[k]@);
                assert(ts[k] - 1 == k);
                assert(ss[k] == fx.servers@[k]@);
            }
            assert(enough_asked(ss.len(), ts, kc, gc));
            lemma_sound_responses(
                ss,
                fx.c.0@,
                fx.password@,
                kc,
                gc,
                ts,
                it.rho@,
                req.req@,
                msg,
                s,
            );
        }
    }
    let tk = match finalize(&st, resps.as_slice()) {
        Some(tk) => tk,
        None => {
            return None;
        },
    };
    let whole = crate::pastau::build_ttg_msg_stack(&fx.x, &fx.c);
    if ttg_verify(&fx.vk, &whole, &tk) {
        Some(tk)
    } else {
        None
    }
}

/// Changes the password of the fixture's client at all servers, and reports whether every
/// server took the change. In a sound fixture and with nonzero blinding factors they
/// do, and the fixture is sound again, on the same shared keys, with the new password in
/// place of the old.
#[verifier::rlimit(60)]
pub fn update_password(fx: &mut Fixture, new_password: &[u8], rng: &mut Rng) -> (r: bool)
    requires
        old(fx).servers@.len() <= u32::MAX,
        forall|k: int| 0 <= k < old(fx).t_set@.len() ==> #[trigger] old(fx).t_set@[k] >= 1,
    ensures
        ({
            let out = update_outcome(
                server_states(old(fx).servers@),
                old(fx).c.0@,
                old(fx).password@,
                new_password@,
                old(fx).vk@,
                old(fx).t_set@,
                old(rng)@,
            );
            &&& old(fx).updated(out.0, new_password@, *final(fx), r)
            &&& final(rng)@ == out.1
        }),
        forall|kc: Seq<int>, gc: Seq<int>| #[trigger]
            old(fx).sound(kc, gc) && scalar_drawn(old(rng)@) != 0 && scalar_drawn(
                old(rng)@.skip(64),
            ) != 0 && scalar_drawn(
                after_nonces(old(rng)@.skip(64).skip(64), old(fx).n as nat),
            ) != 0 ==> r && final(fx).sound(kc, gc),
{
    let ghost fx0 = *fx;
    let ghost ss = server_states(fx.servers@);
    proof {
        assert forall|kc: Seq<int>, gc: Seq<int>| #[trigger]
            fx0.sound(kc, gc) implies enough_asked(ss.len(), fx0.t_set@, kc, gc) by {
            lemma_first_ids(fx0.t as nat);
        }
    }
    let out = match password_update_client(
        fx.c,
        fx.password.as_slice(),
        new_password,
        &fx.vk,
        fx.servers.as_slice(),
        fx.t_set.as_slice(),
        rng,
    ) {
        Some(out) => out,
        None => {
            return false;
        },
    };
    let mut all = true;
    let mut i: usize = 0;
    while i < fx.servers.len()
        invariant
            i <= fx.servers@.len(),
            fx.servers@.len() == ss.len(),
            *fx == (Fixture { servers: fx.servers, ..fx0 }),
            forall|k: int|
                0 <= k < i ==> (#[trigger] fx.servers@[k])@ == if takes_update(
                    ss[k],
                    fx0.vk@,
                    out.pld3@,
                    out.tk_pld3@,
                ) {
                    after_update(ss[k], out.pld3@)
                } else {
                    ss[k]
                },
            all == (forall|k: int|
                0 <= k < i ==> takes_update(
                    #[trigger] ss[k],
                    fx0.vk@,
                    out.pld3@,
                    out.tk_pld3@,
                )),
            forall|k: int| i <= k < ss.len() ==> (#[trigger] fx.servers@[k])@ == ss[k],
        decreases fx.servers@.len() - i,
    {
        let ghost mid = fx.servers@;
        assert(mid[i as int]@ == ss[i as int]);
        let ok = password_update_handle(
            &mut fx.servers[i],
            &fx.vk,
            out.pld3.as_slice(),
            &out.tk_pld3,
        );
        proof {
            assert forall|k: int| 0 <= k < ss.len() && k != i implies fx.servers@[k] == mid[k] by {
            }
            assert(ok == takes_update(ss[i as int], fx0.vk@, out.pld3@, out.tk_pld3@));
        }
        all = all && ok;
        i = i + 1;
    }
    if all {
        fx.password = bytes::copy_bytes(new_password);
    }
    proof {
        assert forall|kc: Seq<int>, gc: Seq<int>| #[trigger]
            fx0.sound(kc, gc) && update_is_for(
                out.pld3@,
                fx0.c.0@,
                password_value(fx0.password@, (eval(kc, 0) % (order() as int)) as nat),
                password_value(new_password@, (eval(kc, 0) % (order() as int)) as nat),
                ss.len(),
            ) && token_verifies(fx0.vk@, out.pld3@, out.tk_pld3@) implies all && fx.sound(
            kc,
            gc,
        ) by {
            assert forall|k: int| 0 <= k < ss.len() implies takes_update(
                #[trigger] ss[k],
                fx0.vk@,
                out.pld3@,
                out.tk_pld3@,
            ) by {
                update_moves_server(
                    ss,
                    fx0.c.0@,
                    fx0.password@,
                    new_password@,
                    kc,
                    gc,
                    fx0.vk@,
                    out.pld3@,
                    out.tk_pld3@,
                    k,
                );
            }
            let now = server_states(fx.servers@);
            let h_new = password_value(
                new_password@,
                (eval(kc, 0) % (order() as int)) as nat,
            );
            assert forall|k: int| 0 <= k < now.len() implies (#[trigger] now[k]) == sound_server(
                k,
                fx0.c.0@,
                h_new,
                kc,
                gc,
            ) by {
                assert(fx.servers@[k]@ == after_update(ss[k], out.pld3@));
                update_moves_server(
                    ss,
                    fx0.c.0@,
                    fx0.password@,
                    new_password@,
                    kc,
                    gc,
                    fx0.vk@,
                    out.pld3@,
                    out.tk_pld3@,
                    k,
                );
            }
        }
    }
    all
}

} // verus!
