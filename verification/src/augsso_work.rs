//! The work of an AugSSO server that is measured, with the requests that it is measured on.
use vstd::prelude::*;
use vstd::string::StringSliceAdditionalSpecFns;

use crate::aead::{opened, sealed, xchacha_encrypt_detached_with_nonce, CtBlob};
use crate::augsso::{
    client_poly, client_secret, message_shares, password_g1, record_of, registration_client,
    AugSsoServer, ClientId, RegistrationMsg, ServerState,
};
use crate::augsso_auth::{
    after_nonces, answers, first_response, no_aad, request_with_r, respond1, respond1_with_rand,
    client_in, ClientRequest, Respond1Rand, ServerResponse1, ServerSession,
};
use crate::augsso_fixture::{make_iter_data, rand_drawn, seed_for, seed_of, Fixture};
use crate::augsso_prims::filled;
use crate::augsso_steps::drawn_response;
use crate::augsso_token::{respond2, respond2_with_nonce, token_plain, Response2, ServerResponse2};
use crate::augsso_update::{
    answers_update, make_password_update_iter_data, password_update_request_with_r,
    password_update_respond1, password_update_respond1_with_rand, password_update_respond2,
    update_challenge_accepted, update_response1, PasswordUpdateRequest, PasswordUpdateResponse1,
    PasswordUpdateResponse2, PasswordUpdateServerSession,
};
use crate::bls::{g1_mul, order};
use crate::bytes::{self, cat2};
use crate::crypto_augsso::{nonzero_drawn, pke_kg, pke_secret};
use crate::field::shares_of;
use crate::keys::x25519_public;
use crate::rng::{Rng, RngState};

verus! {

/// What the work is measured for: a report of its own, or the calibration of another.
#[derive(Clone, Copy, Debug, PartialEq, Eq, Structural)]
pub enum Purpose {
    Report,
    Calibration,
}

/// What a seed is used for.
#[derive(Clone, Copy, Debug, PartialEq, Eq, Structural)]
pub enum Use {
    Registration,
    FirstValues,
    FirstRng,
    SecondValues,
    SecondRng,
    UpdateValues,
    UpdateRng,
}

/// The tag that a seed is derived from.
pub open spec fn tag_of(p: Purpose, u: Use) -> Seq<u8> {
    match (p, u) {
        (Purpose::Report, Use::Registration) => "bench_augsso/sp/reg_msg".spec_bytes(),
        (Purpose::Report, Use::FirstValues) => "bench_augsso/sp/auth1_it".spec_bytes(),
        (Purpose::Report, Use::FirstRng) => "bench_augsso/sp/auth1_rng".spec_bytes(),
        (Purpose::Report, Use::SecondValues) => "bench_augsso/sp/auth2_it".spec_bytes(),
        (Purpose::Report, Use::SecondRng) => "bench_augsso/sp/auth2_rng".spec_bytes(),
        (Purpose::Report, Use::UpdateValues) => "bench_augsso/sp/update_it".spec_bytes(),
        (Purpose::Report, Use::UpdateRng) => "bench_augsso/sp/update1_rng".spec_bytes(),
        (Purpose::Calibration, Use::Registration) => "bench_augsso/proc/store_msg".spec_bytes(),
        (Purpose::Calibration, Use::FirstValues) => "bench_augsso/proc/auth_it".spec_bytes(),
        (Purpose::Calibration, Use::FirstRng) => {
            "bench_augsso/proc/auth_respond1_rng".spec_bytes()
        },
        (Purpose::Calibration, Use::SecondValues) => "bench_augsso/proc/auth_it".spec_bytes(),
        (Purpose::Calibration, Use::SecondRng) => {
            "bench_augsso/proc/auth_respond2_rng".spec_bytes()
        },
        (Purpose::Calibration, Use::UpdateValues) => "bench_augsso/proc/update_it".spec_bytes(),
        (Purpose::Calibration, Use::UpdateRng) => {
            "bench_augsso/proc/update_respond1_rng".spec_bytes()
        },
    }
}

/// The generator for a use, at its beginning.
pub open spec fn rng_for(p: Purpose, u: Use, n: usize, t: usize) -> RngState {
    RngState::start(seed_of(tag_of(p, u), n, t))
}

fn make_rng(p: Purpose, u: Use, n: usize, t: usize) -> (r: Rng)
    ensures
        r@ == rng_for(p, u, n, t),
{
    let tag = match (p, u) {
        (Purpose::Report, Use::Registration) => "bench_augsso/sp/reg_msg".as_bytes(),
        (Purpose::Report, Use::FirstValues) => "bench_augsso/sp/auth1_it".as_bytes(),
        (Purpose::Report, Use::FirstRng) => "bench_augsso/sp/auth1_rng".as_bytes(),
        (Purpose::Report, Use::SecondValues) => "bench_augsso/sp/auth2_it".as_bytes(),
        (Purpose::Report, Use::SecondRng) => "bench_augsso/sp/auth2_rng".as_bytes(),
        (Purpose::Report, Use::UpdateValues) => "bench_augsso/sp/update_it".as_bytes(),
        (Purpose::Report, Use::UpdateRng) => "bench_augsso/sp/update1_rng".as_bytes(),
        (Purpose::Calibration, Use::Registration) => "bench_augsso/proc/store_msg".as_bytes(),
        (Purpose::Calibration, Use::FirstValues) => "bench_augsso/proc/auth_it".as_bytes(),
        (Purpose::Calibration, Use::FirstRng) => "bench_augsso/proc/auth_respond1_rng".as_bytes(),
        (Purpose::Calibration, Use::SecondValues) => "bench_augsso/proc/auth_it".as_bytes(),
        (Purpose::Calibration, Use::SecondRng) => "bench_augsso/proc/auth_respond2_rng".as_bytes(),
        (Purpose::Calibration, Use::UpdateValues) => "bench_augsso/proc/update_it".as_bytes(),
        (Purpose::Calibration, Use::UpdateRng) => {
            "bench_augsso/proc/update_respond1_rng".as_bytes()
        },
    };
    Rng::from_seed(seed_for(tag, n, t))
}

/// A piece of work of a server.
#[derive(Clone, Copy, Debug, PartialEq, Eq, Structural)]
pub enum AugSp {
    Store,
    Lookup,
    Respond1,
    Respond2,
    UpdateRespond1,
    UpdateRespond2,
}

/// The pieces of work in the order in which they are reported.
pub open spec fn aug_sps() -> Seq<AugSp> {
    seq![
        AugSp::Store,
        AugSp::Lookup,
        AugSp::Respond1,
        AugSp::Respond2,
        AugSp::UpdateRespond1,
        AugSp::UpdateRespond2,
    ]
}

/// Lists the pieces of work.
pub fn all_aug_sps() -> (r: Vec<AugSp>)
    ensures
        r@ == aug_sps(),
{
    let r = vec![
        AugSp::Store,
        AugSp::Lookup,
        AugSp::Respond1,
        AugSp::Respond2,
        AugSp::UpdateRespond1,
        AugSp::UpdateRespond2,
    ];
    assert(r@ =~= aug_sps());
    r
}

/// The name under which a piece of work is reported.
pub open spec fn aug_sp_name(op: AugSp) -> Seq<char> {
    match op {
        AugSp::Store => "reg_store"@,
        AugSp::Lookup => "auth_db_get"@,
        AugSp::Respond1 => "auth_respond1"@,
        AugSp::Respond2 => "auth_respond2"@,
        AugSp::UpdateRespond1 => "update_respond1"@,
        AugSp::UpdateRespond2 => "update_respond2"@,
    }
}

impl AugSp {
    /// The name under which the piece of work is reported.
    pub fn name(self) -> (r: &'static str)
        ensures
            r@ == aug_sp_name(self),
    {
        match self {
            AugSp::Store => "reg_store",
            AugSp::Lookup => "auth_db_get",
            AugSp::Respond1 => "auth_respond1",
            AugSp::Respond2 => "auth_respond2",
            AugSp::UpdateRespond1 => "update_respond1",
            AugSp::UpdateRespond2 => "update_respond2",
        }
    }
}

/// What a piece of work returns.
#[derive(Debug)]
pub enum AugSpOut {
    Stored,
    Found(bool),
    First(Option<(ServerResponse1, ServerSession)>),
    Second(Option<ServerResponse2>),
    UpdateFirst(Option<(PasswordUpdateResponse1, PasswordUpdateServerSession)>),
    UpdateSecond(Option<PasswordUpdateResponse2>),
}

/// The requests that a server's work is measured on.
pub struct AugWork {
    pub c: ClientId,
    pub target: AugSsoServer,
    pub msg: RegistrationMsg,
    pub req: ClientRequest,
    pub rand: Respond1Rand,
    pub rng1: Rng,
    pub sess: ServerSession,
    pub ct_ch: CtBlob<32>,
    pub nonce: [u8; 24],
    pub rng2: Rng,
    pub upd_req: PasswordUpdateRequest,
    pub upd_rand: Respond1Rand,
    pub upd_rng: Rng,
    pub upd_sess: PasswordUpdateServerSession,
    pub upd_ct_ch: CtBlob<64>,
}

/// The new password that an update is measured with.
pub open spec fn next_password() -> Seq<u8> {
    "new correct horse battery staple".spec_bytes()
}

/// A session with values drawn from a generator.
pub open spec fn session_drawn(ch: Seq<u8>, ek: Seq<u8>, rng: RngState) -> bool {
    ch == rng.bytes(32) && ek == rng.skip(32).bytes(32)
}

/// All values that the work needs can be drawn.
pub open spec fn drawable(p: Purpose, n: usize, t: usize) -> bool {
    let s3 = rng_for(p, Use::UpdateValues, n, t);
    &&& nonzero_drawn(rng_for(p, Use::Registration, n, t)).0 is Some
    &&& nonzero_drawn(rng_for(p, Use::FirstValues, n, t)).0 is Some
    &&& nonzero_drawn(rng_for(p, Use::SecondValues, n, t)).0 is Some
    &&& nonzero_drawn(s3).0 is Some
    &&& nonzero_drawn(nonzero_drawn(s3).1).0 is Some
}

impl AugWork {
    /// The server answers each of the requests.
    pub open spec fn ready(self, srv: ServerState) -> bool {
        &&& self.target@.id == self.msg.server_id
        &&& answers(srv, self.req.pld@, self.req.bpw@)
        &&& opened(self.sess.ek@, no_aad(), self.ct_ch@) == Some(self.sess.ch@)
        &&& answers_update(srv, self.upd_req)
        &&& update_challenge_accepted(srv, self.upd_sess, self.upd_ct_ch@)
    }

    /// The requests are those for a deployment with `n` servers and threshold `t`.
    pub open spec fn prepared(self, fx: Fixture, p: Purpose, n: usize, t: usize) -> bool {
        let srv = fx.servers@[0]@;
        let s0 = rng_for(p, Use::Registration, n, t);
        let s1 = rng_for(p, Use::FirstValues, n, t);
        let s2 = rng_for(p, Use::SecondValues, n, t);
        let s3 = rng_for(p, Use::UpdateValues, n, t);
        let d1 = nonzero_drawn(s1).1;
        let d2 = nonzero_drawn(s2).1;
        let d3 = nonzero_drawn(nonzero_drawn(s3).1).1;
        let sk = nonzero_drawn(s0).0->Some_0;
        &&& self.c == fx.c
        &&& self.target@ == (ServerState { id: 1, records: Map::empty(), ..srv })
        &&& (self.msg.server_id, self.msg.sk_i@) == shares_of(
            client_poly(sk, t as nat, nonzero_drawn(s0).1),
            n as nat,
            order(),
        )[0]
        &&& self.msg.rpk@ == x25519_public(
            client_secret(g1_mul(password_g1(fx.password@), sk), fx.password@),
        )
        &&& self.req.pld == fx.pld
        &&& self.req.bpw@ == g1_mul(password_g1(fx.password@), nonzero_drawn(s1).0->Some_0)
        &&& rand_drawn(self.rand, after_nonces(after_nonces(d1, fx.t as nat), fx.t as nat))
        &&& self.rng1@ == rng_for(p, Use::FirstRng, n, t)
        &&& self.sess.server_id == srv.id
        &&& self.sess.pld == fx.pld
        &&& session_drawn(
            self.sess.ch@,
            self.sess.ek@,
            after_nonces(after_nonces(d2, fx.t as nat), fx.t as nat),
        )
        &&& self.ct_ch@ == sealed(self.sess.ek@, no_aad(), self.sess.ch@, d2.bytes(24))
        &&& self.nonce@ == after_nonces(d2, fx.t as nat).bytes(24)
        &&& self.rng2@ == rng_for(p, Use::SecondRng, n, t)
        &&& self.upd_req.client_id == fx.c
        &&& self.upd_req.bpw_old@ == g1_mul(
            password_g1(fx.password@),
            nonzero_drawn(s3).0->Some_0,
        )
        &&& self.upd_req.bpw_new@ == g1_mul(
            password_g1(next_password()),
            nonzero_drawn(nonzero_drawn(s3).1).0->Some_0,
        )
        &&& rand_drawn(self.upd_rand, d3)
        &&& self.upd_rng@ == rng_for(p, Use::UpdateRng, n, t)
        &&& self.upd_sess == (PasswordUpdateServerSession {
            server_id: srv.id,
            client_id: fx.c,
            bpw_new: self.upd_req.bpw_new,
            ek: self.upd_rand.ek,
            ch: self.upd_rand.ch,
        })
        &&& self.upd_ct_ch@ == sealed(
            self.upd_rand.ek@,
            no_aad(),
            self.upd_rand.ch@ + x25519_public(pke_secret(filled(91, 32))),
            d3.skip(32).skip(32).skip(32).skip(24).bytes(24),
        )
    }

    /// The requests for a deployment whose first server knows the client. There are none
    /// where a generator yields only zeros.
    #[verifier::rlimit(60)]
    pub fn prepare(fx: &Fixture, p: Purpose, n: usize, t: usize) -> (r: Option<AugWork>)
        requires
            1 <= t <= n,
            1 <= fx.t,
            1 <= fx.n,
            fx.servers@.len() > 0,
            fx.servers@[0]@.id == 1,
            fx.servers@[0]@.records.dom().contains(fx.c.0@),
            client_in(fx.pld@) == fx.c.0@,
        ensures
            r is Some <==> drawable(p, n, t),
            r matches Some(w) ==> w.prepared(*fx, p, n, t) && w.ready(fx.servers@[0]@),
    {
        let aad: [u8; 0] = [];
        assert(aad@ =~= no_aad());
        let srv = &fx.servers[0];
        let mut rng0 = make_rng(p, Use::Registration, n, t);
        let ghost s0 = rng0@;
        let reg = match registration_client(n, t, fx.password.as_slice(), &mut rng0) {
            Some(reg) => reg,
            None => {
                return None;
            },
        };
        proof {
            assert(message_shares(reg.msgs@).len() == n);
            assert(message_shares(reg.msgs@)[0] == (
                reg.msgs@[0].server_id,
                reg.msgs@[0].sk_i@,
            ));
        }
        let msg = reg.msgs[0];
        let target = AugSsoServer::new(
            1,
            srv.gamma_i,
            srv.phi_i,
            srv.gamma_pub_i,
            srv.phi_pub_i,
            srv.pp,
        );
        let mut it_rng = make_rng(p, Use::FirstValues, n, t);
        let it1 = match make_iter_data(fx, &mut it_rng) {
            Some(it) => it,
            None => {
                return None;
            },
        };
        let (_, req) = request_with_r(
            fx.password.as_slice(),
            fx.pld,
            fx.t_set.as_slice(),
            it1.r,
        );
        let rand = it1.r1[0];
        let mut it_rng2 = make_rng(p, Use::SecondValues, n, t);
        let ghost s2 = it_rng2@;
        let it2 = match make_iter_data(fx, &mut it_rng2) {
            Some(it) => it,
            None => {
                return None;
            },
        };
        let (_, req2) = request_with_r(
            fx.password.as_slice(),
            fx.pld,
            fx.t_set.as_slice(),
            it2.r,
        );
        let sess = match respond1_with_rand(srv, &req2, &it2.r1[0]) {
            Some((_, sess)) => sess,
            None => {
                assert(false);
                return None;
            },
        };
        let ct_ch = xchacha_encrypt_detached_with_nonce::<32>(
            &sess.ek,
            &aad,
            &sess.ch,
            &it2.ctch_nonces[0],
        );
        let nonce = it2.cttkn_nonces[0];
        let mut upd_it_rng = make_rng(p, Use::UpdateValues, n, t);
        let upd_it = match make_password_update_iter_data(fx, &mut upd_it_rng) {
            Some(it) => it,
            None => {
                return None;
            },
        };
        let (_, upd_req) = password_update_request_with_r(
            fx,
            "new correct horse battery staple".as_bytes(),
            upd_it.r_old,
            upd_it.r_new,
        );
        let upd_rand = upd_it.respond1_rand[0];
        let upd_sess = match password_update_respond1_with_rand(srv, &upd_req, &upd_rand) {
            Some((_, sess)) => sess,
            None => {
                assert(false);
                return None;
            },
        };
        let ninety_one: [u8; 32] = [91u8; 32];
        assert(ninety_one@ =~= filled(91, 32));
        let new_keys = pke_kg(&ninety_one);
        let both = cat2(&upd_sess.ch, &new_keys.pk);
        let pt = bytes::to_array::<64>(both.as_slice());
        let upd_ct_ch = xchacha_encrypt_detached_with_nonce::<64>(
            &upd_sess.ek,
            &aad,
            &pt,
            &upd_it.ctch_nonces[0],
        );
        assert(pt@.subrange(0, 32) =~= upd_sess.ch@);
        let w = AugWork {
            c: fx.c,
            target,
            msg,
            req,
            rand,
            rng1: make_rng(p, Use::FirstRng, n, t),
            sess,
            ct_ch,
            nonce,
            rng2: make_rng(p, Use::SecondRng, n, t),
            upd_req,
            upd_rand,
            upd_rng: make_rng(p, Use::UpdateRng, n, t),
            upd_sess,
            upd_ct_ch,
        };
        Some(w)
    }

    /// The session that a server opens for the password update.
    pub open spec fn update_session(
        self,
        srv: ServerState,
        rand: Respond1Rand,
    ) -> PasswordUpdateServerSession {
        PasswordUpdateServerSession {
            server_id: srv.id,
            client_id: self.upd_req.client_id,
            bpw_new: self.upd_req.bpw_new,
            ek: rand.ek,
            ch: rand.ch,
        }
    }

    /// What a piece of work returns; with `timed`, random values are drawn.
    pub open spec fn yields(self, srv: ServerState, op: AugSp, timed: bool, out: AugSpOut) -> bool {
        match op {
            AugSp::Store => out is Stored,
            AugSp::Lookup => out matches AugSpOut::Found(b) && b == srv.records.dom().contains(
                self.c.0@,
            ),
            AugSp::Respond1 => out matches AugSpOut::First(Some((resp, sess))) && resp@ == (if timed {
                drawn_response(srv, self.req.pld@, self.req.bpw@, self.rng1@)
            } else {
                first_response(srv, self.req.pld@, self.req.bpw@, self.rand)
            }) && sess.server_id == srv.id && sess.pld == self.req.pld && sess.ek@ == (if timed {
                self.rng1@.bytes(32)
            } else {
                self.rand.ek@
            }) && sess.ch@ == (if timed {
                self.rng1@.skip(32).bytes(32)
            } else {
                self.rand.ch@
            }),
            AugSp::Respond2 => out matches AugSpOut::Second(Some(resp)) && resp@ == (Response2 {
                server_id: srv.id,
                ct_tkn: sealed(
                    self.sess.ek@,
                    no_aad(),
                    token_plain(srv, self.sess.pld@),
                    if timed {
                        self.rng2@.bytes(24)
                    } else {
                        self.nonce@
                    },
                ),
            }),
            AugSp::UpdateRespond1 => out matches AugSpOut::UpdateFirst(Some((resp, sess)))
                && (if timed {
                exists|rand: Respond1Rand| #[trigger]
                    rand_drawn(rand, self.upd_rng@) && resp@ == update_response1(
                        srv,
                        self.upd_req,
                        rand,
                    ) && sess == self.update_session(srv, rand)
            } else {
                resp@ == update_response1(srv, self.upd_req, self.upd_rand) && sess
                    == self.update_session(srv, self.upd_rand)
            }),
            AugSp::UpdateRespond2 => out matches AugSpOut::UpdateSecond(Some(resp))
                && resp.server_id == srv.id && resp.sigma_phi_i@ == g1_mul(
                self.upd_sess.bpw_new@,
                srv.phi_i,
            ) && resp.new_rpk@ == (opened(
                self.upd_sess.ek@,
                no_aad(),
                self.upd_ct_ch@,
            )->Some_0).subrange(32, 64),
        }
    }

    /// Does a piece of work once.
    #[verifier::rlimit(40)]
    pub fn run(&mut self, srv: &AugSsoServer, op: AugSp, timed: bool) -> (r: AugSpOut)
        requires
            old(self).ready(srv@),
        ensures
            old(self).yields(srv@, op, timed, r),
            *final(self) == (AugWork {
                target: final(self).target,
                rng1: final(self).rng1,
                rng2: final(self).rng2,
                upd_rng: final(self).upd_rng,
                ..*old(self)
            }),
            final(self).target@ == if op == AugSp::Store {
                ServerState {
                    records: old(self).target@.records.insert(
                        old(self).c.0@,
                        record_of(old(self).msg),
                    ),
                    ..old(self).target@
                }
            } else {
                old(self).target@
            },
            final(self).rng1@ == if op == AugSp::Respond1 && timed {
                old(self).rng1@.skip(32).skip(32).skip(32).skip(24)
            } else {
                old(self).rng1@
            },
            final(self).rng2@ == if op == AugSp::Respond2 && timed {
                old(self).rng2@.skip(24)
            } else {
                old(self).rng2@
            },
            final(self).upd_rng@ == if op == AugSp::UpdateRespond1 && timed {
                old(self).upd_rng@.skip(32).skip(32).skip(32).skip(24)
            } else {
                old(self).upd_rng@
            },
            final(self).ready(srv@),
    {
        match op {
            AugSp::Store => {
                self.target.store(self.c, &self.msg);
                AugSpOut::Stored
            },
            AugSp::Lookup => AugSpOut::Found(srv.has_record(self.c)),
            AugSp::Respond1 => {
                if timed {
                    AugSpOut::First(respond1(srv, &self.req, &mut self.rng1))
                } else {
                    AugSpOut::First(respond1_with_rand(srv, &self.req, &self.rand))
                }
            },
            AugSp::Respond2 => {
                if timed {
                    AugSpOut::Second(respond2(srv, &self.sess, &self.ct_ch, &mut self.rng2))
                } else {
                    AugSpOut::Second(
                        respond2_with_nonce(srv, &self.sess, &self.ct_ch, &self.nonce),
                    )
                }
            },
            AugSp::UpdateRespond1 => {
                if timed {
                    AugSpOut::UpdateFirst(
                        password_update_respond1(srv, &self.upd_req, &mut self.upd_rng),
                    )
                } else {
                    AugSpOut::UpdateFirst(
                        password_update_respond1_with_rand(srv, &self.upd_req, &self.upd_rand),
                    )
                }
            },
            AugSp::UpdateRespond2 => AugSpOut::UpdateSecond(
                password_update_respond2(srv, &self.upd_sess, &self.upd_ct_ch),
            ),
        }
    }
}

} // verus!
