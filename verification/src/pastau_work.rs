//! The work of a PAS-TA-U server that is measured, with the requests that it is measured on.
use vstd::prelude::*;
use vstd::string::StringSliceAdditionalSpecFns;

use crate::augsso_fixture::{seed_for, seed_of};
use crate::augsso_work::{next_password, Purpose};
use crate::bytes;
use crate::crypto_pastau::{hi_of, toprf_encode, TtgToken, TtgVk};
use crate::field::shares_of;
use crate::pastau::{
    answers, blinded, registered_value, registration, respond, respond_var_payload, respond_var_payload_with_nonce,
    respond_with_nonce, response, token_message, ClientId, PastauServer, RecordState,
    RegistrationMsg, ServerResponse, ServerState, UID_LEN, X_LEN,
};
use crate::pastau_fixture::{make_iter_data, Fixture};
use crate::pastau_steps::{
    after_update_values, make_update_iter_data, update_values_drawn, UpdateIterData,
};
use crate::pastau_update::{after_update, password_update_handle, takes_update};
use crate::pastau_wire::{build_update_wire, wire_outcome, UpdateWire};
use crate::ristretto::order;
use crate::rng::{Rng, RngState};
use crate::toprf::{self, key_poly, scalar_drawn};
use crate::wire::copy_range;

verus! {

/// What a seed is used for.
#[derive(Clone, Copy, Debug, PartialEq, Eq, Structural)]
pub enum PasUse {
    Registration,
    Values,
    RespondRng,
    WireValues,
    WireClient,
    UpdateRng,
    HandleValues,
    HandleClient,
}

/// The tag that a seed is derived from.
pub open spec fn pas_tag(p: Purpose, u: PasUse) -> Seq<u8> {
    match (p, u) {
        (Purpose::Report, PasUse::Registration) => "bench_pastau/sp/reg_store_msg".spec_bytes(),
        (Purpose::Report, PasUse::Values) => "bench_pastau/sp/auth_respond_it".spec_bytes(),
        (Purpose::Report, PasUse::RespondRng) => "bench_pastau/sp/auth_respond_rng".spec_bytes(),
        (Purpose::Report, PasUse::WireValues) => "bench_pastau/sp/update_wire_it".spec_bytes(),
        (Purpose::Report, PasUse::WireClient) => "bench_pastau/sp/update_wire_client".spec_bytes(),
        (Purpose::Report, PasUse::UpdateRng) => "bench_pastau/sp/update_respond_rng".spec_bytes(),
        (Purpose::Report, PasUse::HandleValues) => "bench_pastau/sp/update_handle_it".spec_bytes(),
        (Purpose::Report, PasUse::HandleClient) => {
            "bench_pastau/sp/update_handle_client".spec_bytes()
        },
        (Purpose::Calibration, PasUse::Registration) => {
            "bench_pastau/proc/reg_store_msg".spec_bytes()
        },
        (Purpose::Calibration, PasUse::Values) => "bench_pastau/proc/it".spec_bytes(),
        (Purpose::Calibration, PasUse::RespondRng) => {
            "bench_pastau/proc/auth_respond_rng".spec_bytes()
        },
        (Purpose::Calibration, PasUse::WireValues) => "bench_pastau/proc/update_it".spec_bytes(),
        (Purpose::Calibration, PasUse::WireClient) => {
            "bench_pastau/proc/update_client".spec_bytes()
        },
        (Purpose::Calibration, PasUse::UpdateRng) => {
            "bench_pastau/proc/update_respond_rng".spec_bytes()
        },
        (Purpose::Calibration, PasUse::HandleValues) => "bench_pastau/proc/update_it".spec_bytes(),
        (Purpose::Calibration, PasUse::HandleClient) => {
            "bench_pastau/proc/update_client".spec_bytes()
        },
    }
}

/// The generator for a use, at its beginning.
pub open spec fn pas_rng(p: Purpose, u: PasUse, n: usize, t: usize) -> RngState {
    RngState::start(seed_of(pas_tag(p, u), n, t))
}

fn make_rng(p: Purpose, u: PasUse, n: usize, t: usize) -> (r: Rng)
    ensures
        r@ == pas_rng(p, u, n, t),
{
    let tag = match (p, u) {
        (Purpose::Report, PasUse::Registration) => "bench_pastau/sp/reg_store_msg".as_bytes(),
        (Purpose::Report, PasUse::Values) => "bench_pastau/sp/auth_respond_it".as_bytes(),
        (Purpose::Report, PasUse::RespondRng) => "bench_pastau/sp/auth_respond_rng".as_bytes(),
        (Purpose::Report, PasUse::WireValues) => "bench_pastau/sp/update_wire_it".as_bytes(),
        (Purpose::Report, PasUse::WireClient) => "bench_pastau/sp/update_wire_client".as_bytes(),
        (Purpose::Report, PasUse::UpdateRng) => "bench_pastau/sp/update_respond_rng".as_bytes(),
        (Purpose::Report, PasUse::HandleValues) => "bench_pastau/sp/update_handle_it".as_bytes(),
        (Purpose::Report, PasUse::HandleClient) => {
            "bench_pastau/sp/update_handle_client".as_bytes()
        },
        (Purpose::Calibration, PasUse::Registration) => {
            "bench_pastau/proc/reg_store_msg".as_bytes()
        },
        (Purpose::Calibration, PasUse::Values) => "bench_pastau/proc/it".as_bytes(),
        (Purpose::Calibration, PasUse::RespondRng) => {
            "bench_pastau/proc/auth_respond_rng".as_bytes()
        },
        (Purpose::Calibration, PasUse::WireValues) => "bench_pastau/proc/update_it".as_bytes(),
        (Purpose::Calibration, PasUse::WireClient) => "bench_pastau/proc/update_client".as_bytes(),
        (Purpose::Calibration, PasUse::UpdateRng) => {
            "bench_pastau/proc/update_respond_rng".as_bytes()
        },
        (Purpose::Calibration, PasUse::HandleValues) => "bench_pastau/proc/update_it".as_bytes(),
        (Purpose::Calibration, PasUse::HandleClient) => {
            "bench_pastau/proc/update_client".as_bytes()
        },
    };
    Rng::from_seed(seed_for(tag, n, t))
}

/// A piece of work of a server.
#[derive(Clone, Copy, Debug, PartialEq, Eq, Structural)]
pub enum PasSp {
    Store,
    Lookup,
    Respond,
    UpdateRespond,
    UpdateHandle,
}

/// The pieces of work in the order in which they are reported.
pub open spec fn pas_sps() -> Seq<PasSp> {
    seq![
        PasSp::Store,
        PasSp::Lookup,
        PasSp::Respond,
        PasSp::UpdateRespond,
        PasSp::UpdateHandle,
    ]
}

/// Lists the pieces of work.
pub fn all_pas_sps() -> (r: Vec<PasSp>)
    ensures
        r@ == pas_sps(),
{
    let r = vec![
        PasSp::Store,
        PasSp::Lookup,
        PasSp::Respond,
        PasSp::UpdateRespond,
        PasSp::UpdateHandle,
    ];
    assert(r@ =~= pas_sps());
    r
}

/// The name under which a piece of work is reported.
pub open spec fn pas_sp_name(op: PasSp) -> Seq<char> {
    match op {
        PasSp::Store => "reg_store"@,
        PasSp::Lookup => "auth_db_get"@,
        PasSp::Respond => "auth_respond"@,
        PasSp::UpdateRespond => "update_respond"@,
        PasSp::UpdateHandle => "update_handle"@,
    }
}

impl PasSp {
    /// The name under which the piece of work is reported.
    pub fn name(self) -> (r: &'static str)
        ensures
            r@ == pas_sp_name(self),
    {
        match self {
            PasSp::Store => "reg_store",
            PasSp::Lookup => "auth_db_get",
            PasSp::Respond => "auth_respond",
            PasSp::UpdateRespond => "update_respond",
            PasSp::UpdateHandle => "update_handle",
        }
    }
}

/// What a piece of work returns.
#[derive(Debug)]
pub enum PasSpOut {
    Stored,
    Found(bool),
    Response(Option<ServerResponse>),
    Handled(bool),
}

/// The requests that a server's work is measured on.
pub struct PasWork {
    pub c: ClientId,
    pub x: [u8; X_LEN],
    pub vk: TtgVk,
    pub target: PastauServer,
    pub msg: RegistrationMsg,
    pub req: [u8; 32],
    pub nonce: [u8; 24],
    pub rng: Rng,
    pub body: Vec<u8>,
    pub upd_req: [u8; 32],
    pub upd_nonce: [u8; 24],
    pub upd_rng: Rng,
    pub handled: UpdateWire,
    pub wire_token: TtgToken,
    pub wire_it: UpdateIterData,
    pub handle_it: UpdateIterData,
}

/// The uses of the update message that is answered.
pub open spec fn wire_uses() -> (PasUse, PasUse) {
    (PasUse::WireValues, PasUse::WireClient)
}

/// The uses of the update message that is handled.
pub open spec fn handle_uses() -> (PasUse, PasUse) {
    (PasUse::HandleValues, PasUse::HandleClient)
}

/// The update message that values and a client's generator give.
pub open spec fn wire_for(
    fx: Fixture,
    timed: bool,
    it: UpdateIterData,
    client: RngState,
) -> Option<(Seq<u8>, Seq<u8>)> {
    wire_outcome(fx, next_password(), timed, it, client).0
}

/// The update message that the values and the generator of two uses give, where the values
/// are `it`.
pub open spec fn wire_between(
    fx: Fixture,
    p: Purpose,
    uses: (PasUse, PasUse),
    timed: bool,
    n: usize,
    t: usize,
    it: UpdateIterData,
    wire: Option<(Seq<u8>, Seq<u8>)>,
) -> bool {
    &&& update_values_drawn(it, fx.t as nat, fx.n as nat, pas_rng(p, uses.0, n, t))
    &&& wire_for(fx, timed, it, pas_rng(p, uses.1, n, t)) == wire
}

fn make_wire(
    fx: &Fixture,
    p: Purpose,
    uses: (PasUse, PasUse),
    timed: bool,
    n: usize,
    t: usize,
) -> (r: (UpdateIterData, Rng, Option<UpdateWire>))
    requires
        fx.t_set@.len() > 0,
        fx.t >= fx.t_set@.len(),
        fx.servers@.len() == fx.n <= u32::MAX,
        forall|k: int|
            0 <= k < fx.t_set@.len() ==> 1 <= #[trigger] fx.t_set@[k] <= fx.servers@.len(),
    ensures
        wire_between(*fx, p, uses, timed, n, t, r.0, wire_view(r.2)),
        r.1@ == after_update_values(fx.t as nat, fx.n as nat, pas_rng(p, uses.0, n, t)),
{
    let mut rng_it = make_rng(p, uses.0, n, t);
    let it = make_update_iter_data(fx, &mut rng_it);
    let mut rng_client = make_rng(p, uses.1, n, t);
    let w = build_update_wire(
        fx,
        "new correct horse battery staple".as_bytes(),
        timed,
        &it,
        &mut rng_client,
    );
    (it, rng_it, w)
}

/// An update message as sequences.
pub open spec fn wire_view(w: Option<UpdateWire>) -> Option<(Seq<u8>, Seq<u8>)> {
    match w {
        Some(w) => Some((w.pld3@, w.tk_pld3@)),
        None => None,
    }
}

impl PasWork {
    /// The server knows the client, and the requests are group elements.
    pub open spec fn ready(self, srv: ServerState) -> bool {
        &&& self.target@.id == self.msg.server_id
        &&& answers(srv, self.c.0@, self.req@)
        &&& answers(srv, self.c.0@, self.upd_req@)
    }

    /// The requests are those for a deployment with `n` servers and threshold `t`.
    pub open spec fn prepared(
        self,
        fx: Fixture,
        p: Purpose,
        timed: bool,
        n: usize,
        t: usize,
    ) -> bool {
        let s0 = pas_rng(p, PasUse::Registration, n, t);
        let s1 = pas_rng(p, PasUse::Values, n, t);
        let s2 = pas_rng(p, PasUse::WireValues, n, t);
        &&& self.msg.server_id == 1
        &&& self.msg.k_i@ == shares_of(
            key_poly(t as nat, s0.skip(64)),
            n as nat,
            order(),
        )[0].1
        &&& self.msg.h_i@ == hi_of(
            registered_value(fx.password@, scalar_drawn(s0), scalar_drawn(s0.skip(64))),
            1,
        )
        &&& self.c == fx.c
        &&& self.x == fx.x
        &&& self.vk == fx.vk
        &&& self.target@ == (ServerState {
            id: 1,
            ttg_share: fx.servers@[0]@.ttg_share,
            records: Map::empty(),
        })
        &&& self.req@ == blinded(fx.password@, scalar_drawn(s1))
        &&& self.nonce@ == s1.skip(64).bytes(24)
        &&& self.rng@ == pas_rng(p, PasUse::RespondRng, n, t)
        &&& self.upd_req@ == blinded(
            fx.password@,
            scalar_drawn(after_update_values(fx.t as nat, fx.n as nat, s2)),
        )
        &&& self.upd_nonce@ == self.wire_it.nonces_token@[0]@
        &&& self.upd_rng@ == pas_rng(p, PasUse::UpdateRng, n, t)
        &&& wire_between(
            fx,
            p,
            wire_uses(),
            timed,
            n,
            t,
            self.wire_it,
            Some((self.body@ + fx.c.0@, self.wire_token@)),
        )
        &&& wire_between(
            fx,
            p,
            handle_uses(),
            timed,
            n,
            t,
            self.handle_it,
            Some((self.handled.pld3@, self.handled.tk_pld3@)),
        )
    }

    /// The requests for a deployment whose first server knows the client. There are none
    /// where no update message can be made.
    #[verifier::rlimit(40)]
    pub fn prepare(fx: &Fixture, p: Purpose, timed: bool, n: usize, t: usize) -> (r: Option<PasWork>)
        requires
            1 <= t <= n,
            fx.t_set@.len() > 0,
            fx.t >= fx.t_set@.len(),
            0 < fx.servers@.len() == fx.n <= u32::MAX,
            forall|k: int|
                0 <= k < fx.t_set@.len() ==> 1 <= #[trigger] fx.t_set@[k] <= fx.servers@.len(),
            fx.servers@[0]@.records.dom().contains(fx.c.0@),
        ensures
            match r {
                Some(w) => w.prepared(*fx, p, timed, n, t) && w.ready(fx.servers@[0]@),
                None => exists|uses: (PasUse, PasUse), it: UpdateIterData| #[trigger]
                    wire_between(*fx, p, uses, timed, n, t, it, None) && (uses == wire_uses()
                        || uses == handle_uses()),
            },
    {
        let mut rng_reg = make_rng(p, PasUse::Registration, n, t);
        let reg = registration(n, t, fx.password.as_slice(), &mut rng_reg);
        let msg = reg.msgs[0];
        let target = PastauServer::new(1, fx.servers[0].ttg_share);
        let mut rng_it = make_rng(p, PasUse::Values, n, t);
        let it = make_iter_data(fx, &mut rng_it);
        let nonce = it.nonces[0];
        let (upd_it, mut rng_upd, made) = make_wire(
            fx,
            p,
            (PasUse::WireValues, PasUse::WireClient),
            timed,
            n,
            t,
        );
        let wire = match made {
            Some(w) => w,
            None => {
                assert(wire_between(*fx, p, wire_uses(), timed, n, t, upd_it, None));
                return None;
            },
        };
        let rho = toprf::random_scalar(&mut rng_upd);
        let upd_point = toprf_encode(fx.password.as_slice(), rho);
        let upd_req = upd_point.compress();
        let (handle_it, _, made) = make_wire(
            fx,
            p,
            (PasUse::HandleValues, PasUse::HandleClient),
            timed,
            n,
            t,
        );
        let handled = match made {
            Some(w) => w,
            None => {
                assert(wire_between(*fx, p, handle_uses(), timed, n, t, handle_it, None));
                return None;
            },
        };
        proof {
            lemma_message(*fx, timed, upd_it, pas_rng(p, PasUse::WireClient, n, t));
        }
        let body = copy_range(wire.pld3.as_slice(), 0, wire.pld3.len() - UID_LEN);
        proof {
            let c = fx.c.0@;
            assert(wire.pld3@ =~= body@ + c);
        }
        Some(
            PasWork {
                c: fx.c,
                x: fx.x,
                vk: fx.vk,
                target,
                msg,
                req: it.req,
                nonce,
                rng: make_rng(p, PasUse::RespondRng, n, t),
                body,
                upd_req,
                upd_nonce: upd_it.nonces_token[0],
                upd_rng: make_rng(p, PasUse::UpdateRng, n, t),
                handled,
                wire_token: wire.tk_pld3,
                wire_it: upd_it,
                handle_it,
            },
        )
    }

    /// What a piece of work returns; with `timed`, random values are drawn.
    pub open spec fn yields(
        self,
        before: ServerState,
        op: PasSp,
        timed: bool,
        out: PasSpOut,
    ) -> bool {
        match op {
            PasSp::Store => out is Stored,
            PasSp::Lookup => out matches PasSpOut::Found(b) && b == before.records.dom().contains(
                self.c.0@,
            ),
            PasSp::Respond => out matches PasSpOut::Response(Some(resp)) && resp@ == response(
                before,
                self.c.0@,
                token_message(self.x@, self.c.0@),
                self.req@,
                if timed {
                    self.rng@.bytes(24)
                } else {
                    self.nonce@
                },
            ),
            PasSp::UpdateRespond => out matches PasSpOut::Response(Some(resp)) && resp@ == response(
                before,
                self.c.0@,
                token_message(self.body@, self.c.0@),
                self.upd_req@,
                if timed {
                    self.upd_rng@.bytes(24)
                } else {
                    self.upd_nonce@
                },
            ),
            PasSp::UpdateHandle => out matches PasSpOut::Handled(b) && b == takes_update(
                before,
                self.vk@,
                self.handled.pld3@,
                self.handled.tk_pld3@,
            ),
        }
    }

    /// Does a piece of work once. Only the handling of an update changes the server.
    #[verifier::rlimit(40)]
    pub fn run(&mut self, srv: &mut PastauServer, op: PasSp, timed: bool) -> (r: PasSpOut)
        requires
            old(self).ready(old(srv)@),
        ensures
            old(self).yields(old(srv)@, op, timed, r),
            final(srv)@ == if op == PasSp::UpdateHandle && r == PasSpOut::Handled(true) {
                after_update(old(srv)@, old(self).handled.pld3@)
            } else {
                old(srv)@
            },
            *final(self) == (PasWork {
                target: final(self).target,
                rng: final(self).rng,
                upd_rng: final(self).upd_rng,
                ..*old(self)
            }),
            final(self).target@ == if op == PasSp::Store {
                old(self).target@.with_record(
                    old(self).c.0@,
                    RecordState { k_i: old(self).msg.k_i@, h_i: old(self).msg.h_i@ },
                )
            } else {
                old(self).target@
            },
            final(self).rng@ == if op == PasSp::Respond && timed {
                old(self).rng@.skip(24)
            } else {
                old(self).rng@
            },
            final(self).upd_rng@ == if op == PasSp::UpdateRespond && timed {
                old(self).upd_rng@.skip(24)
            } else {
                old(self).upd_rng@
            },
            final(self).ready(final(srv)@),
    {
        match op {
            PasSp::Store => {
                self.target.store(self.c, &self.msg);
                PasSpOut::Stored
            },
            PasSp::Lookup => PasSpOut::Found(srv.has_record(self.c)),
            PasSp::Respond => {
                if timed {
                    PasSpOut::Response(respond(srv, self.c, self.x, &self.req, &mut self.rng))
                } else {
                    PasSpOut::Response(
                        respond_with_nonce(srv, self.c, self.x, &self.req, &self.nonce),
                    )
                }
            },
            PasSp::UpdateRespond => {
                if timed {
                    PasSpOut::Response(
                        respond_var_payload(
                            srv,
                            self.c,
                            self.body.as_slice(),
                            &self.upd_req,
                            &mut self.upd_rng,
                        ),
                    )
                } else {
                    PasSpOut::Response(
                        respond_var_payload_with_nonce(
                            srv,
                            self.c,
                            self.body.as_slice(),
                            &self.upd_req,
                            &self.upd_nonce,
                        ),
                    )
                }
            },
            PasSp::UpdateHandle => PasSpOut::Handled(
                password_update_handle(
                    srv,
                    &self.vk,
                    self.handled.pld3.as_slice(),
                    &self.handled.tk_pld3,
                ),
            ),
        }
    }
}

proof fn lemma_message(fx: Fixture, timed: bool, it: UpdateIterData, client: RngState)
    ensures
        wire_for(fx, timed, it, client) matches Some((pld, tk)) ==> pld.len() >= 32 && pld.subrange(
            pld.len() - 32,
            pld.len() as int,
        ) == fx.c.0@,
{
    if wire_for(fx, timed, it, client) is Some {
        let pld = (wire_for(fx, timed, it, client)->Some_0).0;
        assert(pld.subrange(pld.len() - 32, pld.len() as int) =~= fx.c.0@);
    }
}

} // verus!
