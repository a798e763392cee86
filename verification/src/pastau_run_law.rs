//! What the measured runs of PAS-TA-U do: which random values go where, which body an update
//! message carries, and what each measured piece of work returns.
use vstd::prelude::*;
use vstd::string::StringSliceAdditionalSpecFns;

use crate::aead::{opened, sealed};
use crate::augsso_auth::after_nonces;
use crate::augsso_fixture::{first_ids, seed_of};
use crate::augsso_prims::filled;
use crate::augsso_work::{next_password, Purpose};
use crate::bls::{g1_mul, G1};
use crate::bytes::u32_le;
use crate::crypto_pastau::{token_base, token_verifies};
use crate::group::combined_at_zero;
use crate::hash::blake3_hash;
use crate::ids::{place_of, sorted};
use crate::pastau::{
    answers, blinded, computed_value, finalize_accepts, partial_tokens, responders, response,
    response_of, Response, ServerState,
};
use crate::pastau_fixture::{fixture_rng, registration_rng, Fixture};
use crate::pastau_prims::{
    fixed_changes, pas_grid_name, pas_grid_prims, pas_prim_name, pas_prims, PasGridPrim, PasPrim,
    PasPrimOut, PasPrims,
};
use crate::pastau_steps::{
    after_update_values, all_answered, body_with, change_with, nonce_seqs, nonces_from,
    update_values_drawn, UpdateIterData,
};
use crate::pastau_update::{server_states, update_body};
use crate::pastau_wire::{round_value, wire_outcome};
use crate::pastau_work::{pas_rng, pas_sp_name, pas_sps, pas_tag, PasSp, PasSpOut, PasUse, PasWork};
use crate::ristretto::{ristretto_mul, ristretto_valid};
use crate::rng::RngState;
use crate::toprf::{password_point, scalar_drawn};

verus! {

/// Nonces are drawn one behind the other, 24 bytes each.
pub proof fn nonces_are_drawn_in_turn(rng: RngState, n: nat, k: int)
    requires
        0 <= k < n,
    ensures
        nonces_from(rng, n).len() == n,
        nonces_from(rng, n)[k] == after_nonces(rng, k as nat).bytes(24),
        after_nonces(rng, 0) == rng,
        after_nonces(rng, (k + 1) as nat) == after_nonces(rng, k as nat).skip(24),
{
}

/// The values of an update are drawn in order: the three blinding factors, then the nonces of
/// the two value rounds, of the token round and of the servers' key changes.
pub proof fn update_values_are_drawn_in_order(it: UpdateIterData, t: nat, n: nat, rng: RngState)
    requires
        update_values_drawn(it, t, n, rng),
    ensures
        ({
            let a = rng.skip(64).skip(64).skip(64);
            let b = after_nonces(a, t);
            let c = after_nonces(b, t);
            let d = after_nonces(c, t);
            &&& it.rho_old@ == scalar_drawn(rng)
            &&& it.rho_new@ == scalar_drawn(rng.skip(64))
            &&& it.rho_token@ == scalar_drawn(rng.skip(64).skip(64))
            &&& it.nonces_old@.len() == t
            &&& it.nonces_new@.len() == t
            &&& it.nonces_token@.len() == t
            &&& it.update_nonces@.len() == n
            &&& forall|k: int|
                0 <= k < t ==> (#[trigger] it.nonces_old@[k])@ == after_nonces(a, k as nat).bytes(
                    24,
                )
            &&& forall|k: int|
                0 <= k < t ==> (#[trigger] it.nonces_new@[k])@ == after_nonces(b, k as nat).bytes(
                    24,
                )
            &&& forall|k: int|
                0 <= k < t ==> (#[trigger] it.nonces_token@[k])@ == after_nonces(
                    c,
                    k as nat,
                ).bytes(24)
            &&& forall|k: int|
                0 <= k < n ==> (#[trigger] it.update_nonces@[k])@ == after_nonces(
                    d,
                    k as nat,
                ).bytes(24)
            &&& after_update_values(t, n, rng) == after_nonces(d, n)
        }),
{
    let a = rng.skip(64).skip(64).skip(64);
    let b = after_nonces(a, t);
    let c = after_nonces(b, t);
    let d = after_nonces(c, t);
    assert forall|k: int| 0 <= k < t implies (#[trigger] it.nonces_old@[k])@ == after_nonces(
        a,
        k as nat,
    ).bytes(24) by {
        assert(nonce_seqs(it.nonces_old@)[k] == nonces_from(a, t)[k]);
    }
    assert forall|k: int| 0 <= k < t implies (#[trigger] it.nonces_new@[k])@ == after_nonces(
        b,
        k as nat,
    ).bytes(24) by {
        assert(nonce_seqs(it.nonces_new@)[k] == nonces_from(b, t)[k]);
    }
    assert forall|k: int| 0 <= k < t implies (#[trigger] it.nonces_token@[k])@ == after_nonces(
        c,
        k as nat,
    ).bytes(24) by {
        assert(nonce_seqs(it.nonces_token@)[k] == nonces_from(c, t)[k]);
    }
    assert forall|k: int| 0 <= k < n implies (#[trigger] it.update_nonces@[k])@ == after_nonces(
        d,
        k as nat,
    ).bytes(24) by {
        assert(nonce_seqs(it.update_nonces@)[k] == nonces_from(d, n)[k]);
    }
}

/// The body of an update with given nonces holds, 104 bytes each, for every server its old and
/// new key, sealed under the old one with the nonce of its place.
pub proof fn given_nonces_seal_the_changes(
    h_old: Seq<u8>,
    h_new: Seq<u8>,
    nonces: Seq<Seq<u8>>,
    n: int,
    i: int,
)
    requires
        0 <= i < n,
        forall|k: int|
            0 <= k < n ==> (#[trigger] change_with(h_old, h_new, k, nonces[k])).flat().len() == 104,
    ensures
        ({
            let sid = (i + 1) as u32;
            let old = blake3_hash("pastau/hi/v1".spec_bytes() + (h_old + u32_le(sid)));
            let new = blake3_hash("pastau/hi/v1".spec_bytes() + (h_new + u32_le(sid)));
            let b = sealed(old, Seq::empty(), old + new, nonces[i]);
            let body = body_with(h_old, h_new, nonces, n);
            &&& body.len() == n * 104
            &&& body.subrange(i * 104, i * 104 + 104) == b.nonce + b.ct + b.tag
        }),
    decreases n,
{
    let front = body_with(h_old, h_new, nonces, n - 1);
    let whole = body_with(h_old, h_new, nonces, n);
    assert(change_with(h_old, h_new, n - 1, nonces[n - 1]).flat().len() == 104);
    if n == 1 {
        assert(front.len() == 0);
    } else if i < n - 1 {
        given_nonces_seal_the_changes(h_old, h_new, nonces, n - 1, i);
    } else {
        given_nonces_seal_the_changes(h_old, h_new, nonces, n - 1, 0);
    }
    assert(front.len() == (n - 1) * 104);
    if i < n - 1 {
        assert(i * 104 + 104 <= (n - 1) * 104) by (nonlinear_arith)
            requires
                i < n - 1,
        ;
        assert(whole.subrange(i * 104, i * 104 + 104) =~= front.subrange(i * 104, i * 104 + 104));
    } else {
        assert(whole.subrange(i * 104, i * 104 + 104) =~= change_with(
            h_old,
            h_new,
            i,
            nonces[i],
        ).flat());
    }
}

/// A round for a value succeeds exactly where every server asked knows the client and gets a
/// point, and its answer is one. The value is then that of the password and of the answers,
/// which come from the servers asked, in order, for the payload and client.
pub proof fn rounds_ask_every_server(
    fx: Fixture,
    password: Seq<u8>,
    rho: nat,
    nonces: Seq<Seq<u8>>,
)
    requires
        forall|k: int|
            0 <= k < fx.t_set@.len() ==> 1 <= #[trigger] fx.t_set@[k] <= fx.servers@.len(),
    ensures
        ({
            let req = ristretto_mul(password_point(password), rho);
            let resps = Seq::new(
                fx.t_set@.len(),
                |k: int|
                    response(
                        fx.servers@[fx.t_set@[k] - 1]@,
                        fx.c.0@,
                        fx.x@ + fx.c.0@,
                        req,
                        nonces[k],
                    ),
            );
            let good = (forall|k: int|
                0 <= k < fx.t_set@.len() ==> answers(
                    fx.servers@[#[trigger] fx.t_set@[k] - 1]@,
                    fx.c.0@,
                    req,
                )) && all_answered(fx.t_set@, resps);
            round_value(fx, password, rho, nonces) == if good {
                Some(computed_value(password, rho, sorted(fx.t_set@), resps))
            } else {
                None
            }
        }),
{
    let req = ristretto_mul(password_point(password), rho);
    assert(req == blinded(password, rho));
    let a = Seq::new(
        fx.t_set@.len(),
        |k: int|
            response(fx.servers@[fx.t_set@[k] - 1]@, fx.c.0@, fx.x@ + fx.c.0@, req, nonces[k]),
    );
    let ss = server_states(fx.servers@);
    let b = crate::pastau_wire::asked(ss, fx.c.0@, fx.t_set@, fx.x@, req, nonces);
    assert forall|k: int| 0 <= k < a.len() implies a[k] == b[k] && ss[fx.t_set@[k] - 1]
        == fx.servers@[fx.t_set@[k] - 1]@ by {
        assert(1 <= fx.t_set@[k]);
    }
    assert(a =~= b);
    let x = forall|k: int|
        0 <= k < fx.t_set@.len() ==> answers(
            fx.servers@[#[trigger] fx.t_set@[k] - 1]@,
            fx.c.0@,
            req,
        );
    let y = crate::pastau_wire::all_answer(ss, fx.c.0@, fx.t_set@, req);
    if x {
        assert forall|k: int| 0 <= k < fx.t_set@.len() implies answers(
            ss[#[trigger] fx.t_set@[k] - 1],
            fx.c.0@,
            req,
        ) by {
            assert(fx.servers@[fx.t_set@[k] - 1]@ == ss[fx.t_set@[k] - 1]);
        }
        assert(y);
    }
    if y {
        assert forall|k: int| 0 <= k < fx.t_set@.len() implies answers(
            fx.servers@[#[trigger] fx.t_set@[k] - 1]@,
            fx.c.0@,
            req,
        ) by {
            assert(answers(ss[fx.t_set@[k] - 1], fx.c.0@, req));
        }
        assert(x);
    }
}

/// Answers are complete where each server asked is among them with a point.
pub proof fn complete_answers_hold_every_server(ids: Seq<u32>, s: Seq<Response>, k: int)
    requires
        all_answered(ids, s),
        0 <= k < sorted(ids).len(),
    ensures
        place_of(responders(s), sorted(ids)[k]) is Some,
        ristretto_valid(response_of(s, sorted(ids)[k]).z_i),
{
}

/// The message of an update is the changes from the value of the old password to that of the
/// new one, and the client; its token verifies on all of it. Where draws are timed, factors and
/// nonces come from the generator, one behind the other; otherwise they are those given, and
/// the generator stays. Without the two values there is no message.
pub proof fn update_messages_hold_the_changes(
    fx: Fixture,
    new_password: Seq<u8>,
    timed: bool,
    it: UpdateIterData,
    rng: RngState,
    pld: Seq<u8>,
    tk: Seq<u8>,
)
    ensures
        ({
            let n = it.update_nonces@.len();
            let got = wire_outcome(fx, new_password, timed, it, rng);
            let old = round_value(
                fx,
                fx.password@,
                if timed {
                    scalar_drawn(rng)
                } else {
                    it.rho_old@
                },
                nonce_seqs(it.nonces_old@),
            );
            let new = round_value(
                fx,
                new_password,
                if timed {
                    scalar_drawn(rng.skip(64))
                } else {
                    it.rho_new@
                },
                nonce_seqs(it.nonces_new@),
            );
            &&& old is None || new is None ==> got.0 is None
            &&& !timed ==> got.1 == rng
            &&& timed && old is Some && new is Some ==> got.1 == after_nonces(
                rng.skip(64).skip(64),
                n,
            ).skip(64)
            &&& got.0 == Some((pld, tk)) ==> token_verifies(fx.vk@, pld, tk) && pld == if timed {
                update_body(old->Some_0, new->Some_0, n, rng.skip(64).skip(64)) + fx.c.0@
            } else {
                body_with(
                    old->Some_0,
                    new->Some_0,
                    nonce_seqs(it.update_nonces@),
                    n as int,
                ) + fx.c.0@
            }
        }),
{
}

/// The token of a run verifies under the key on the payload and client, and combines what the
/// accepted answers hold; there is none where a server asked does not answer or an answer is
/// refused.
pub proof fn run_tokens_verify(fx: Fixture, it: crate::pastau_fixture::IterData, j: int)
    requires
        0 <= j < fx.t,
    ensures
        ({
            let msg = fx.x@ + fx.c.0@;
            let req = ristretto_mul(password_point(fx.password@), it.rho@);
            let s = fx.asked(it);
            &&& s.len() == fx.t
            &&& s[j] == response(fx.servers@[j]@, fx.c.0@, msg, req, it.nonces@[j]@)
            &&& !answers(fx.servers@[j]@, fx.c.0@, req) ==> fx.token_of(it) is None
            &&& !finalize_accepts(fx.password@, it.rho@, fx.t_set@, s) ==> fx.token_of(it) is None
            &&& fx.token_of(it) matches Some(tk) ==> token_verifies(fx.vk@, msg, tk)
            &&& fx.token_of(it) matches Some(tk) ==> tk == combined_at_zero::<G1>(
                sorted(fx.t_set@),
                partial_tokens(
                    s,
                    computed_value(fx.password@, it.rho@, sorted(fx.t_set@), s),
                    sorted(fx.t_set@),
                ),
            )
        }),
{
}

/// The generators of a fixture continue the one that its numbers seed.
pub proof fn fixtures_are_seeded_by_their_numbers(n: usize, t: usize)
    ensures
        fixture_rng(n, t) == RngState::start(seed_of("pastau/fixture/v1".spec_bytes(), n, t)).skip(
            32,
        ).skip(32),
        registration_rng(n, t) == crate::field::after_draws(
            fixture_rng(n, t).skip(64),
            (t - 1) as nat,
        ),
{
}

/// The names under which the primitives and the work of a server are reported, in their order.
pub proof fn measured_names_are_known()
    ensures
        pas_prims().map(|i: int, p: PasPrim| pas_prim_name(p)) == seq![
            "top_hash_to_point"@,
            "top_encode"@,
            "top_eval_share"@,
            "hash_hi_one"@,
            "aead_encrypt_sig"@,
            "aead_decrypt_sig"@,
            "aead_encrypt_update"@,
            "aead_decrypt_update"@,
            "ttg_hash_to_g1"@,
            "ttg_part_eval"@,
            "ttg_verify"@,
        ],
        pas_grid_prims().map(|i: int, p: PasGridPrim| pas_grid_name(p)) == seq![
            "top_combine_t"@,
            "hash_hi_all_n"@,
            "update_payload_encrypt_all_n"@,
            "ttg_combine_t"@,
        ],
        pas_sps().map(|i: int, p: PasSp| pas_sp_name(p)) == seq![
            "reg_store"@,
            "auth_db_get"@,
            "auth_respond"@,
            "update_respond"@,
            "update_handle"@,
        ],
{
}

/// What each measured primitive returns of the inputs it is measured on.
pub proof fn primitives_return_their_values(w: PasPrims, timed: bool, out: PasPrimOut)
    ensures
        w.yields(PasPrim::HashToPoint, timed, out) ==> (out matches PasPrimOut::Point(x) && x@
            == password_point(w.password@)),
        w.yields(PasPrim::Encode, timed, out) ==> (out matches PasPrimOut::Bytes(b) && b@
            == ristretto_mul(password_point(w.password@), w.rho@)),
        w.yields(PasPrim::EvalShare, timed, out) ==> (out matches PasPrimOut::Bytes(b) && b@
            == ristretto_mul(w.req@, w.share@)),
        w.yields(PasPrim::HashKey, timed, out) ==> (out matches PasPrimOut::Bytes(b) && b@
            == blake3_hash("pastau/hi/v1".spec_bytes() + (filled(42, 32) + u32_le(1)))),
        w.yields(PasPrim::SealToken, timed, out) ==> (out matches PasPrimOut::SealedToken(c) && c@
            == sealed(
            filled(7, 32),
            Seq::empty(),
            filled(9, 48),
            if timed {
                w.rng_token@.bytes(24)
            } else {
                filled(3, 24)
            },
        )),
        w.yields(PasPrim::OpenToken, timed, out) ==> (out matches PasPrimOut::OpenedToken(m) && (
        m matches Ok(m) && m@ == filled(9, 48))),
        w.yields(PasPrim::SealUpdate, timed, out) ==> (out matches PasPrimOut::SealedUpdate(c)
            && c@ == sealed(
            filled(7, 32),
            Seq::empty(),
            filled(9, 64),
            if timed {
                w.rng_update@.bytes(24)
            } else {
                filled(4, 24)
            },
        )),
        w.yields(PasPrim::OpenUpdate, timed, out) ==> (out matches PasPrimOut::OpenedUpdate(m) && (
        m matches Ok(m) && m@ == filled(9, 64))),
        w.yields(PasPrim::HashToG1, timed, out) ==> (out matches PasPrimOut::G1(x) && x@
            == token_base(filled(5, 64))),
        w.yields(PasPrim::PartEval, timed, out) ==> (out matches PasPrimOut::G1(x) && x@ == g1_mul(
            token_base(filled(5, 64)),
            w.ttg_share@,
        )),
        w.yields(PasPrim::Verify, timed, out) ==> (out matches PasPrimOut::Truth(b) && b
            == token_verifies(w.vk@, filled(5, 64), w.token@)),
        w.opens() ==> opened(filled(7, 32), Seq::empty(), w.sealed_token@) == Some(filled(9, 48))
            && opened(filled(7, 32), Seq::empty(), w.sealed_update@) == Some(filled(9, 64)),
{
}

/// The inputs of the primitives are those of the fixture's first server, the factor seven, and
/// the token of the first two servers.
pub proof fn primitives_are_measured_on_the_fixture(w: PasPrims, fx: Fixture)
    requires
        w.prepared(fx),
    ensures
        w.password@ == fx.password@,
        w.rho@ == 7,
        w.req@ == ristretto_mul(password_point(fx.password@), 7),
        w.share@ == fx.servers@[0]@.records[fx.c.0@].k_i,
        w.ttg_share@ == fx.servers@[0]@.ttg_share,
        w.vk == fx.vk,
        w.token@ == combined_at_zero::<G1>(
            first_ids(2),
            seq![
                g1_mul(token_base(filled(5, 64)), fx.servers@[0]@.ttg_share),
                g1_mul(token_base(filled(5, 64)), fx.servers@[1]@.ttg_share),
            ],
        ),
{
    let a = crate::pastau_prims::two_partials(fx);
    assert(a =~= seq![a[0], a[1]]);
}

/// Sealing all changes with one key seals, server by server, the same pair of keys under the
/// nonce of the place.
pub proof fn fixed_changes_follow_each_other(nonces: Seq<Seq<u8>>, n: int, x: u8, i: int)
    requires
        0 <= n,
        0 <= i < n,
    ensures
        fixed_changes(nonces, 0) == Seq::<u8>::empty(),
        fixed_changes(nonces, n + 1) == fixed_changes(nonces, n) + ({
            let b = sealed(
                filled(7, 32),
                Seq::empty(),
                filled(7, 32) + filled(8, 32),
                nonces[n],
            );
            b.nonce + b.ct + b.tag
        }),
        filled(x, n as nat).len() == n,
        filled(x, n as nat)[i] == x,
{
}

/// The seeds of a server's work tell what is drawn from them, and for which purpose.
pub proof fn work_seeds_tell_their_use(n: usize, t: usize, p: Purpose, u: PasUse)
    ensures
        pas_rng(p, u, n, t) == RngState::start(seed_of(pas_tag(p, u), n, t)),
        pas_tag(Purpose::Report, PasUse::Registration)
            == "bench_pastau/sp/reg_store_msg".spec_bytes(),
        pas_tag(Purpose::Report, PasUse::Values) == "bench_pastau/sp/auth_respond_it".spec_bytes(),
        pas_tag(Purpose::Report, PasUse::RespondRng)
            == "bench_pastau/sp/auth_respond_rng".spec_bytes(),
        pas_tag(Purpose::Report, PasUse::WireValues)
            == "bench_pastau/sp/update_wire_it".spec_bytes(),
        pas_tag(Purpose::Report, PasUse::WireClient)
            == "bench_pastau/sp/update_wire_client".spec_bytes(),
        pas_tag(Purpose::Report, PasUse::UpdateRng)
            == "bench_pastau/sp/update_respond_rng".spec_bytes(),
        pas_tag(Purpose::Report, PasUse::HandleValues)
            == "bench_pastau/sp/update_handle_it".spec_bytes(),
        pas_tag(Purpose::Report, PasUse::HandleClient)
            == "bench_pastau/sp/update_handle_client".spec_bytes(),
        pas_tag(Purpose::Calibration, PasUse::Registration)
            == "bench_pastau/proc/reg_store_msg".spec_bytes(),
        pas_tag(Purpose::Calibration, PasUse::Values) == "bench_pastau/proc/it".spec_bytes(),
        pas_tag(Purpose::Calibration, PasUse::RespondRng)
            == "bench_pastau/proc/auth_respond_rng".spec_bytes(),
        pas_tag(Purpose::Calibration, PasUse::WireValues)
            == "bench_pastau/proc/update_it".spec_bytes(),
        pas_tag(Purpose::Calibration, PasUse::WireClient)
            == "bench_pastau/proc/update_client".spec_bytes(),
        pas_tag(Purpose::Calibration, PasUse::UpdateRng)
            == "bench_pastau/proc/update_respond_rng".spec_bytes(),
        pas_tag(Purpose::Calibration, PasUse::HandleValues)
            == "bench_pastau/proc/update_it".spec_bytes(),
        pas_tag(Purpose::Calibration, PasUse::HandleClient)
            == "bench_pastau/proc/update_client".spec_bytes(),
        next_password() == "new correct horse battery staple".spec_bytes(),
{
}

/// What the measured work of a server returns: whether the client is known, its response for
/// the payload or for the update body, with a drawn nonce where draws are timed, and whether
/// the update is taken.
pub proof fn work_returns_what_servers_answer(
    w: PasWork,
    srv: ServerState,
    timed: bool,
    out: PasSpOut,
)
    ensures
        w.yields(srv, PasSp::Lookup, timed, out) ==> (out matches PasSpOut::Found(b) && b
            == srv.records.dom().contains(w.c.0@)),
        w.yields(srv, PasSp::Respond, timed, out) ==> (out matches PasSpOut::Response(o) && (
        o matches Some(resp) && resp@ == response(
            srv,
            w.c.0@,
            w.x@ + w.c.0@,
            w.req@,
            if timed {
                w.rng@.bytes(24)
            } else {
                w.nonce@
            },
        ))),
        w.yields(srv, PasSp::UpdateRespond, timed, out) ==> (out matches PasSpOut::Response(o) && (
        o matches Some(resp) && resp@ == response(
            srv,
            w.c.0@,
            w.body@ + w.c.0@,
            w.upd_req@,
            if timed {
                w.upd_rng@.bytes(24)
            } else {
                w.upd_nonce@
            },
        ))),
        w.yields(srv, PasSp::UpdateHandle, timed, out) ==> (out matches PasSpOut::Handled(b) && b
            == crate::pastau_update::takes_update(
            srv,
            w.vk@,
            w.handled.pld3@,
            w.handled.tk_pld3@,
        )),
        w.yields(srv, PasSp::Store, timed, out) ==> out is Stored,
{
}

/// The work of a server is measured on the first server of the fixture without its records, a
/// fresh registration, and requests for the fixture's password.
pub proof fn work_is_measured_on_the_fixture(
    w: PasWork,
    fx: Fixture,
    p: Purpose,
    timed: bool,
    n: usize,
    t: usize,
)
    requires
        w.prepared(fx, p, timed, n, t),
    ensures
        w.msg.server_id == 1,
        w.c == fx.c,
        w.x == fx.x,
        w.vk == fx.vk,
        w.target@.id == 1,
        w.target@.ttg_share == fx.servers@[0]@.ttg_share,
        w.target@.records.dom() =~= Set::empty(),
        w.req@ == ristretto_mul(
            password_point(fx.password@),
            scalar_drawn(pas_rng(p, PasUse::Values, n, t)),
        ),
        w.nonce@ == pas_rng(p, PasUse::Values, n, t).skip(64).bytes(24),
        w.rng@ == pas_rng(p, PasUse::RespondRng, n, t),
        w.upd_rng@ == pas_rng(p, PasUse::UpdateRng, n, t),
        w.upd_nonce@ == w.wire_it.nonces_token@[0]@,
        w.msg.h_i@ == blake3_hash(
            "pastau/hi/v1".spec_bytes() + (crate::pastau::registered_value(
                fx.password@,
                scalar_drawn(pas_rng(p, PasUse::Registration, n, t)),
                scalar_drawn(pas_rng(p, PasUse::Registration, n, t).skip(64)),
            ) + u32_le(1)),
        ),
        wire_outcome(
            fx,
            next_password(),
            timed,
            w.wire_it,
            pas_rng(p, PasUse::WireClient, n, t),
        ).0 == Some((w.body@ + fx.c.0@, w.wire_token@)),
        wire_outcome(
            fx,
            next_password(),
            timed,
            w.handle_it,
            pas_rng(p, PasUse::HandleClient, n, t),
        ).0 == Some((w.handled.pld3@, w.handled.tk_pld3@)),
        update_values_drawn(
            w.wire_it,
            fx.t as nat,
            fx.n as nat,
            pas_rng(p, PasUse::WireValues, n, t),
        ),
        update_values_drawn(
            w.handle_it,
            fx.t as nat,
            fx.n as nat,
            pas_rng(p, PasUse::HandleValues, n, t),
        ),
{
}

/// An update of PAS-TA-U draws nothing without servers; draws one factor where a server asked
/// does not exist or does not know the client; and otherwise draws all its values, and gives a
/// message exactly where the answers are accepted and the token verifies.
pub proof fn updates_fail_in_order(
    servers: Seq<ServerState>,
    c: Seq<u8>,
    old_password: Seq<u8>,
    new_password: Seq<u8>,
    vk: Seq<u8>,
    t_set: Seq<u32>,
    rng: RngState,
)
    ensures
        ({
            let n = servers.len();
            let got = crate::pastau_update::update_outcome(
                servers,
                c,
                old_password,
                new_password,
                vk,
                t_set,
                rng,
            );
            let known = forall|k: int|
                0 <= k < t_set.len() ==> 1 <= #[trigger] t_set[k] <= n
                    && servers[t_set[k] - 1].records.dom().contains(c);
            let last = after_nonces(
                after_nonces(rng.skip(64).skip(64), n).skip(64),
                t_set.len(),
            );
            &&& n == 0 || t_set.len() == 0 ==> got.0 is None && got.1 == rng
            &&& n > 0 && t_set.len() > 0 && !known ==> got.0 is None && got.1 == rng.skip(64)
            &&& n > 0 && t_set.len() > 0 && known ==> got.1 == last
            &&& got.0 matches Some((msg, tk, keys)) ==> known && ({
                let rho = scalar_drawn(after_nonces(rng.skip(64).skip(64), n));
                let s = Seq::new(
                    t_set.len(),
                    |k: int|
                        response(
                            servers[t_set[k] - 1],
                            c,
                            msg,
                            ristretto_mul(password_point(old_password), rho),
                            after_nonces(
                                after_nonces(rng.skip(64).skip(64), n).skip(64),
                                k as nat,
                            ).bytes(24),
                        ),
                );
                &&& finalize_accepts(old_password, rho, t_set, s)
                &&& tk == combined_at_zero::<G1>(
                    sorted(t_set),
                    partial_tokens(
                        s,
                        computed_value(old_password, rho, sorted(t_set), s),
                        sorted(t_set),
                    ),
                )
            })
        }),
{
    let n = servers.len();
    let known = forall|k: int|
        0 <= k < t_set.len() ==> 1 <= #[trigger] t_set[k] <= n
            && servers[t_set[k] - 1].records.dom().contains(c);
    let missing = exists|k: int|
        0 <= k < t_set.len() && !crate::pastau_update::reachable(servers, c, #[trigger] t_set[k]);
    if missing {
        let k = choose|k: int|
            0 <= k < t_set.len() && !crate::pastau_update::reachable(
                servers,
                c,
                #[trigger] t_set[k],
            );
        assert(!(1 <= t_set[k] <= n && servers[t_set[k] - 1].records.dom().contains(c)));
        assert(!known);
    } else {
        assert forall|k: int| 0 <= k < t_set.len() implies 1 <= #[trigger] t_set[k] <= n
            && servers[t_set[k] - 1].records.dom().contains(c) by {
            assert(crate::pastau_update::reachable(servers, c, t_set[k]));
        }
        assert(known);
    }
    let r2 = rng.skip(64).skip(64);
    let rho = scalar_drawn(after_nonces(r2, n));
    let r4 = after_nonces(r2, n).skip(64);
    let body = update_body(
        crate::pastau_update::value_with(servers, c, t_set, old_password, scalar_drawn(rng)),
        crate::pastau_update::value_with(
            servers,
            c,
            t_set,
            new_password,
            scalar_drawn(rng.skip(64)),
        ),
        n,
        r2,
    );
    let req = ristretto_mul(password_point(old_password), rho);
    assert(req == blinded(old_password, rho));
    let a = crate::pastau_update::token_responses(servers, c, t_set, body + c, req, r4);
    let b = Seq::new(
        t_set.len(),
        |k: int|
            response(
                servers[t_set[k] - 1],
                c,
                body + c,
                req,
                after_nonces(r4, k as nat).bytes(24),
            ),
    );
    assert(a =~= b);
}

/// A fixture that went through an update has the new password exactly where every server took
/// it; each server that took it holds what the update leaves, and the others stay.
pub proof fn fixtures_take_the_new_password_together(
    fx: Fixture,
    pld: Seq<u8>,
    tk: Seq<u8>,
    keys: Seq<Seq<u8>>,
    new_password: Seq<u8>,
    after: Fixture,
    all: bool,
    k: int,
)
    requires
        fx.updated(Some((pld, tk, keys)), new_password, after, all),
        0 <= k < fx.servers@.len(),
    ensures
        after.password@ == if all {
            new_password
        } else {
            fx.password@
        },
        after.servers@.len() == fx.servers@.len(),
        after.servers@[k]@ == if crate::pastau_update::takes_update(
            fx.servers@[k]@,
            fx.vk@,
            pld,
            tk,
        ) {
            crate::pastau_update::after_update(fx.servers@[k]@, pld)
        } else {
            fx.servers@[k]@
        },
        all ==> crate::pastau_update::takes_update(fx.servers@[k]@, fx.vk@, pld, tk),
        after == (Fixture { servers: after.servers, password: after.password, ..fx }),
{
    let ss = server_states(fx.servers@);
    assert(ss[k] == fx.servers@[k]@);
}

} // verus!
