//! What it means that a fixture is sound: whose shares lie on which polynomial, what every server
//! or provider holds, and under which key it opens.
use vstd::prelude::*;
use vstd::string::StringSliceAdditionalSpecFns;

use crate::aead::opened;
use crate::augsso::{client_secret, password_g1};
use crate::augsso_fixture::first_ids;
use crate::augsso_work::{rng_for, AugWork, Purpose, Use};
use crate::bls::{g1_mul, g2_of};
use crate::bytes::{u32_le, u64_le};
use crate::crypto_augsso::nonzero_drawn;
use crate::hash::blake3_hash;
use crate::interpolation::eval;
use crate::keys::{ed25519_public, x25519_public};
use crate::modp_toprf::ToprfSetup;
use crate::pastau::password_value;
use crate::pastau_prims::{PasGrid, PasGridOut, PasGridPrim};
use crate::ristretto::order;
use crate::shoup::ShoupSetup;
use crate::toprf::unblinded_key;
use crate::upspa_abd::{password_key, SystemState};
use crate::upspa_law::{account, login_value};

verus! {

/// In a sound fixture of PAS-TA-U the server at place `i` has the number behind it, and knows
/// only the client: its share of the password function is the value of one polynomial there,
/// its share of the token key that of another, and its key that of the password's value. The
/// token key's public part is that of the constant term.
pub proof fn sound_pastau_servers_hold_their_shares(
    fx: crate::pastau_fixture::Fixture,
    kc: Seq<int>,
    gc: Seq<int>,
    i: int,
)
    requires
        fx.sound(kc, gc),
        0 <= i < fx.n,
    ensures
        1 <= fx.t <= fx.n,
        kc.len() == fx.t,
        gc.len() == fx.t,
        fx.servers@.len() == fx.n,
        fx.t_set@ == Seq::new(fx.t as nat, |k: int| (k + 1) as u32),
        fx.vk@ == g2_of((eval(gc, 0) % (crate::bls::order() as int)) as nat),
        ({
            let s = fx.servers@[i]@;
            let h = password_value(fx.password@, (eval(kc, 0) % (order() as int)) as nat);
            &&& s.id == i + 1
            &&& s.ttg_share == eval(gc, i + 1) % (crate::bls::order() as int)
            &&& s.records.dom() =~= set![fx.c.0@]
            &&& s.records[fx.c.0@].k_i == eval(kc, i + 1) % (order() as int)
            &&& s.records[fx.c.0@].h_i == blake3_hash(
                "pastau/hi/v1".spec_bytes() + (h + u32_le((i + 1) as u32)),
            )
        }),
{
    assert(crate::pastau_update::server_states(fx.servers@)[i] == fx.servers@[i]@);
}

/// In a sound fixture of AugSSO the server at place `i` has the number behind it, shares of the
/// signing and hardening keys and their public parts, and knows only the client, by a share of
/// the client's key and the public key of the password's value. The payload is the client's
/// behind the application's.
pub proof fn sound_augsso_servers_hold_their_shares(
    fx: crate::augsso_fixture::Fixture,
    gc: Seq<int>,
    pc: Seq<int>,
    cc: Seq<int>,
    i: int,
)
    requires
        fx.sound(gc, pc, cc),
        0 <= i < fx.n,
    ensures
        1 <= fx.t <= fx.n,
        gc.len() == fx.t,
        pc.len() == fx.t,
        cc.len() == fx.t,
        fx.pld@ == fx.x@ + fx.c.0@,
        fx.servers@.len() == fx.n,
        fx.t_set@ == Seq::new(fx.t as nat, |k: int| (k + 1) as u32),
        fx.gamma_pk@ == g2_of((eval(gc, 0) % (crate::bls::order() as int)) as nat),
        crate::augsso::keyed(fx.pk_shares@)[i] == (
            (i + 1) as u32,
            g2_of((eval(cc, i + 1) % (crate::bls::order() as int)) as nat),
        ),
        crate::augsso::keyed(fx.gamma_pub_shares@)[i] == (
            (i + 1) as u32,
            g2_of((eval(gc, i + 1) % (crate::bls::order() as int)) as nat),
        ),
        ({
            let m = crate::bls::order() as int;
            let s = fx.servers@[i]@;
            let rec = s.records[fx.c.0@];
            &&& s.id == i + 1
            &&& s.gamma_i == eval(gc, i + 1) % m
            &&& s.phi_i == eval(pc, i + 1) % m
            &&& s.gamma_pub_i == g2_of(s.gamma_i)
            &&& s.phi_pub_i == g2_of(s.phi_i)
            &&& s.pp.n == fx.n
            &&& s.pp.t == fx.t
            &&& s.records.dom() =~= set![fx.c.0@]
            &&& rec.sk_i == eval(cc, i + 1) % m
            &&& rec.pk_i == g2_of(rec.sk_i)
            &&& rec.rpk == x25519_public(
                client_secret(
                    g1_mul(password_g1(fx.password@), (eval(cc, 0) % m) as nat),
                    fx.password@,
                ),
            )
        }),
{
    assert(fx.servers@[i]@.id == (i + 1) as u32);
    assert(first_ids(fx.t as nat) =~= Seq::new(fx.t as nat, |k: int| (k + 1) as u32));
}

/// In a sound quorum system every provider's share is the value of one polynomial at its number,
/// no two have one number, all check the user's signatures, and every master state opens under
/// the key of the password to one that holds the user's signing key.
pub proof fn sound_providers_hold_their_shares(s: SystemState, c: Seq<int>, i: int, j: int)
    requires
        s.sound(c),
        0 <= i < j < s.providers.len(),
    ensures
        0 < s.tsp <= s.qsp,
        c.len() == s.tsp,
        s.providers[i].share == eval(c, s.providers[i].id as int) % (order() as int),
        s.providers[i].id != s.providers[j].id,
        s.providers[i].svk == ed25519_public(s.user_ssk),
        opened(
            password_key(s.password, s.pwd_point, c),
            s.cipherid_aad,
            s.providers[i].master.cipherid,
        ) matches Some(pt) && pt.len() == 104 && pt.subrange(0, 32) == s.user_ssk,
{
}

/// Where all providers hold one master state, any two open to the same under the key of the
/// password; where all hold a secret, each does, with the counter, and the login server knows
/// it.
pub proof fn providers_hold_the_same(
    s: SystemState,
    c: Seq<int>,
    pt: Seq<u8>,
    secret: Seq<u8>,
    ctr: u64,
    i: int,
    j: int,
)
    requires
        0 <= i < s.providers.len(),
        0 <= j < s.providers.len(),
    ensures
        s.one_master(c) ==> opened(
            password_key(s.password, s.pwd_point, c),
            s.cipherid_aad,
            s.providers[i].master.cipherid,
        ) is Some && opened(
            password_key(s.password, s.pwd_point, c),
            s.cipherid_aad,
            s.providers[i].master.cipherid,
        ) == opened(
            password_key(s.password, s.pwd_point, c),
            s.cipherid_aad,
            s.providers[j].master.cipherid,
        ),
        s.all_hold_secret(pt, secret, ctr) ==> ({
            let rec = s.providers[i].csp_db[account(s, pt)];
            &&& s.login == Some(login_value(s, secret))
            &&& s.providers[i].csp_db.dom().contains(account(s, pt))
            &&& rec.active
            &&& rec.ctr == ctr
            &&& opened(pt.subrange(64, 96), s.ciphersp_aad, rec.ciphersp) == Some(
                secret + u64_le(ctr),
            )
        }),
{
    if s.all_hold_secret(pt, secret, ctr) {
        assert(s.providers[i].has_active(account(s, pt)));
    }
}

/// A setup of the password function of the RSA-based scheme gives the server at place `i` the
/// number behind it and the value of the polynomial there; one of the signature likewise, with
/// the exponent 65537, a modulus of two factors, and the inverse of the exponent as the constant
/// term.
pub proof fn setups_hold_their_shares(
    top: ToprfSetup,
    ttg: ShoupSetup,
    n: nat,
    p: nat,
    q: nat,
    c: Seq<int>,
    i: int,
)
    requires
        0 <= i < n,
        n <= u32::MAX,
    ensures
        top.shared_by(n, c) ==> top.shares@.len() == n && top.shares@[i].id == i + 1
            && top.shares@[i].value@ == eval(c, i + 1) % (top.params.order@ as int),
        ttg.made_from(n, p, q, c) ==> ({
            let m = ((p - 1) / 2) * ((q - 1) / 2);
            &&& ttg.public.n@ == p * q
            &&& ttg.public.e@ == 65537
            &&& ttg.shares@.len() == n
            &&& ttg.shares@[i].id == i + 1
            &&& p >= 1 && q >= 1 ==> ttg.shares@[i].s_i@ == eval(c, i + 1) % m && (65537 * c[0])
                % m == 1int % m
        }),
{
}

/// What each measured primitive of the larger inputs returns.
pub proof fn sized_primitives_return_their_values(
    w: PasGrid,
    timed: bool,
    out: PasGridOut,
    i: int,
)
    requires
        0 <= i < w.n <= u32::MAX,
    ensures
        w.yields(PasGridPrim::Combine, timed, out) ==> (out matches PasGridOut::Value(h) && h@
            == unblinded_key(
            w.password@,
            w.rho@,
            crate::group::encs(w.points@),
            crate::field::vals(w.lambdas@),
        )),
        w.yields(PasGridPrim::HashKeys, timed, out) ==> (out matches PasGridOut::Keys(v)
            && v@.len() == w.n && v@[i]@ == blake3_hash(
            "pastau/hi/v1".spec_bytes() + (crate::augsso_prims::filled(42, 32) + u32_le(
                (i + 1) as u32,
            )),
        )),
        w.yields(PasGridPrim::SealUpdates, timed, out) ==> (out matches PasGridOut::Payload(b)
            && b@ == crate::pastau_prims::fixed_changes(
            if timed {
                crate::pastau_steps::nonces_from(w.rng@, w.n as nat)
            } else {
                crate::pastau_steps::nonce_seqs(w.nonces@)
            },
            w.n as int,
        )),
        w.yields(PasGridPrim::CombineTokens, timed, out) ==> (out matches PasGridOut::Token(tk)
            && tk@ == crate::group::combined_at_zero::<crate::bls::G1>(
            w.ids@,
            crate::group::encs(w.partials@),
        )),
{
    if w.yields(PasGridPrim::HashKeys, timed, out) {
        if let PasGridOut::Keys(v) = out {
            let a = crate::pastau_update::key_seqs(v@);
            let b = crate::pastau_update::all_hi(
                crate::augsso_prims::filled(42, 32),
                w.n as nat,
            );
            assert(a == b);
            assert(a.len() == v@.len());
            assert(b.len() == w.n);
            assert(a[i] == v@[i]@);
        }
    }
}

/// The work of an AugSSO server is measured on the fixture's first server without its records,
/// for the fixture's client, payload and password.
pub proof fn augsso_work_is_measured_on_the_fixture(
    w: AugWork,
    fx: crate::augsso_fixture::Fixture,
    p: Purpose,
    n: usize,
    t: usize,
)
    requires
        w.prepared(fx, p, n, t),
    ensures
        w.c == fx.c,
        w.target@.id == 1,
        w.target@.gamma_i == fx.servers@[0]@.gamma_i,
        w.target@.phi_i == fx.servers@[0]@.phi_i,
        w.target@.records.dom() =~= Set::empty(),
        w.req.pld == fx.pld,
        w.req.bpw@ == g1_mul(
            password_g1(fx.password@),
            nonzero_drawn(rng_for(p, Use::FirstValues, n, t)).0->Some_0,
        ),
        w.rng1@ == rng_for(p, Use::FirstRng, n, t),
        w.rng2@ == rng_for(p, Use::SecondRng, n, t),
        w.upd_rng@ == rng_for(p, Use::UpdateRng, n, t),
        w.sess.server_id == fx.servers@[0]@.id,
        w.sess.pld == fx.pld,
        w.upd_req.client_id == fx.c,
        w.upd_req.bpw_old@ == g1_mul(
            password_g1(fx.password@),
            nonzero_drawn(rng_for(p, Use::UpdateValues, n, t)).0->Some_0,
        ),
        w.upd_req.bpw_new@ == g1_mul(
            password_g1("new correct horse battery staple".spec_bytes()),
            nonzero_drawn(nonzero_drawn(rng_for(p, Use::UpdateValues, n, t)).1).0->Some_0,
        ),
        w.upd_sess.bpw_new == w.upd_req.bpw_new,
        w.upd_sess.client_id == fx.c,
        w.upd_sess.ek == w.upd_rand.ek,
        w.upd_sess.ch == w.upd_rand.ch,
{
}

} // verus!
