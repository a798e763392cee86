//! The steps of a password update, taken one by one with random values drawn beforehand.
use vstd::prelude::*;

use crate::aead::{self, opened, sealed, Blob};
use crate::augsso_auth::{after_nonces, no_aad};
use crate::bytes::{self, cat2, push_bytes};
use crate::crypto_pastau::{hash_hi, hi_of};
use crate::field::{lagrange_coeffs_at_zero, vals};
use crate::group::encs;
use crate::ids::{find_id, place_of, sort_ids, sorted};
use crate::pastau::{
    computed_value, partial_values, responders, response_of, responses, ServerResponse,
    UPDATE_PT_LEN,
};
use crate::pastau_fixture::Fixture;
use crate::pastau_update::serialize_update_blob;
use crate::ristretto::{ristretto_valid, Point, Scalar};
use crate::rng::{Rng, RngState};
use crate::toprf::{self, scalar_drawn, toprf_client_eval_from_partials};

verus! {

/// The random values of one password update.
#[derive(Clone)]
pub struct UpdateIterData {
    pub rho_old: Scalar,
    pub rho_new: Scalar,
    pub rho_token: Scalar,
    pub nonces_old: Vec<[u8; 24]>,
    pub nonces_new: Vec<[u8; 24]>,
    pub nonces_token: Vec<[u8; 24]>,
    pub update_nonces: Vec<[u8; 24]>,
}

/// The next `n` nonces.
pub open spec fn nonces_from(rng: RngState, n: nat) -> Seq<Seq<u8>> {
    Seq::new(n, |k: int| after_nonces(rng, k as nat).bytes(24))
}

/// Nonces as sequences.
pub open spec fn nonce_seqs(v: Seq<[u8; 24]>) -> Seq<Seq<u8>> {
    Seq::new(v.len(), |k: int| v[k]@)
}

/// Draws nonces.
pub fn draw_nonces(n: usize, rng: &mut Rng) -> (r: Vec<[u8; 24]>)
    ensures
        nonce_seqs(r@) == nonces_from(old(rng)@, n as nat),
        r@.len() == n,
        final(rng)@ == after_nonces(old(rng)@, n as nat),
{
    let ghost r0 = rng@;
    let mut v: Vec<[u8; 24]> = Vec::with_capacity(n);
    let mut i: usize = 0;
    while i < n
        invariant
            i <= n,
            v@.len() == i,
            forall|k: int|
                0 <= k < i ==> (#[trigger] v@[k])@ == after_nonces(r0, k as nat).bytes(24),
            rng@ == after_nonces(r0, i as nat),
        decreases n - i,
    {
        v.push(rng.take_array::<24>());
        i = i + 1;
    }
    assert(nonce_seqs(v@) =~= nonces_from(r0, n as nat));
    v
}

/// The random values of one password update with `t` of `n` servers, drawn in this order:
/// three blinding factors, nonces for three rounds, and nonces for the key changes.
pub open spec fn update_values_drawn(r: UpdateIterData, t: nat, n: nat, s0: RngState) -> bool {
    let s1 = s0.skip(64).skip(64).skip(64);
    let s2 = after_nonces(s1, t);
    let s3 = after_nonces(s2, t);
    let s4 = after_nonces(s3, t);
    &&& r.rho_old@ == scalar_drawn(s0)
    &&& r.rho_new@ == scalar_drawn(s0.skip(64))
    &&& r.rho_token@ == scalar_drawn(s0.skip(64).skip(64))
    &&& nonce_seqs(r.nonces_old@) == nonces_from(s1, t)
    &&& nonce_seqs(r.nonces_new@) == nonces_from(s2, t)
    &&& nonce_seqs(r.nonces_token@) == nonces_from(s3, t)
    &&& nonce_seqs(r.update_nonces@) == nonces_from(s4, n)
    &&& r.nonces_old@.len() == t
    &&& r.nonces_new@.len() == t
    &&& r.nonces_token@.len() == t
    &&& r.update_nonces@.len() == n
}

/// The generator after the random values of one password update.
pub open spec fn after_update_values(t: nat, n: nat, s0: RngState) -> RngState {
    let s1 = s0.skip(64).skip(64).skip(64);
    after_nonces(after_nonces(after_nonces(after_nonces(s1, t), t), t), n)
}

/// Draws the random values of one password update.
pub fn make_update_iter_data(fx: &Fixture, rng: &mut Rng) -> (r: UpdateIterData)
    ensures
        update_values_drawn(r, fx.t as nat, fx.n as nat, old(rng)@),
        final(rng)@ == after_update_values(fx.t as nat, fx.n as nat, old(rng)@),
{
    let rho_old = toprf::random_scalar(rng);
    let rho_new = toprf::random_scalar(rng);
    let rho_token = toprf::random_scalar(rng);
    let nonces_old = draw_nonces(fx.t, rng);
    let nonces_new = draw_nonces(fx.t, rng);
    let nonces_token = draw_nonces(fx.t, rng);
    let update_nonces = draw_nonces(fx.n, rng);
    UpdateIterData {
        rho_old,
        rho_new,
        rho_token,
        nonces_old,
        nonces_new,
        nonces_token,
        update_nonces,
    }
}

/// Every server asked has answered with a group element.
pub open spec fn all_answered(ids: Seq<u32>, s: Seq<crate::pastau::Response>) -> bool {
    forall|k: int|
        0 <= k < sorted(ids).len() ==> place_of(responders(s), #[trigger] sorted(ids)[k]) is Some
            && ristretto_valid(response_of(s, sorted(ids)[k]).z_i)
}

/// Recovers the value of the password function from the responses of the servers asked.
pub fn derive_h_from_responses(
    password: &[u8],
    rho: Scalar,
    ids: &[u32],
    resps: &[ServerResponse],
) -> (r: Option<[u8; 32]>)
    ensures
        match r {
            Some(h) => all_answered(ids@, responses(resps@)) && h@ == computed_value(
                password@,
                rho@,
                sorted(ids@),
                responses(resps@),
            ),
            None => !all_answered(ids@, responses(resps@)),
        },
{
    let ghost s = responses(resps@);
    let ghost ts = sorted(ids@);
    let order_of_ids = sort_ids(ids);
    let lambdas: Vec<Scalar> = lagrange_coeffs_at_zero::<Scalar>(order_of_ids.as_slice());
    let mut who: Vec<u32> = Vec::with_capacity(resps.len());
    let mut i: usize = 0;
    while i < resps.len()
        invariant
            i <= resps@.len(),
            who@.len() == i,
            forall|k: int| 0 <= k < i ==> who@[k] == (#[trigger] resps@[k]).server_id,
        decreases resps@.len() - i,
    {
        who.push(resps[i].server_id);
        i = i + 1;
    }
    assert(who@ =~= responders(s));
    let mut partials: Vec<Point> = Vec::with_capacity(order_of_ids.len());
    let mut k: usize = 0;
    while k < order_of_ids.len()
        invariant
            k <= order_of_ids@.len(),
            order_of_ids@ == ts,
            ts == sorted(ids@),
            s == responses(resps@),
            who@ == responders(s),
            partials@.len() == k,
            forall|q: int|
                0 <= q < k ==> place_of(responders(s), #[trigger] ts[q]) is Some
                    && ristretto_valid(response_of(s, ts[q]).z_i) && partials@[q]@ == response_of(
                    s,
                    ts[q],
                ).z_i,
        decreases order_of_ids@.len() - k,
    {
        let sid = order_of_ids[k];
        assert(ts[k as int] == sid);
        let at = match find_id(who.as_slice(), sid) {
            Some(at) => at,
            None => {
                return None;
            },
        };
        assert(response_of(s, sid) == resps@[at as int]@);
        match Point::decompress(&resps[at].z_i) {
            Some(p) => {
                partials.push(p);
            },
            None => {
                return None;
            },
        }
        k = k + 1;
    }
    proof {
        assert(vals(lambdas@).len() == ts.len());
        assert(encs(partials@) =~= partial_values(s, ts)) by {
            assert forall|q: int| 0 <= q < ts.len() implies #[trigger] encs(partials@)[q]
                == partial_values(s, ts)[q] by {
                assert(partials@[q]@ == response_of(s, ts[q]).z_i);
            }
        }
    }
    Some(
        toprf_client_eval_from_partials(password, rho, partials.as_slice(), lambdas.as_slice()),
    )
}

/// The key change of the server at place `i` under a given nonce.
pub open spec fn change_with(h_old: Seq<u8>, h_new: Seq<u8>, i: int, nonce: Seq<u8>) -> Blob {
    let sid = (i + 1) as u32;
    sealed(hi_of(h_old, sid), no_aad(), hi_of(h_old, sid) + hi_of(h_new, sid), nonce)
}

/// The key changes of the first `n` servers under given nonces, one after the other.
pub open spec fn body_with(h_old: Seq<u8>, h_new: Seq<u8>, nonces: Seq<Seq<u8>>, n: int) -> Seq<u8>
    decreases n,
{
    if n <= 0 {
        Seq::empty()
    } else {
        body_with(h_old, h_new, nonces, n - 1) + change_with(
            h_old,
            h_new,
            n - 1,
            nonces[n - 1],
        ).flat()
    }
}

/// Encrypts the old and new keys of all servers under given nonces. Each server can open its
/// own.
pub fn update_body_with_nonces(h_old: &[u8; 32], h_new: &[u8; 32], nonces: &Vec<[u8; 24]>) -> (r:
    Vec<u8>)
    requires
        nonces@.len() <= u32::MAX,
    ensures
        r@ == body_with(h_old@, h_new@, nonce_seqs(nonces@), nonces@.len() as int),
        forall|i: int|
            0 <= i < nonces@.len() ==> opened(
                hi_of(h_old@, (i + 1) as u32),
                no_aad(),
                #[trigger] change_with(h_old@, h_new@, i, nonces@[i]@),
            ) == Some(hi_of(h_old@, (i + 1) as u32) + hi_of(h_new@, (i + 1) as u32)),
{
    let ghost g = nonce_seqs(nonces@);
    let aad: [u8; 0] = [];
    assert(aad@ =~= no_aad());
    let mut body: Vec<u8> = Vec::new();
    let mut i: usize = 0;
    while i < nonces.len()
        invariant
            i <= nonces@.len() <= u32::MAX,
            g == nonce_seqs(nonces@),
            aad@ == no_aad(),
            body@ == body_with(h_old@, h_new@, g, i as int),
            forall|k: int|
                0 <= k < i ==> opened(
                    hi_of(h_old@, (k + 1) as u32),
                    no_aad(),
                    #[trigger] change_with(h_old@, h_new@, k, nonces@[k]@),
                ) == Some(hi_of(h_old@, (k + 1) as u32) + hi_of(h_new@, (k + 1) as u32)),
        decreases nonces@.len() - i,
    {
        let sid = (i + 1) as u32;
        let old_key = hash_hi(h_old, sid);
        let new_key = hash_hi(h_new, sid);
        let both = cat2(&old_key, &new_key);
        let pt = bytes::to_array::<UPDATE_PT_LEN>(both.as_slice());
        let blob = aead::xchacha_encrypt_detached_with_nonce(&old_key, &aad, &pt, &nonces[i]);
        assert(g[i as int] == nonces@[i as int]@);
        assert(blob@ == change_with(h_old@, h_new@, i as int, g[i as int]));
        push_bytes(&mut body, &serialize_update_blob(&blob));
        i = i + 1;
    }
    body
}

} // verus!
