//! A threshold oblivious pseudorandom function over the Ristretto group.
use vstd::prelude::*;
use vstd::string::StringSliceAdditionalSpecFns;

use crate::bytes::{self, le_nat};
use crate::field::{
    after_draws, inverse_of, lemma_inverse_cancels, share_vals, shares_of, sharing_poly, vals, Field,
};
use crate::group::{are_multiples, combine, combined, encs, Group};
use crate::hash::{self, blake3_wide, tagged};
use crate::interpolation::dot;
use crate::ristretto::{order, ristretto_from_uniform, ristretto_mul, ristretto_valid, Point, Scalar};
use crate::rng::{Rng, RngState};

verus! {

/// The point that stands for a password.
pub open spec fn password_point(password: Seq<u8>) -> Seq<u8> {
    ristretto_from_uniform(blake3_wide("upspa/toprf/hash_to_point/v1".spec_bytes() + password))
}

/// The key that the function value `y` gives for a password.
pub open spec fn finalized(password: Seq<u8>, y: Seq<u8>) -> Seq<u8> {
    tagged("upspa/toprf/finalize/v1".spec_bytes(), password + y)
}

/// Maps a password to the group.
pub fn hash_to_point(password: &[u8]) -> (r: Point)
    ensures
        r@ == password_point(password@),
{
    let wide = hash::wide_hash("upspa/toprf/hash_to_point/v1".as_bytes(), password);
    Point::from_uniform_bytes(&wide)
}

/// Hashes the function value into a key.
pub fn oprf_finalize(password: &[u8], y: &Point) -> (r: [u8; 32])
    ensures
        r@ == finalized(password@, y@),
{
    let enc = y.compress();
    let m = bytes::cat2(password, &enc);
    hash::hash_tagged("upspa/toprf/finalize/v1", m.as_slice())
}

/// The scalar that the next 64 bytes of a stream give.
pub open spec fn scalar_drawn(rng: RngState) -> nat {
    le_nat(rng.bytes(64)) % order()
}

/// Draws a scalar.
pub fn random_scalar(rng: &mut Rng) -> (r: Scalar)
    ensures
        r@ == scalar_drawn(old(rng)@),
        final(rng)@ == old(rng)@.skip(64),
{
    Scalar::random(rng)
}

/// The polynomial by which a fresh key is shared: its constant term is the key.
pub open spec fn key_poly(t: nat, rng: RngState) -> Seq<int> {
    sharing_poly(scalar_drawn(rng), t, rng.skip(64), order())
}

/// Draws a key and splits it into `n` shares of which any `t` suffice.
pub fn toprf_gen(n: usize, t: usize, rng: &mut Rng) -> (r: (Scalar, Vec<(u32, Scalar)>))
    requires
        1 <= t <= n,
    ensures
        r.0@ == scalar_drawn(old(rng)@),
        share_vals(r.1@) == shares_of(key_poly(t as nat, old(rng)@), n as nat, order()),
        final(rng)@ == after_draws(old(rng)@.skip(64), (t - 1) as nat),
{
    let secret = random_scalar(rng);
    let shares = crate::field::shamir_share(secret, n, t, rng);
    (secret, shares)
}

/// The key that a client derives from weighted partial results under the blinding
/// factor `blind`.
pub open spec fn unblinded_key(
    password: Seq<u8>,
    blind: nat,
    partials: Seq<Seq<u8>>,
    lam: Seq<int>,
) -> Seq<u8> {
    finalized(
        password,
        ristretto_mul(
            combined::<Point>(partials, lam, partials.len() as int),
            inverse_of(blind, order()),
        ),
    )
}

/// Combines partial results, removes the blinding and derives the key. Where the
/// partial results combine to the multiple of a blinded point by a key, the blinding
/// factor drops out.
pub fn toprf_client_eval_from_partials(
    password: &[u8],
    blind: Scalar,
    partials: &[Point],
    lambdas: &[Scalar],
) -> (r: [u8; 32])
    requires
        partials@.len() == lambdas@.len(),
    ensures
        r@ == unblinded_key(password@, blind@, encs(partials@), vals(lambdas@)),
        forall|g: Seq<u8>, ys: Seq<int>, p: Seq<u8>, k: nat|
            blind@ != 0 && #[trigger] are_multiples::<Point>(encs(partials@), g, ys)
                && ristretto_valid(p) && k < order() && ristretto_mul(
                g,
                (dot(vals(lambdas@), ys, ys.len() as int) % (order() as int)) as nat,
            ) == ristretto_mul(p, (blind@ * k) % order()) ==> r@ == #[trigger] finalized(
                password@,
                ristretto_mul(p, k),
            ),
{
    let acc: Point = combine::<Point>(partials, lambdas);
    let inv: Scalar = blind.inverse();
    let y: Point = acc.scale(inv);
    proof {
        assert forall|g: Seq<u8>, ys: Seq<int>, p: Seq<u8>, k: nat|
            blind@ != 0 && #[trigger] are_multiples::<Point>(encs(partials@), g, ys)
                && ristretto_valid(p) && k < order() && ristretto_mul(
                g,
                (dot(vals(lambdas@), ys, ys.len() as int) % (order() as int)) as nat,
            ) == ristretto_mul(p, (blind@ * k) % order()) implies y@ == #[trigger] ristretto_mul(
            p,
            k,
        ) by {
            lemma_inverse_cancels(blind@, inv@, k, order());
            assert(acc.enc() == Point::mul_of(p, (blind@ * k) % order()));
        }
    }
    oprf_finalize(password, &y)
}

} // verus!
