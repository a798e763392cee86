//! Threshold tokens and the keys that a password function value gives to servers.
use vstd::prelude::*;
use vstd::string::StringSliceAdditionalSpecFns;

use crate::augsso::scalar_drawn;
use crate::bls::{
    g1_from_bytes, g1_mul, g1_to_bytes, g1_valid, g2_of, order, pairing_check_sig,
    signature_holds, Scalar, G1, G2,
};
use crate::bytes::{self, cat2, u32_le};
use crate::crypto_augsso::{combine_g1_at_zero, hash_to_g1, hashed_g1};
use crate::field::{after_draws, distinct, shamir_share, share_vals, shares_of, sharing_poly, Field};
use crate::group::{combined_at_zero, encs, on_polynomial, Group};
use crate::hash::{self, tagged};
use crate::interpolation::eval;
use crate::ristretto::{self, ristretto_mul, ristretto_valid, Point};
use crate::rng::{Rng, RngState};
use crate::toprf::{self, password_point};

verus! {

/// The length of a token and of a partial token.
pub const TTG_TOKEN_LEN: usize = 48;

/// A server's share of the token key.
pub type TtgShare = Scalar;

/// The key that tokens verify under.
pub type TtgVk = G2;

/// An encoded token.
pub type TtgToken = [u8; 48];

/// The group element that a message is hashed to.
pub open spec fn token_base(msg: Seq<u8>) -> Seq<u8> {
    hashed_g1("pastau/ttg/hash_to_g1/v1".spec_bytes(), msg)
}

/// The polynomial by which the token key is shared.
pub open spec fn ttg_poly(t: nat, rng: RngState) -> Seq<int> {
    sharing_poly(scalar_drawn(rng), t, rng.skip(64), order())
}

/// Draws a token key and shares it among `n` servers, any `t` of which can issue tokens.
pub fn ttg_setup(n: usize, t: usize, rng: &mut Rng) -> (r: (Vec<(u32, TtgShare)>, TtgVk))
    requires
        1 <= t <= n,
    ensures
        share_vals(r.0@) == shares_of(ttg_poly(t as nat, old(rng)@), n as nat, order()),
        r.1@ == g2_of(scalar_drawn(old(rng)@)),
        final(rng)@ == after_draws(old(rng)@.skip(64), (t - 1) as nat),
{
    let key: Scalar = Scalar::random(rng);
    let shares = shamir_share(key, n, t, rng);
    (shares, G2::generator_times(key))
}

/// Hashes a message to the first group.
pub fn ttg_hash_to_g1(msg: &[u8]) -> (r: G1)
    ensures
        r@ == token_base(msg@),
{
    hash_to_g1("pastau/ttg/hash_to_g1/v1".as_bytes(), msg)
}

/// A server's partial token for a message.
pub fn ttg_part_eval(share: &TtgShare, msg: &[u8]) -> (r: G1)
    ensures
        r@ == g1_mul(token_base(msg@), share@),
        g1_valid(token_base(msg@)),
{
    let h = ttg_hash_to_g1(msg);
    h.scale(*share)
}

/// The encoding of a partial token.
pub fn ttg_partial_to_bytes(p: &G1) -> (r: [u8; 48])
    ensures
        r@ == p@,
        g1_valid(r@),
{
    g1_to_bytes(p)
}

/// Decodes a partial token.
pub fn ttg_token_from_partial_bytes(b: &[u8; 48]) -> (r: Option<G1>)
    ensures
        r is Some <==> g1_valid(b@),
        r matches Some(p) ==> p@ == b@,
{
    g1_from_bytes(b)
}

/// Combines partial tokens. Those of enough servers that share one key give the token of
/// that key.
pub fn ttg_combine(ids: &[u32], partials: &[G1]) -> (r: TtgToken)
    requires
        ids@.len() == partials@.len(),
    ensures
        r@ == combined_at_zero::<G1>(ids@, encs(partials@)),
        g1_valid(r@),
        forall|g: Seq<u8>, c: Seq<int>| #[trigger]
            on_polynomial::<G1>(encs(partials@), g, ids@, c) && distinct(ids@) && c.len()
                <= ids@.len() ==> r@ == g1_mul(g, (eval(c, 0) % (order() as int)) as nat),
{
    let p: G1 = combine_g1_at_zero(ids, partials);
    proof {
        assert forall|g: Seq<u8>, c: Seq<int>| #[trigger]
            on_polynomial::<G1>(encs(partials@), g, ids@, c) && distinct(ids@) && c.len()
                <= ids@.len() implies p@ == g1_mul(
            g,
            (eval(c, 0) % (order() as int)) as nat,
        ) by {
            assert(p@ == G1::mul_of(g, (eval(c, 0) % (order() as int)) as nat));
        }
    }
    g1_to_bytes(&p)
}

/// A token is a group element that signs the message.
pub open spec fn token_verifies(vk: Seq<u8>, msg: Seq<u8>, tk: Seq<u8>) -> bool {
    g1_valid(tk) && signature_holds(token_base(msg), tk, vk)
}

/// Verifies a token. The multiple of the hashed message by the secret key verifies.
pub fn ttg_verify(vk: &TtgVk, msg: &[u8], tk: &TtgToken) -> (r: bool)
    ensures
        r == token_verifies(vk@, msg@, tk@),
        forall|a: nat|
            a < order() && g1_valid(tk@) && tk@ == #[trigger] g1_mul(token_base(msg@), a) && vk@
                == g2_of(a) ==> r,
{
    let h = ttg_hash_to_g1(msg);
    match g1_from_bytes(tk) {
        Some(sig) => pairing_check_sig(&h, &sig, vk),
        None => false,
    }
}

/// A server's key from the value of the password function.
pub open spec fn hi_of(h: Seq<u8>, sid: u32) -> Seq<u8> {
    tagged("pastau/hi/v1".spec_bytes(), h + u32_le(sid))
}

/// Derives the key of the server `sid`.
pub fn hash_hi(h: &[u8; 32], sid: u32) -> (r: [u8; 32])
    ensures
        r@ == hi_of(h@, sid),
{
    hash::hash_tagged("pastau/hi/v1", cat2(h, &bytes::u32_to_le(sid)).as_slice())
}

/// Blinds a password.
pub fn toprf_encode(password: &[u8], blind: ristretto::Scalar) -> (r: Point)
    ensures
        r@ == ristretto_mul(password_point(password@), blind@),
        ristretto_valid(password_point(password@)),
        ristretto_valid(r@),
        forall|k: nat|
            k < ristretto::order() ==> #[trigger] ristretto_mul(r@, k) == ristretto_mul(
                password_point(password@),
                (blind@ * k) % ristretto::order(),
            ),
{
    let p = toprf::hash_to_point(password);
    let r: Point = p.scale(blind);
    proof {
        assert forall|k: nat| k < ristretto::order() implies #[trigger] ristretto_mul(r@, k)
            == ristretto_mul(p@, (blind@ * k) % ristretto::order()) by {
            assert(Point::mul_of(r.enc(), k) == Point::mul_of(
                p.enc(),
                (blind@ * k) % ristretto::order(),
            ));
        }
    }
    r
}

/// A server's part of the password function.
pub fn toprf_eval_share(k_i: ristretto::Scalar, req: &Point) -> (r: Point)
    ensures
        r@ == ristretto_mul(req@, k_i@),
        ristretto_valid(r@),
{
    req.scale(k_i)
}

} // verus!
