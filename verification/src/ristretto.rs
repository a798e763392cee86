//! The Ristretto group over Curve25519 and its scalars.
use curve25519_dalek::ristretto::CompressedRistretto;
use curve25519_dalek::traits::Identity;
use vstd::prelude::*;

use crate::bytes::{self, le_nat};
use crate::field::{lemma_inverse_unique, Field};
use crate::group::Group;
use crate::rng::Rng;

verus! {

/// The order of the group: 2^252 + 27742317777372353535851937790883648493.
pub open spec fn order() -> nat {
    0x1000000000000000000000000000000014def9dea2f79cd65812631a5cf5d3ednat
}

/// Whether `CompressedRistretto::decompress` accepts the bytes.
pub uninterp spec fn ristretto_valid(p: Seq<u8>) -> bool;

/// The encoding of the product of the encoded `RistrettoPoint` and a scalar.
pub uninterp spec fn ristretto_mul(p: Seq<u8>, k: nat) -> Seq<u8>;

/// The encoding of the sum of two encoded `RistrettoPoint`s.
pub uninterp spec fn ristretto_add(p: Seq<u8>, q: Seq<u8>) -> Seq<u8>;

/// The encoding of the point that `RistrettoPoint::from_uniform_bytes` returns.
pub uninterp spec fn ristretto_from_uniform(wide: Seq<u8>) -> Seq<u8>;

/// Calls `Scalar::from_bytes_mod_order`: the number below the group order that is
/// congruent to the encoded one.
#[verifier::external_body]
fn scalar_reduce(b: &[u8; 32]) -> (r: [u8; 32])
    ensures
        le_nat(r@) == le_nat(b@) % order(),
{
    curve25519_dalek::Scalar::from_bytes_mod_order(*b).to_bytes()
}

/// Calls `Scalar::from_bytes_mod_order_wide`: reduction of a 64-byte number.
#[verifier::external_body]
fn scalar_reduce_wide(b: &[u8; 64]) -> (r: [u8; 32])
    ensures
        le_nat(r@) == le_nat(b@) % order(),
{
    curve25519_dalek::Scalar::from_bytes_mod_order_wide(b).to_bytes()
}

/// Calls `Scalar::from` on a 64-bit number, which keeps its value.
#[verifier::external_body]
fn scalar_of_u64(x: u64) -> (r: [u8; 32])
    ensures
        le_nat(r@) == x,
{
    curve25519_dalek::Scalar::from(x).to_bytes()
}

/// Adds two scalars modulo the group order.
#[verifier::external_body]
fn scalar_add(a: &[u8; 32], b: &[u8; 32]) -> (r: [u8; 32])
    requires
        le_nat(a@) < order(),
        le_nat(b@) < order(),
    ensures
        le_nat(r@) == (le_nat(a@) + le_nat(b@)) % order(),
{
    let x = curve25519_dalek::Scalar::from_bytes_mod_order(*a);
    let y = curve25519_dalek::Scalar::from_bytes_mod_order(*b);
    (x + y).to_bytes()
}

/// Subtracts a scalar from another modulo the group order.
#[verifier::external_body]
fn scalar_sub(a: &[u8; 32], b: &[u8; 32]) -> (r: [u8; 32])
    requires
        le_nat(a@) < order(),
        le_nat(b@) < order(),
    ensures
        le_nat(r@) == (le_nat(a@) - le_nat(b@)) % (order() as int),
{
    let x = curve25519_dalek::Scalar::from_bytes_mod_order(*a);
    let y = curve25519_dalek::Scalar::from_bytes_mod_order(*b);
    (x - y).to_bytes()
}

/// Multiplies two scalars modulo the group order, which is prime: a product is zero
/// only where a factor is.
#[verifier::external_body]
fn scalar_mul(a: &[u8; 32], b: &[u8; 32]) -> (r: [u8; 32])
    requires
        le_nat(a@) < order(),
        le_nat(b@) < order(),
    ensures
        le_nat(r@) == (le_nat(a@) * le_nat(b@)) % order(),
        le_nat(r@) == 0 ==> le_nat(a@) == 0 || le_nat(b@) == 0,
{
    let x = curve25519_dalek::Scalar::from_bytes_mod_order(*a);
    let y = curve25519_dalek::Scalar::from_bytes_mod_order(*b);
    (x * y).to_bytes()
}

/// Calls `Scalar::invert`: the multiplicative inverse of a nonzero scalar. The
/// inverse is computed as a power, so that of zero is zero.
#[verifier::external_body]
fn scalar_invert(a: &[u8; 32]) -> (r: [u8; 32])
    requires
        le_nat(a@) < order(),
    ensures
        le_nat(r@) < order(),
        le_nat(a@) != 0 ==> (le_nat(a@) * le_nat(r@)) % order() == 1,
        le_nat(a@) == 0 ==> le_nat(r@) == 0,
{
    curve25519_dalek::Scalar::from_bytes_mod_order(*a).invert().to_bytes()
}

/// Calls `CompressedRistretto::decompress` and reports whether it gave a point.
#[verifier::external_body]
fn point_is_valid(p: &[u8; 32]) -> (r: bool)
    ensures
        r == ristretto_valid(p@),
{
    CompressedRistretto(*p).decompress().is_some()
}

/// Calls `RistrettoPoint::identity`: the zeroth multiple of every point.
#[verifier::external_body]
fn point_identity() -> (r: [u8; 32])
    ensures
        r@ == Seq::new(32, |i: int| 0u8),
        ristretto_valid(r@),
        forall|g: Seq<u8>| ristretto_valid(g) ==> #[trigger] ristretto_mul(g, 0) == r@,
{
    curve25519_dalek::RistrettoPoint::identity().compress().to_bytes()
}

/// Adds two points. The group is cyclic of prime order: multiples of one point add up.
#[verifier::external_body]
fn point_add(p: &[u8; 32], q: &[u8; 32]) -> (r: [u8; 32])
    requires
        ristretto_valid(p@),
        ristretto_valid(q@),
    ensures
        r@ == ristretto_add(p@, q@),
        ristretto_valid(r@),
        forall|g: Seq<u8>, a: nat, b: nat|
            ristretto_valid(g) && a < order() && b < order() && p@ == #[trigger] ristretto_mul(g, a)
                && q@ == #[trigger] ristretto_mul(g, b) ==> r@ == ristretto_mul(
                g,
                (a + b) % order(),
            ),
{
    let x = CompressedRistretto(*p).decompress().unwrap();
    let y = CompressedRistretto(*q).decompress().unwrap();
    (x + y).compress().to_bytes()
}

/// Multiplies a point by a scalar. A multiple of a multiple is the multiple by the
/// product modulo the group order.
#[verifier::external_body]
fn point_mul(p: &[u8; 32], s: &[u8; 32]) -> (r: [u8; 32])
    requires
        ristretto_valid(p@),
        le_nat(s@) < order(),
    ensures
        r@ == ristretto_mul(p@, le_nat(s@)),
        ristretto_valid(r@),
        forall|k: nat|
            k < order() ==> #[trigger] ristretto_mul(r@, k) == ristretto_mul(
                p@,
                (le_nat(s@) * k) % order(),
            ),
        forall|g: Seq<u8>, a: nat|
            ristretto_valid(g) && a < order() && p@ == #[trigger] ristretto_mul(g, a) ==> r@
                == ristretto_mul(g, (a * le_nat(s@)) % order()),
{
    let x = CompressedRistretto(*p).decompress().unwrap();
    let k = curve25519_dalek::Scalar::from_bytes_mod_order(*s);
    (x * k).compress().to_bytes()
}

/// Calls `RistrettoPoint::from_uniform_bytes`.
#[verifier::external_body]
fn point_from_uniform(wide: &[u8; 64]) -> (r: [u8; 32])
    ensures
        r@ == ristretto_from_uniform(wide@),
        ristretto_valid(r@),
{
    curve25519_dalek::RistrettoPoint::from_uniform_bytes(wide).compress().to_bytes()
}

/// A number below the group order.
#[derive(Clone, Copy, Debug)]
pub struct Scalar {
    repr: [u8; 32],
}

impl View for Scalar {
    type V = nat;

    closed spec fn view(&self) -> nat {
        le_nat(self.repr@)
    }
}

impl Scalar {
    #[verifier::type_invariant]
    pub open spec fn reduced(self) -> bool {
        self@ < order()
    }

    /// The scalar congruent to a little-endian number.
    pub fn from_bytes_mod_order(b: [u8; 32]) -> (r: Scalar)
        ensures
            r@ == le_nat(b@) % order(),
    {
        let repr = scalar_reduce(&b);
        Scalar { repr }
    }

    /// The scalar congruent to a 64-byte little-endian number.
    pub fn from_bytes_mod_order_wide(b: &[u8; 64]) -> (r: Scalar)
        ensures
            r@ == le_nat(b@) % order(),
    {
        let repr = scalar_reduce_wide(b);
        Scalar { repr }
    }

    /// The scalar as a little-endian number.
    pub fn to_bytes(&self) -> (r: [u8; 32])
        ensures
            r@ == bytes::le_bytes(self@, 32),
            le_nat(r@) == self@,
    {
        proof {
            bytes::lemma_le_bytes_of_le_nat(self.repr@);
        }
        self.repr
    }
}

impl Field for Scalar {
    open spec fn order() -> nat {
        order()
    }

    open spec fn val(self) -> nat {
        self@
    }

    proof fn lemma_order() {
    }

    fn of_u64(x: u64) -> (r: Scalar) {
        let repr = scalar_of_u64(x);
        Scalar { repr }
    }

    fn plus(self, other: Scalar) -> (r: Scalar) {
        proof {
            use_type_invariant(&self);
            use_type_invariant(&other);
        }
        let repr = scalar_add(&self.repr, &other.repr);
        Scalar { repr }
    }

    fn minus(self, other: Scalar) -> (r: Scalar) {
        proof {
            use_type_invariant(&self);
            use_type_invariant(&other);
        }
        let repr = scalar_sub(&self.repr, &other.repr);
        Scalar { repr }
    }

    fn times(self, other: Scalar) -> (r: Scalar) {
        proof {
            use_type_invariant(&self);
            use_type_invariant(&other);
        }
        let repr = scalar_mul(&self.repr, &other.repr);
        Scalar { repr }
    }

    fn inverse(self) -> (r: Scalar) {
        proof {
            use_type_invariant(&self);
        }
        let repr = scalar_invert(&self.repr);
        proof {
            if self@ != 0 {
                lemma_inverse_unique(self@, le_nat(repr@), order());
            }
        }
        Scalar { repr }
    }

    fn random(rng: &mut Rng) -> (r: Scalar) {
        let wide = rng.take_array::<64>();
        Scalar::from_bytes_mod_order_wide(&wide)
    }
}

/// A group element, held by its canonical encoding.
#[derive(Clone, Copy, Debug)]
pub struct Point {
    repr: [u8; 32],
}

impl View for Point {
    type V = Seq<u8>;

    closed spec fn view(&self) -> Seq<u8> {
        self.repr@
    }
}

impl Point {
    #[verifier::type_invariant]
    pub open spec fn on_group(self) -> bool {
        ristretto_valid(self@) && self@.len() == 32
    }

    /// The element with the given encoding, if there is one.
    pub fn decompress(b: &[u8; 32]) -> (r: Option<Point>)
        ensures
            r is Some <==> ristretto_valid(b@),
            r matches Some(p) ==> p@ == b@,
    {
        if point_is_valid(b) {
            Some(Point { repr: *b })
        } else {
            None
        }
    }

    /// The canonical encoding.
    pub fn compress(&self) -> (r: [u8; 32])
        ensures
            r@ == self@,
            ristretto_valid(r@),
    {
        proof {
            use_type_invariant(self);
        }
        self.repr
    }

    /// The element that 64 uniform bytes map to.
    pub fn from_uniform_bytes(wide: &[u8; 64]) -> (r: Point)
        ensures
            r@ == ristretto_from_uniform(wide@),
    {
        let repr = point_from_uniform(wide);
        Point { repr }
    }
}

impl Group for Point {
    type S = Scalar;

    open spec fn enc(self) -> Seq<u8> {
        self@
    }

    open spec fn valid(p: Seq<u8>) -> bool {
        ristretto_valid(p)
    }

    open spec fn mul_of(p: Seq<u8>, k: nat) -> Seq<u8> {
        ristretto_mul(p, k)
    }

    open spec fn add_of(p: Seq<u8>, q: Seq<u8>) -> Seq<u8> {
        ristretto_add(p, q)
    }

    open spec fn zero_enc() -> Seq<u8> {
        Seq::new(32, |i: int| 0u8)
    }

    fn identity() -> (r: Point) {
        let repr = point_identity();
        Point { repr }
    }

    fn plus(self, other: Point) -> (r: Point) {
        proof {
            use_type_invariant(&self);
            use_type_invariant(&other);
            assert(<Scalar as Field>::order() == order());
        }
        let repr = point_add(&self.repr, &other.repr);
        Point { repr }
    }

    fn scale(self, s: Scalar) -> (r: Point) {
        proof {
            use_type_invariant(&self);
            use_type_invariant(&s);
            assert(<Scalar as Field>::order() == order() && s.val() == s@);
        }
        let repr = point_mul(&self.repr, &s.repr);
        Point { repr }
    }
}

} // verus!
