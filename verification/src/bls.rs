//! The pairing groups of the BLS12-381 curve and their scalars.
use bls12_381::{G1Affine, G1Projective, G2Affine, G2Projective};
use vstd::prelude::*;

use crate::bytes::{self, le_nat};
use crate::field::{lemma_inverse_unique, Field};
use crate::group::Group;
use crate::rng::Rng;

verus! {

pub const G1_LEN: usize = 48;

pub const G2_LEN: usize = 96;

/// The order of both groups.
pub open spec fn order() -> nat {
    0x73eda753299d7d483339d80809a1d80553bda402fffe5bfeffffffff00000001nat
}

/// Calls `Scalar::from_bytes_wide`: reduction of a 64-byte little-endian number.
#[verifier::external_body]
fn scalar_reduce_wide(b: &[u8; 64]) -> (r: [u8; 32])
    ensures
        le_nat(r@) == le_nat(b@) % order(),
{
    bls12_381::Scalar::from_bytes_wide(b).to_bytes()
}

/// Calls `Scalar::from` on a 64-bit number, which keeps its value.
#[verifier::external_body]
fn scalar_of_u64(x: u64) -> (r: [u8; 32])
    ensures
        le_nat(r@) == x,
{
    bls12_381::Scalar::from(x).to_bytes()
}

/// Calls `Scalar::from_bytes`, which accepts the numbers below the order, and
/// reports whether it did.
#[verifier::external_body]
fn scalar_is_canonical(b: &[u8; 32]) -> (r: bool)
    ensures
        r == (le_nat(b@) < order()),
{
    bool::from(bls12_381::Scalar::from_bytes(b).is_some())
}

/// Adds two scalars modulo the order.
#[verifier::external_body]
fn scalar_add(a: &[u8; 32], b: &[u8; 32]) -> (r: [u8; 32])
    requires
        le_nat(a@) < order(),
        le_nat(b@) < order(),
    ensures
        le_nat(r@) == (le_nat(a@) + le_nat(b@)) % order(),
{
    let x = bls12_381::Scalar::from_bytes(a).unwrap();
    let y = bls12_381::Scalar::from_bytes(b).unwrap();
    (x + y).to_bytes()
}

/// Subtracts a scalar from another modulo the order.
#[verifier::external_body]
fn scalar_sub(a: &[u8; 32], b: &[u8; 32]) -> (r: [u8; 32])
    requires
        le_nat(a@) < order(),
        le_nat(b@) < order(),
    ensures
        le_nat(r@) == (le_nat(a@) - le_nat(b@)) % (order() as int),
{
    let x = bls12_381::Scalar::from_bytes(a).unwrap();
    let y = bls12_381::Scalar::from_bytes(b).unwrap();
    (x - y).to_bytes()
}

/// Multiplies two scalars modulo the order, which is prime: a product is zero only
/// where a factor is.
#[verifier::external_body]
fn scalar_mul(a: &[u8; 32], b: &[u8; 32]) -> (r: [u8; 32])
    requires
        le_nat(a@) < order(),
        le_nat(b@) < order(),
    ensures
        le_nat(r@) == (le_nat(a@) * le_nat(b@)) % order(),
        le_nat(r@) == 0 ==> le_nat(a@) == 0 || le_nat(b@) == 0,
{
    let x = bls12_381::Scalar::from_bytes(a).unwrap();
    let y = bls12_381::Scalar::from_bytes(b).unwrap();
    (x * y).to_bytes()
}

/// Calls `Scalar::invert`: the multiplicative inverse, which zero has none of.
#[verifier::external_body]
fn scalar_invert(a: &[u8; 32]) -> (r: Option<[u8; 32]>)
    requires
        le_nat(a@) < order(),
    ensures
        r is Some <==> le_nat(a@) != 0,
        r matches Some(y) ==> le_nat(y@) < order() && (le_nat(a@) * le_nat(y@)) % order() == 1,
{
    Option::<bls12_381::Scalar>::from(bls12_381::Scalar::from_bytes(a).unwrap().invert()).map(
        |y| y.to_bytes(),
    )
}

/// A number below the order.
#[derive(Clone, Copy, Debug)]
pub struct Scalar {
    repr: [u8; 32],
}

impl View for Scalar {
    type V = nat;

    closed spec fn view(&self) -> nat {
        le_nat(self.repr@)
    }
}

impl Scalar {
    #[verifier::type_invariant]
    pub open spec fn reduced(self) -> bool {
        self@ < order()
    }

    /// The scalar congruent to a 64-byte little-endian number.
    pub fn from_bytes_wide(b: &[u8; 64]) -> (r: Scalar)
        ensures
            r@ == le_nat(b@) % order(),
    {
        let repr = scalar_reduce_wide(b);
        Scalar { repr }
    }

    /// The scalar with the given little-endian number, if it is below the order.
    pub fn from_bytes(b: &[u8; 32]) -> (r: Option<Scalar>)
        ensures
            r is Some <==> le_nat(b@) < order(),
            r matches Some(s) ==> s@ == le_nat(b@),
    {
        if scalar_is_canonical(b) {
            Some(Scalar { repr: *b })
        } else {
            None
        }
    }

    /// The scalar as a little-endian number.
    pub fn to_bytes(&self) -> (r: [u8; 32])
        ensures
            r@ == bytes::le_bytes(self@, 32),
            le_nat(r@) == self@,
    {
        proof {
            bytes::lemma_le_bytes_of_le_nat(self.repr@);
        }
        self.repr
    }

    /// Whether the scalar is zero.
    pub fn is_zero(&self) -> (r: bool)
        ensures
            r == (self@ == 0),
    {
        let zero = scalar_of_u64(0);
        let r = bytes::same_bytes(&self.repr, &zero);
        proof {
            if self@ == 0 {
                bytes::lemma_le_nat_injective(self.repr@, zero@);
            }
        }
        r
    }
}

impl Field for Scalar {
    open spec fn order() -> nat {
        order()
    }

    open spec fn val(self) -> nat {
        self@
    }

    proof fn lemma_order() {
    }

    fn of_u64(x: u64) -> (r: Scalar) {
        let repr = scalar_of_u64(x);
        Scalar { repr }
    }

    fn plus(self, other: Scalar) -> (r: Scalar) {
        proof {
            use_type_invariant(&self);
            use_type_invariant(&other);
        }
        let repr = scalar_add(&self.repr, &other.repr);
        Scalar { repr }
    }

    fn minus(self, other: Scalar) -> (r: Scalar) {
        proof {
            use_type_invariant(&self);
            use_type_invariant(&other);
        }
        let repr = scalar_sub(&self.repr, &other.repr);
        Scalar { repr }
    }

    fn times(self, other: Scalar) -> (r: Scalar) {
        proof {
            use_type_invariant(&self);
            use_type_invariant(&other);
        }
        let repr = scalar_mul(&self.repr, &other.repr);
        Scalar { repr }
    }

    fn inverse(self) -> (r: Scalar) {
        proof {
            use_type_invariant(&self);
        }
        match scalar_invert(&self.repr) {
            Some(repr) => {
                proof {
                    lemma_inverse_unique(self@, le_nat(repr@), order());
                }
                Scalar { repr }
            },
            None => {
                let repr = scalar_of_u64(0);
                Scalar { repr }
            },
        }
    }

    fn random(rng: &mut Rng) -> (r: Scalar) {
        let wide = rng.take_array::<64>();
        Scalar::from_bytes_wide(&wide)
    }
}

/// Whether `G1Affine::from_compressed` accepts the bytes.
pub uninterp spec fn g1_valid(p: Seq<u8>) -> bool;

/// The encoding of the product of the encoded `G1Projective` and a scalar.
pub uninterp spec fn g1_mul(p: Seq<u8>, k: nat) -> Seq<u8>;

/// The encoding of the sum of two encoded `G1Projective`s.
pub uninterp spec fn g1_add(p: Seq<u8>, q: Seq<u8>) -> Seq<u8>;

/// The encoding of the product of `G1Projective::generator()` and a scalar.
pub uninterp spec fn g1_of(k: nat) -> Seq<u8>;

/// The encoding of the neutral element: the infinity flag and zeros.
pub open spec fn g1_zero() -> Seq<u8> {
    Seq::new(48, |i: int| if i == 0 { 0xc0u8 } else { 0u8 })
}

/// Calls `G1Affine::from_compressed` and reports whether it gave an element.
#[verifier::external_body]
fn g1_is_valid(p: &[u8; 48]) -> (r: bool)
    ensures
        r == g1_valid(p@),
{
    bool::from(G1Affine::from_compressed(p).is_some())
}

/// Calls `G1Projective::identity`: the zeroth multiple of every element.
#[verifier::external_body]
fn g1_identity() -> (r: [u8; 48])
    ensures
        r@ == g1_zero(),
        g1_valid(r@),
        forall|g: Seq<u8>| g1_valid(g) ==> #[trigger] g1_mul(g, 0) == r@,
{
    G1Affine::from(G1Projective::identity()).to_compressed()
}

/// Multiplies `G1Projective::generator()` by a scalar. Multiples of the result are
/// multiples of the generator by the product.
#[verifier::external_body]
fn g1_generate(s: &[u8; 32]) -> (r: [u8; 48])
    requires
        le_nat(s@) < order(),
    ensures
        r@ == g1_of(le_nat(s@)),
        g1_valid(r@),
        forall|k: nat|
            k < order() ==> #[trigger] g1_mul(r@, k) == g1_of((le_nat(s@) * k) % order()),
{
    let k = bls12_381::Scalar::from_bytes(s).unwrap();
    G1Affine::from(G1Projective::generator() * k).to_compressed()
}

/// Adds two elements. The group is cyclic of prime order: multiples of one element
/// add up.
#[verifier::external_body]
fn g1_sum(p: &[u8; 48], q: &[u8; 48]) -> (r: [u8; 48])
    requires
        g1_valid(p@),
        g1_valid(q@),
    ensures
        r@ == g1_add(p@, q@),
        g1_valid(r@),
        forall|g: Seq<u8>, a: nat, b: nat|
            g1_valid(g) && a < order() && b < order() && p@ == #[trigger] g1_mul(g, a) && q@
                == #[trigger] g1_mul(g, b) ==> r@ == g1_mul(g, (a + b) % order()),
{
    let x = G1Projective::from(G1Affine::from_compressed(p).unwrap());
    let y = G1Projective::from(G1Affine::from_compressed(q).unwrap());
    G1Affine::from(x + y).to_compressed()
}

/// Multiplies an element by a scalar. A multiple of a multiple is the multiple by
/// the product modulo the order.
#[verifier::external_body]
fn g1_scale(p: &[u8; 48], s: &[u8; 32]) -> (r: [u8; 48])
    requires
        g1_valid(p@),
        le_nat(s@) < order(),
    ensures
        r@ == g1_mul(p@, le_nat(s@)),
        g1_valid(r@),
        forall|k: nat|
            k < order() ==> #[trigger] g1_mul(r@, k) == g1_mul(p@, (le_nat(s@) * k) % order()),
        forall|g: Seq<u8>, a: nat|
            g1_valid(g) && a < order() && p@ == #[trigger] g1_mul(g, a) ==> r@ == g1_mul(
                g,
                (a * le_nat(s@)) % order(),
            ),
{
    let x = G1Projective::from(G1Affine::from_compressed(p).unwrap());
    let k = bls12_381::Scalar::from_bytes(s).unwrap();
    G1Affine::from(x * k).to_compressed()
}

/// An element of the first group, held by its canonical encoding.
#[derive(Clone, Copy, Debug)]
pub struct G1 {
    repr: [u8; 48],
}

impl View for G1 {
    type V = Seq<u8>;

    closed spec fn view(&self) -> Seq<u8> {
        self.repr@
    }
}

impl G1 {
    #[verifier::type_invariant]
    pub open spec fn on_group(self) -> bool {
        g1_valid(self@) && self@.len() == 48
    }

    /// The multiple of the generator by a scalar.
    pub fn generator_times(s: Scalar) -> (r: G1)
        ensures
            r@ == g1_of(s@),
            forall|k: nat|
                k < order() ==> #[trigger] g1_mul(r@, k) == g1_of((s@ * k) % order()),
    {
        proof {
            use_type_invariant(&s);
        }
        let repr = g1_generate(&s.repr);
        G1 { repr }
    }
}

/// The canonical encoding of an element.
pub fn g1_to_bytes(p: &G1) -> (r: [u8; 48])
    ensures
        r@ == p@,
        g1_valid(r@),
{
    proof {
        use_type_invariant(p);
    }
    p.repr
}

/// The element with the given encoding, if there is one.
pub fn g1_from_bytes(b: &[u8; 48]) -> (r: Option<G1>)
    ensures
        r is Some <==> g1_valid(b@),
        r matches Some(p) ==> p@ == b@,
{
    if g1_is_valid(b) {
        Some(G1 { repr: *b })
    } else {
        None
    }
}

impl Group for G1 {
    type S = Scalar;

    open spec fn enc(self) -> Seq<u8> {
        self@
    }

    open spec fn valid(p: Seq<u8>) -> bool {
        g1_valid(p)
    }

    open spec fn mul_of(p: Seq<u8>, k: nat) -> Seq<u8> {
        g1_mul(p, k)
    }

    open spec fn add_of(p: Seq<u8>, q: Seq<u8>) -> Seq<u8> {
        g1_add(p, q)
    }

    open spec fn zero_enc() -> Seq<u8> {
        g1_zero()
    }

    fn identity() -> (r: G1) {
        let repr = g1_identity();
        G1 { repr }
    }

    fn plus(self, other: G1) -> (r: G1) {
        proof {
            use_type_invariant(&self);
            use_type_invariant(&other);
            assert(<Scalar as Field>::order() == order());
        }
        let repr = g1_sum(&self.repr, &other.repr);
        G1 { repr }
    }

    fn scale(self, s: Scalar) -> (r: G1) {
        proof {
            use_type_invariant(&self);
            use_type_invariant(&s);
            assert(<Scalar as Field>::order() == order() && s.val() == s@);
        }
        let repr = g1_scale(&self.repr, &s.repr);
        G1 { repr }
    }
}

/// Whether `G2Affine::from_compressed` accepts the bytes.
pub uninterp spec fn g2_valid(p: Seq<u8>) -> bool;

/// The encoding of the product of the encoded `G2Projective` and a scalar.
pub uninterp spec fn g2_mul(p: Seq<u8>, k: nat) -> Seq<u8>;

/// The encoding of the sum of two encoded `G2Projective`s.
pub uninterp spec fn g2_add(p: Seq<u8>, q: Seq<u8>) -> Seq<u8>;

/// The encoding of the product of `G2Projective::generator()` and a scalar.
pub uninterp spec fn g2_of(k: nat) -> Seq<u8>;

/// The encoding of the neutral element: the infinity flag and zeros.
pub open spec fn g2_zero() -> Seq<u8> {
    Seq::new(96, |i: int| if i == 0 { 0xc0u8 } else { 0u8 })
}

/// Calls `G2Affine::from_compressed` and reports whether it gave an element.
#[verifier::external_body]
fn g2_is_valid(p: &[u8; 96]) -> (r: bool)
    ensures
        r == g2_valid(p@),
{
    bool::from(G2Affine::from_compressed(p).is_some())
}

/// Calls `G2Projective::identity`: the zeroth multiple of every element.
#[verifier::external_body]
fn g2_identity() -> (r: [u8; 96])
    ensures
        r@ == g2_zero(),
        g2_valid(r@),
        forall|g: Seq<u8>| g2_valid(g) ==> #[trigger] g2_mul(g, 0) == r@,
{
    G2Affine::from(G2Projective::identity()).to_compressed()
}

/// Multiplies `G2Projective::generator()` by a scalar. Multiples of the result are
/// multiples of the generator by the product.
#[verifier::external_body]
fn g2_generate(s: &[u8; 32]) -> (r: [u8; 96])
    requires
        le_nat(s@) < order(),
    ensures
        r@ == g2_of(le_nat(s@)),
        g2_valid(r@),
        forall|k: nat|
            k < order() ==> #[trigger] g2_mul(r@, k) == g2_of((le_nat(s@) * k) % order()),
{
    let k = bls12_381::Scalar::from_bytes(s).unwrap();
    G2Affine::from(G2Projective::generator() * k).to_compressed()
}

/// Adds two elements. The group is cyclic of prime order: multiples of one element
/// add up.
#[verifier::external_body]
fn g2_sum(p: &[u8; 96], q: &[u8; 96]) -> (r: [u8; 96])
    requires
        g2_valid(p@),
        g2_valid(q@),
    ensures
        r@ == g2_add(p@, q@),
        g2_valid(r@),
        forall|g: Seq<u8>, a: nat, b: nat|
            g2_valid(g) && a < order() && b < order() && p@ == #[trigger] g2_mul(g, a) && q@
                == #[trigger] g2_mul(g, b) ==> r@ == g2_mul(g, (a + b) % order()),
{
    let x = G2Projective::from(G2Affine::from_compressed(p).unwrap());
    let y = G2Projective::from(G2Affine::from_compressed(q).unwrap());
    G2Affine::from(x + y).to_compressed()
}

/// Multiplies an element by a scalar. A multiple of a multiple is the multiple by
/// the product modulo the order.
#[verifier::external_body]
fn g2_scale(p: &[u8; 96], s: &[u8; 32]) -> (r: [u8; 96])
    requires
        g2_valid(p@),
        le_nat(s@) < order(),
    ensures
        r@ == g2_mul(p@, le_nat(s@)),
        g2_valid(r@),
        forall|k: nat|
            k < order() ==> #[trigger] g2_mul(r@, k) == g2_mul(p@, (le_nat(s@) * k) % order()),
        forall|g: Seq<u8>, a: nat|
            g2_valid(g) && a < order() && p@ == #[trigger] g2_mul(g, a) ==> r@ == g2_mul(
                g,
                (a * le_nat(s@)) % order(),
            ),
{
    let x = G2Projective::from(G2Affine::from_compressed(p).unwrap());
    let k = bls12_381::Scalar::from_bytes(s).unwrap();
    G2Affine::from(x * k).to_compressed()
}

/// An element of the second group, held by its canonical encoding.
#[derive(Clone, Copy, Debug)]
pub struct G2 {
    repr: [u8; 96],
}

impl View for G2 {
    type V = Seq<u8>;

    closed spec fn view(&self) -> Seq<u8> {
        self.repr@
    }
}

impl G2 {
    #[verifier::type_invariant]
    pub open spec fn on_group(self) -> bool {
        g2_valid(self@) && self@.len() == 96
    }

    /// The multiple of the generator by a scalar.
    pub fn generator_times(s: Scalar) -> (r: G2)
        ensures
            r@ == g2_of(s@),
            forall|k: nat|
                k < order() ==> #[trigger] g2_mul(r@, k) == g2_of((s@ * k) % order()),
    {
        proof {
            use_type_invariant(&s);
        }
        let repr = g2_generate(&s.repr);
        G2 { repr }
    }
}

/// The canonical encoding of an element.
pub fn g2_to_bytes(p: &G2) -> (r: [u8; 96])
    ensures
        r@ == p@,
        g2_valid(r@),
{
    proof {
        use_type_invariant(p);
    }
    p.repr
}

/// The element with the given encoding, if there is one.
pub fn g2_from_bytes(b: &[u8; 96]) -> (r: Option<G2>)
    ensures
        r is Some <==> g2_valid(b@),
        r matches Some(p) ==> p@ == b@,
{
    if g2_is_valid(b) {
        Some(G2 { repr: *b })
    } else {
        None
    }
}

impl Group for G2 {
    type S = Scalar;

    open spec fn enc(self) -> Seq<u8> {
        self@
    }

    open spec fn valid(p: Seq<u8>) -> bool {
        g2_valid(p)
    }

    open spec fn mul_of(p: Seq<u8>, k: nat) -> Seq<u8> {
        g2_mul(p, k)
    }

    open spec fn add_of(p: Seq<u8>, q: Seq<u8>) -> Seq<u8> {
        g2_add(p, q)
    }

    open spec fn zero_enc() -> Seq<u8> {
        g2_zero()
    }

    fn identity() -> (r: G2) {
        let repr = g2_identity();
        G2 { repr }
    }

    fn plus(self, other: G2) -> (r: G2) {
        proof {
            use_type_invariant(&self);
            use_type_invariant(&other);
            assert(<Scalar as Field>::order() == order());
        }
        let repr = g2_sum(&self.repr, &other.repr);
        G2 { repr }
    }

    fn scale(self, s: Scalar) -> (r: G2) {
        proof {
            use_type_invariant(&self);
            use_type_invariant(&s);
            assert(<Scalar as Field>::order() == order() && s.val() == s@);
        }
        let repr = g2_scale(&self.repr, &s.repr);
        G2 { repr }
    }
}

/// Whether `pairing(p1, q1)` and `pairing(p2, q2)` are equal.
pub uninterp spec fn pairings_equal(
    p1: Seq<u8>,
    q1: Seq<u8>,
    p2: Seq<u8>,
    q2: Seq<u8>,
) -> bool;

/// Compares two results of `bls12_381::pairing`. The pairing is bilinear: a scalar
/// moves from one argument to the other.
#[verifier::external_body]
fn same_pairing(p1: &[u8; 48], q1: &[u8; 96], p2: &[u8; 48], q2: &[u8; 96]) -> (r: bool)
    requires
        g1_valid(p1@),
        g2_valid(q1@),
        g1_valid(p2@),
        g2_valid(q2@),
    ensures
        r == pairings_equal(p1@, q1@, p2@, q2@),
        forall|a: nat|
            a < order() && p1@ == #[trigger] g1_mul(p2@, a) && q2@ == #[trigger] g2_mul(q1@, a)
                ==> r,
{
    let a = G1Affine::from_compressed(p1).unwrap();
    let b = G2Affine::from_compressed(q1).unwrap();
    let c = G1Affine::from_compressed(p2).unwrap();
    let d = G2Affine::from_compressed(q2).unwrap();
    bls12_381::pairing(&a, &b) == bls12_381::pairing(&c, &d)
}

/// Whether `sig` pairs with the generator as `h` pairs with `pk`.
pub open spec fn signature_holds(h: Seq<u8>, sig: Seq<u8>, pk: Seq<u8>) -> bool {
    pairings_equal(sig, g2_of(1), h, pk)
}

/// Checks that `lhs_g1` pairs with the generator as `rhs_g1` pairs with `rhs_g2`. The
/// multiples of one element and of the generator by one scalar pass.
pub fn pairing_check_g1_g2(lhs_g1: &G1, rhs_g1: &G1, rhs_g2: &G2) -> (r: bool)
    ensures
        r == signature_holds(rhs_g1@, lhs_g1@, rhs_g2@),
        forall|a: nat|
            a < order() && lhs_g1@ == #[trigger] g1_mul(rhs_g1@, a) && rhs_g2@ == #[trigger] g2_of(
                a,
            ) ==> r,
{
    let one: Scalar = Scalar::of_u64(1);
    let g2: G2 = G2::generator_times(one);
    proof {
        use_type_invariant(lhs_g1);
        use_type_invariant(rhs_g1);
        use_type_invariant(rhs_g2);
        use_type_invariant(&g2);
    }
    let r = same_pairing(&lhs_g1.repr, &g2.repr, &rhs_g1.repr, &rhs_g2.repr);
    proof {
        assert forall|a: nat|
            a < order() && lhs_g1@ == #[trigger] g1_mul(rhs_g1@, a) && rhs_g2@ == #[trigger] g2_of(
                a,
            ) implies r by {
            vstd::arithmetic::div_mod::lemma_small_mod(a, order());
            assert(1 * a == a);
            assert(g2_mul(g2@, a) == g2_of(a));
        }
    }
    r
}

/// Checks the signature `sig` on the hashed message `h` under the public key `pk`. The
/// multiple of `h` by the secret key passes.
pub fn pairing_check_sig(h: &G1, sig: &G1, pk: &G2) -> (r: bool)
    ensures
        r == signature_holds(h@, sig@, pk@),
        forall|a: nat|
            a < order() && sig@ == #[trigger] g1_mul(h@, a) && pk@ == #[trigger] g2_of(a) ==> r,
{
    pairing_check_g1_g2(sig, h, pk)
}

} // verus!
