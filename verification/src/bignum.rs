//! Natural numbers and integers of any size.
use num_bigint::{BigInt, BigUint, RandBigInt, Sign};
use num_integer::Integer;
use rand_core::SeedableRng;
use vstd::arithmetic::power::{lemma_pow_increases, lemma_pow_multiplies, pow};
use vstd::arithmetic::power2::{lemma2_to64, lemma_pow2, lemma_pow2_adds, lemma_pow2_pos, pow2};
use vstd::prelude::*;

use crate::bytes::{self, same_bytes};
use crate::rng::{Rng, RngState, PERIOD_WORDS};

verus! {

/// The number that `s` encodes in base 256, most significant byte first.
pub open spec fn be_nat(s: Seq<u8>) -> nat
    decreases s.len(),
{
    if s.len() == 0 {
        0
    } else {
        be_nat(s.drop_last()) * 256 + s.last() as nat
    }
}

/// The shortest encoding of a number, of at least one byte, most significant byte first.
pub open spec fn be_bytes(n: nat) -> Seq<u8>
    decreases n,
{
    if n < 256 {
        seq![n as u8]
    } else {
        be_bytes(n / 256).push((n % 256) as u8)
    }
}

/// Encoding is undone by decoding.
pub proof fn lemma_be_nat_of_be_bytes(n: nat)
    ensures
        be_nat(be_bytes(n)) == n,
        be_bytes(n).len() >= 1,
    decreases n,
{
    let b = be_bytes(n);
    if n < 256 {
        assert(b.drop_last() =~= Seq::<u8>::empty());
        assert(be_nat(b.drop_last()) == 0);
    } else {
        lemma_be_nat_of_be_bytes(n / 256);
        assert(b.drop_last() =~= be_bytes(n / 256));
        vstd::arithmetic::div_mod::lemma_fundamental_div_mod(n as int, 256);
    }
}

/// A number whose first byte is not zero is at least the power of its length less one.
pub proof fn lemma_be_nat_lower(s: Seq<u8>)
    requires
        s.len() >= 1,
        s[0] > 0,
    ensures
        be_nat(s) >= pow(256, (s.len() - 1) as nat),
    decreases s.len(),
{
    reveal(pow);
    let front = s.drop_last();
    if s.len() == 1 {
        assert(front.len() == 0);
        assert(be_nat(front) == 0);
    } else {
        lemma_be_nat_lower(front);
        assert(pow(256, (s.len() - 1) as nat) == 256 * pow(256, (s.len() - 2) as nat));
    }
}

/// A number is below the power of its length.
pub proof fn lemma_be_nat_upper(s: Seq<u8>)
    ensures
        be_nat(s) < pow(256, s.len()),
    decreases s.len(),
{
    reveal(pow);
    if s.len() > 0 {
        lemma_be_nat_upper(s.drop_last());
    }
}

/// Leading zeros do not count.
pub proof fn lemma_be_nat_leading_zeros(zeros: Seq<u8>, s: Seq<u8>)
    requires
        forall|i: int| 0 <= i < zeros.len() ==> zeros[i] == 0,
    ensures
        be_nat(zeros + s) == be_nat(s),
    decreases s.len(),
{
    if s.len() == 0 {
        assert(zeros + s =~= zeros);
        lemma_be_nat_zeros(zeros);
    } else {
        assert((zeros + s).drop_last() =~= zeros + s.drop_last());
        lemma_be_nat_leading_zeros(zeros, s.drop_last());
    }
}

proof fn lemma_be_nat_zeros(s: Seq<u8>)
    requires
        forall|i: int| 0 <= i < s.len() ==> s[i] == 0,
    ensures
        be_nat(s) == 0,
    decreases s.len(),
{
    if s.len() > 0 {
        lemma_be_nat_zeros(s.drop_last());
    }
}

/// The shortest encoding starts with a nonzero byte, unless it is that of zero.
pub proof fn lemma_be_bytes_first(n: nat)
    requires
        n > 0,
    ensures
        be_bytes(n)[0] > 0,
    decreases n,
{
    if n >= 256 {
        lemma_be_bytes_first(n / 256);
        lemma_be_nat_of_be_bytes(n / 256);
    }
}

/// The first byte bounds a number by its multiples of the power of the length less one.
pub proof fn lemma_first_byte_counts(s: Seq<u8>)
    requires
        s.len() >= 1,
    ensures
        s[0] as int * pow(256, (s.len() - 1) as nat) <= be_nat(s),
        be_nat(s) < (s[0] + 1) * pow(256, (s.len() - 1) as nat),
    decreases s.len(),
{
    reveal(pow);
    let front = s.drop_last();
    let f = s[0] as int;
    if s.len() == 1 {
        assert(be_nat(front) == 0);
        assert(f * 1 == f);
        assert((f + 1) * 1 == f + 1);
    } else {
        lemma_first_byte_counts(front);
        let a = pow(256, (s.len() - 2) as nat);
        assert((f * a) * 256 == f * (256 * a)) by (nonlinear_arith);
        assert(((f + 1) * a) * 256 == (f + 1) * (256 * a)) by (nonlinear_arith);
    }
}

/// A power of a byte's range is a power of two.
pub proof fn lemma_byte_powers(k: nat)
    ensures
        pow(256, k) == pow2(8 * k),
{
    lemma2_to64();
    lemma_pow2(8);
    lemma_pow2(8 * k);
    lemma_pow_multiplies(2, 8, k);
}

/// A number whose highest bit is the first of `k` bytes is one whose shortest encoding has
/// that many and starts with a byte from 128 on.
proof fn lemma_fills_bytes(n: nat, k: nat)
    requires
        k >= 1,
    ensures
        (pow2((8 * k - 1) as nat) <= n < pow2(8 * k)) <==> be_bytes(n).len() == k && be_bytes(n)[0]
            >= 128,
{
    let s = be_bytes(n);
    let k1 = (k - 1) as nat;
    lemma_be_nat_of_be_bytes(n);
    lemma_first_byte_counts(s);
    lemma2_to64();
    lemma_byte_powers(k1);
    lemma_byte_powers(k);
    lemma_pow2_adds(8 * k1, 7);
    lemma_pow2_adds(8 * k1, 8);
    let a = pow(256, k1);
    lemma_pow2_pos(8 * k1);
    if s.len() == k {
        let f = s[0] as int;
        if f >= 128 {
            assert(f * a >= 128 * a && (f + 1) * a <= 256 * a) by (nonlinear_arith)
                requires
                    128 <= f <= 255,
                    a > 0,
            ;
        } else {
            assert((f + 1) * a <= 128 * a) by (nonlinear_arith)
                requires
                    f < 128,
                    a > 0,
            ;
        }
    } else if s.len() < k {
        lemma_be_nat_upper(s);
        lemma_pow_increases(256, s.len(), k1);
    } else {
        assert(n > 0);
        lemma_be_bytes_first(n);
        lemma_be_nat_lower(s);
        lemma_pow_increases(256, k, (s.len() - 1) as nat);
    }
}

/// Adds two numbers, given and returned in big-endian bytes, with `BigUint`.
#[verifier::external_body]
fn nat_add(a: &[u8], b: &[u8]) -> (r: Vec<u8>)
    ensures
        r@ == be_bytes(be_nat(a@) + be_nat(b@)),
{
    (BigUint::from_bytes_be(a) + BigUint::from_bytes_be(b)).to_bytes_be()
}

/// Subtracts a number from one that is not smaller with `BigUint`.
#[verifier::external_body]
fn nat_sub(a: &[u8], b: &[u8]) -> (r: Vec<u8>)
    requires
        be_nat(a@) >= be_nat(b@),
    ensures
        r@ == be_bytes((be_nat(a@) - be_nat(b@)) as nat),
{
    (BigUint::from_bytes_be(a) - BigUint::from_bytes_be(b)).to_bytes_be()
}

/// Multiplies two numbers with `BigUint`.
#[verifier::external_body]
fn nat_mul(a: &[u8], b: &[u8]) -> (r: Vec<u8>)
    ensures
        r@ == be_bytes(be_nat(a@) * be_nat(b@)),
{
    (BigUint::from_bytes_be(a) * BigUint::from_bytes_be(b)).to_bytes_be()
}

/// The remainder of a division with `BigUint`.
#[verifier::external_body]
fn nat_rem(a: &[u8], b: &[u8]) -> (r: Vec<u8>)
    requires
        be_nat(b@) > 0,
    ensures
        r@ == be_bytes(be_nat(a@) % be_nat(b@)),
{
    (BigUint::from_bytes_be(a) % BigUint::from_bytes_be(b)).to_bytes_be()
}

/// Shifts a number right by one bit with `BigUint`: half of it, rounded down.
#[verifier::external_body]
fn nat_half(a: &[u8]) -> (r: Vec<u8>)
    ensures
        r@ == be_bytes(be_nat(a@) / 2),
{
    (BigUint::from_bytes_be(a) >> 1usize).to_bytes_be()
}

/// Calls `BigUint::modpow`: the power modulo a number.
#[verifier::external_body]
fn nat_modpow(base: &[u8], exp: &[u8], modulus: &[u8]) -> (r: Vec<u8>)
    requires
        be_nat(modulus@) > 0,
    ensures
        r@ == be_bytes(
            (pow(be_nat(base@) as int, be_nat(exp@)) % (be_nat(modulus@) as int)) as nat,
        ),
{
    let m = BigUint::from_bytes_be(modulus);
    BigUint::from_bytes_be(base).modpow(&BigUint::from_bytes_be(exp), &m).to_bytes_be()
}

/// Calls `BigUint::from` on a 64-bit number.
#[verifier::external_body]
fn nat_of_u64(x: u64) -> (r: Vec<u8>)
    ensures
        r@ == be_bytes(x as nat),
{
    BigUint::from(x).to_bytes_be()
}

/// Calls `BigUint::from_bytes_be` and `BigUint::to_bytes_be`: the shortest encoding of
/// the number that the bytes encode.
#[verifier::external_body]
fn nat_trim(b: &[u8]) -> (r: Vec<u8>)
    ensures
        r@ == be_bytes(be_nat(b@)),
{
    BigUint::from_bytes_be(b).to_bytes_be()
}

/// The number below `bound` that `RandBigInt::gen_biguint_below` draws from the ChaCha20
/// stream of `seed` at word `pos`, and the word at which the stream then stands.
pub uninterp spec fn biguint_below(seed: Seq<u8>, pos: nat, bound: nat) -> (nat, nat);

/// Calls `RandBigInt::gen_biguint_below` on a `ChaCha20Rng` at a word of its stream.
#[verifier::external_body]
fn nat_below(seed: &[u8; 32], pos: u128, bound: &[u8]) -> (r: (Vec<u8>, u128))
    requires
        pos < PERIOD_WORDS,
        be_nat(bound@) > 0,
    ensures
        r.0@ == be_bytes(biguint_below(seed@, pos as nat, be_nat(bound@)).0),
        r.1 == biguint_below(seed@, pos as nat, be_nat(bound@)).1,
        be_nat(r.0@) < be_nat(bound@),
        r.1 < PERIOD_WORDS,
{
    let mut generator = rand_chacha::ChaCha20Rng::from_seed(*seed);
    generator.set_word_pos(pos);
    let n = generator.gen_biguint_below(&BigUint::from_bytes_be(bound));
    (n.to_bytes_be(), generator.get_word_pos())
}

/// A natural number.
#[derive(Debug)]
pub struct Nat {
    repr: Vec<u8>,
}

impl View for Nat {
    type V = nat;

    closed spec fn view(&self) -> nat {
        be_nat(self.repr@)
    }
}

impl Nat {
    #[verifier::type_invariant]
    closed spec fn shortest(self) -> bool {
        self.repr@ == be_bytes(be_nat(self.repr@))
    }

    fn wrap(repr: Vec<u8>, Ghost(n): Ghost<nat>) -> (r: Nat)
        requires
            repr@ == be_bytes(n),
        ensures
            r@ == n,
    {
        proof {
            lemma_be_nat_of_be_bytes(n);
        }
        Nat { repr }
    }

    /// The number with the given value.
    pub fn from_u64(x: u64) -> (r: Nat)
        ensures
            r@ == x,
    {
        Nat::wrap(nat_of_u64(x), Ghost(x as nat))
    }

    /// The number with the given big-endian bytes.
    pub fn from_bytes_be(b: &[u8]) -> (r: Nat)
        ensures
            r@ == be_nat(b@),
    {
        Nat::wrap(nat_trim(b), Ghost(be_nat(b@)))
    }

    /// The shortest big-endian encoding, of at least one byte.
    pub fn to_bytes_be(&self) -> (r: Vec<u8>)
        ensures
            r@ == be_bytes(self@),
            be_nat(r@) == self@,
    {
        proof {
            use_type_invariant(self);
        }
        bytes::copy_bytes(self.repr.as_slice())
    }

    /// A copy of the number.
    pub fn copy(&self) -> (r: Nat)
        ensures
            r@ == self@,
    {
        proof {
            use_type_invariant(self);
        }
        Nat { repr: bytes::copy_bytes(self.repr.as_slice()) }
    }

    /// Whether the numbers are equal.
    pub fn same(&self, other: &Nat) -> (r: bool)
        ensures
            r == (self@ == other@),
    {
        proof {
            use_type_invariant(self);
            use_type_invariant(other);
        }
        same_bytes(self.repr.as_slice(), other.repr.as_slice())
    }

    /// Whether the number is zero.
    pub fn is_zero(&self) -> (r: bool)
        ensures
            r == (self@ == 0),
    {
        let zero = Nat::from_u64(0);
        self.same(&zero)
    }

    /// Whether the highest bit of the number is the first of `bytes` bytes.
    pub fn fills_bytes(&self, bytes: usize) -> (r: bool)
        requires
            bytes >= 1,
        ensures
            r == (pow2((8 * bytes - 1) as nat) <= self@ < pow2(8 * bytes as nat)),
    {
        let b = self.to_bytes_be();
        proof {
            lemma_fills_bytes(self@, bytes as nat);
        }
        b.len() == bytes && b[0] >= 128
    }

    /// The number of bytes that the number takes; none for zero.
    pub fn byte_len(&self) -> (r: usize)
        ensures
            r == bytes_needed(self@),
    {
        proof {
            use_type_invariant(self);
        }
        if self.is_zero() {
            0
        } else {
            self.repr.len()
        }
    }

    /// The sum.
    pub fn plus(&self, other: &Nat) -> (r: Nat)
        ensures
            r@ == self@ + other@,
    {
        Nat::wrap(
            nat_add(self.repr.as_slice(), other.repr.as_slice()),
            Ghost((self@ + other@) as nat),
        )
    }

    /// The difference of a number and a smaller or equal one.
    pub fn minus(&self, other: &Nat) -> (r: Nat)
        requires
            self@ >= other@,
        ensures
            r@ == self@ - other@,
    {
        Nat::wrap(
            nat_sub(self.repr.as_slice(), other.repr.as_slice()),
            Ghost((self@ - other@) as nat),
        )
    }

    /// The product.
    pub fn times(&self, other: &Nat) -> (r: Nat)
        ensures
            r@ == self@ * other@,
    {
        Nat::wrap(
            nat_mul(self.repr.as_slice(), other.repr.as_slice()),
            Ghost((self@ * other@) as nat),
        )
    }

    /// The remainder modulo a positive number.
    pub fn modulo(&self, m: &Nat) -> (r: Nat)
        requires
            m@ > 0,
        ensures
            r@ == self@ % m@,
            r@ < m@,
    {
        Nat::wrap(nat_rem(self.repr.as_slice(), m.repr.as_slice()), Ghost((self@ % m@) as nat))
    }

    /// Half of the number, rounded down.
    pub fn half(&self) -> (r: Nat)
        ensures
            r@ == self@ / 2,
    {
        Nat::wrap(nat_half(self.repr.as_slice()), Ghost((self@ / 2) as nat))
    }

    /// The power modulo a positive number.
    pub fn modpow(&self, exp: &Nat, m: &Nat) -> (r: Nat)
        requires
            m@ > 0,
        ensures
            r@ == pow(self@ as int, exp@) % (m@ as int),
            r@ < m@,
    {
        let ghost v = pow(self@ as int, exp@) % (m@ as int);
        proof {
            vstd::arithmetic::div_mod::lemma_mod_bound(pow(self@ as int, exp@), m@ as int);
        }
        Nat::wrap(
            nat_modpow(self.repr.as_slice(), exp.repr.as_slice(), m.repr.as_slice()),
            Ghost(v as nat),
        )
    }

    /// Draws a number below a positive bound.
    pub fn random_below(bound: &Nat, rng: &mut Rng) -> (r: Nat)
        requires
            bound@ > 0,
        ensures
            r@ == below_drawn(old(rng)@, bound@).0,
            final(rng)@ == below_drawn(old(rng)@, bound@).1,
            r@ < bound@,
    {
        let (seed, pos) = rng.place();
        let (repr, after) = nat_below(&seed, pos, bound.repr.as_slice());
        rng.move_to(after);
        proof {
            lemma_be_nat_of_be_bytes(biguint_below(seed@, pos as nat, bound@).0);
        }
        Nat::wrap(repr, Ghost(biguint_below(seed@, pos as nat, bound@).0))
    }
}

/// The number of bytes that a number takes; none for zero.
pub open spec fn bytes_needed(n: nat) -> nat {
    if n == 0 {
        0
    } else {
        be_bytes(n).len()
    }
}

/// A number below `bound` from a stream, and the stream afterwards.
pub open spec fn below_drawn(rng: RngState, bound: nat) -> (nat, RngState) {
    let (n, pos) = biguint_below(rng.seed, rng.pos, bound);
    (n, RngState { seed: rng.seed, pos })
}

/// An integer: a sign and a magnitude.
#[derive(Debug)]
pub struct Int {
    neg: bool,
    mag: Vec<u8>,
}

/// The integer with a sign and the big-endian bytes of a magnitude.
pub open spec fn signed(neg: bool, mag: Seq<u8>) -> int {
    if neg {
        -(be_nat(mag) as int)
    } else {
        be_nat(mag) as int
    }
}

impl View for Int {
    type V = int;

    closed spec fn view(&self) -> int {
        signed(self.neg, self.mag@)
    }
}

/// The integer quotient rounded toward zero.
pub open spec fn quotient(a: int, b: int) -> int {
    if a >= 0 {
        if b > 0 {
            a / b
        } else {
            -(a / (-b))
        }
    } else {
        if b > 0 {
            -((-a) / b)
        } else {
            (-a) / (-b)
        }
    }
}

/// Multiplies two integers, given by sign and magnitude, with `BigInt`.
#[verifier::external_body]
fn int_mul(an: bool, am: &[u8], bn: bool, bm: &[u8]) -> (r: (bool, Vec<u8>))
    ensures
        signed(r.0, r.1@) == signed(an, am@) * signed(bn, bm@),
{
    let a = BigInt::from_bytes_be(if an { Sign::Minus } else { Sign::Plus }, am);
    let b = BigInt::from_bytes_be(if bn { Sign::Minus } else { Sign::Plus }, bm);
    let (sign, mag) = (a * b).to_bytes_be();
    (sign == Sign::Minus, mag)
}

/// Subtracts an integer from another with `BigInt`.
#[verifier::external_body]
fn int_sub(an: bool, am: &[u8], bn: bool, bm: &[u8]) -> (r: (bool, Vec<u8>))
    ensures
        signed(r.0, r.1@) == signed(an, am@) - signed(bn, bm@),
{
    let a = BigInt::from_bytes_be(if an { Sign::Minus } else { Sign::Plus }, am);
    let b = BigInt::from_bytes_be(if bn { Sign::Minus } else { Sign::Plus }, bm);
    let (sign, mag) = (a - b).to_bytes_be();
    (sign == Sign::Minus, mag)
}

/// Divides an integer by another with `BigInt`, rounding toward zero.
#[verifier::external_body]
fn int_div(an: bool, am: &[u8], bn: bool, bm: &[u8]) -> (r: (bool, Vec<u8>))
    requires
        signed(bn, bm@) != 0,
    ensures
        signed(r.0, r.1@) == quotient(signed(an, am@), signed(bn, bm@)),
{
    let a = BigInt::from_bytes_be(if an { Sign::Minus } else { Sign::Plus }, am);
    let b = BigInt::from_bytes_be(if bn { Sign::Minus } else { Sign::Plus }, bm);
    let (sign, mag) = (a / b).to_bytes_be();
    (sign == Sign::Minus, mag)
}

/// Calls `Integer::mod_floor` of `BigInt` with a positive modulus.
#[verifier::external_body]
fn int_mod(an: bool, am: &[u8], m: &[u8]) -> (r: Vec<u8>)
    requires
        be_nat(m@) > 0,
    ensures
        r@ == be_bytes((signed(an, am@) % (be_nat(m@) as int)) as nat),
{
    let a = BigInt::from_bytes_be(if an { Sign::Minus } else { Sign::Plus }, am);
    let b = BigInt::from_bytes_be(Sign::Plus, m);
    a.mod_floor(&b).to_bytes_be().1
}

/// A nonnegative common divisor of two numbers.
pub open spec fn divides_both(g: int, a: int, b: int) -> bool {
    &&& g >= 0
    &&& exists|k: int| #[trigger] (g * k) == a
    &&& exists|k: int| #[trigger] (g * k) == b
}

/// Calls `Integer::extended_gcd` of `BigInt`: a common divisor of both arguments, and
/// factors with which the arguments combine to it.
#[verifier::external_body]
fn int_extended_gcd(an: bool, am: &[u8], m: &[u8]) -> (r: (Vec<u8>, (bool, Vec<u8>)))
    requires
        be_nat(m@) > 0,
    ensures
        divides_both(be_nat(r.0@) as int, signed(an, am@), be_nat(m@) as int),
        exists|y: int| #[trigger]
            bezout(
                signed(an, am@),
                signed(r.1.0, r.1.1@),
                be_nat(m@) as int,
                y,
                be_nat(r.0@) as int,
            ),
{
    let a = BigInt::from_bytes_be(if an { Sign::Minus } else { Sign::Plus }, am);
    let e = a.extended_gcd(&BigInt::from_bytes_be(Sign::Plus, m));
    let (sign, x) = e.x.to_bytes_be();
    (e.gcd.to_bytes_be().1, (sign == Sign::Minus, x))
}

impl Int {
    /// A natural number as an integer.
    pub fn from_nat(n: &Nat) -> (r: Int)
        ensures
            r@ == n@,
    {
        Int { neg: false, mag: bytes::copy_bytes(n.repr.as_slice()) }
    }

    /// The integer with the given value.
    pub fn from_u64(x: u64) -> (r: Int)
        ensures
            r@ == x,
    {
        let n = Nat::from_u64(x);
        Int::from_nat(&n)
    }

    /// Whether the integer is below zero.
    pub fn is_negative(&self) -> (r: bool)
        ensures
            r == (self@ < 0),
    {
        let m = self.abs();
        self.neg && !m.is_zero()
    }

    /// The absolute value.
    pub fn abs(&self) -> (r: Nat)
        ensures
            r@ == if self@ < 0 {
                -self@
            } else {
                self@
            },
    {
        Nat::from_bytes_be(self.mag.as_slice())
    }

    /// The product.
    pub fn times(&self, other: &Int) -> (r: Int)
        ensures
            r@ == self@ * other@,
    {
        let (neg, mag) = int_mul(self.neg, self.mag.as_slice(), other.neg, other.mag.as_slice());
        Int { neg, mag }
    }

    /// The difference.
    pub fn minus(&self, other: &Int) -> (r: Int)
        ensures
            r@ == self@ - other@,
    {
        let (neg, mag) = int_sub(self.neg, self.mag.as_slice(), other.neg, other.mag.as_slice());
        Int { neg, mag }
    }

    /// The quotient by a nonzero integer, rounded toward zero.
    pub fn over(&self, other: &Int) -> (r: Int)
        requires
            other@ != 0,
        ensures
            r@ == quotient(self@, other@),
    {
        let (neg, mag) = int_div(self.neg, self.mag.as_slice(), other.neg, other.mag.as_slice());
        Int { neg, mag }
    }

    /// The remainder modulo a positive number.
    pub fn modulo(&self, m: &Nat) -> (r: Nat)
        requires
            m@ > 0,
        ensures
            r@ == self@ % (m@ as int),
            r@ < m@,
    {
        proof {
            vstd::arithmetic::div_mod::lemma_mod_bound(self@, m@ as int);
        }
        Nat::wrap(
            int_mod(self.neg, self.mag.as_slice(), m.repr.as_slice()),
            Ghost((self@ % (m@ as int)) as nat),
        )
    }

    /// A common divisor of the integer and a positive number, and the factor of the
    /// integer in a combination of both to that divisor.
    pub fn extended_gcd(&self, m: &Nat) -> (r: (Nat, Int))
        requires
            m@ > 0,
        ensures
            divides_both(r.0@ as int, self@, m@ as int),
            exists|y: int| #[trigger] bezout(self@, r.1@, m@ as int, y, r.0@ as int),
    {
        let (g, (neg, mag)) = int_extended_gcd(self.neg, self.mag.as_slice(), m.repr.as_slice());
        let ghost xv = signed(neg, mag@);
        let ghost y = choose|y: int| #[trigger]
            bezout(signed(self.neg, self.mag@), xv, be_nat(m.repr@) as int, y, be_nat(g@) as int);
        let gn = Nat::from_bytes_be(g.as_slice());
        let r = (gn, Int { neg, mag });
        assert(bezout(self@, r.1@, m@ as int, y, r.0@ as int));
        r
    }
}

/// `a * x + m * y` is `g`.
pub open spec fn bezout(a: int, x: int, m: int, y: int, g: int) -> bool {
    a * x + m * y == g
}

} // verus!
