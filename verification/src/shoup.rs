//! Shoup's threshold RSA signatures.
use openssl::bn::BigNum;
use vstd::arithmetic::power::pow;
use vstd::arithmetic::power2::{
    lemma2_to64, lemma_pow2_adds, lemma_pow2_strictly_increases, pow2,
};
use vstd::prelude::*;

use crate::bignum::{be_nat, below_drawn, quotient, Int, Nat};
use crate::bytes::push_bytes;
use crate::field::distinct;
use crate::interpolation::eval;
use crate::number_theory::{coprime, is_prime};
use crate::paper_hash::{sha256, sha256_digest};
use crate::paper_law::any_threshold_signs;
use crate::paper_math::{
    clears, eval_poly_mod, fact, factorial, invertible, is_inverse, is_lambda, is_signed_power,
    lemma_distance_nonzero, lemma_one_inverse, modinv_u, modpow_signed, nat_vals, shoup_lambda,
};
use crate::rng::{Rng, RngState};
use crate::text::{append, copy_text};

verus! {

/// Errors that OpenSSL reports.
#[verifier::external_type_specification]
#[verifier::external_body]
pub struct ExErrorStack(openssl::error::ErrorStack);

/// Calls `BigNum::generate_prime` for a prime of at least `bits` bits; for a safe prime `p`
/// that makes `(p - 1) / 2` prime too, and so odd. That the numbers are prime is not claimed
/// here, since the generator's tests are probabilistic.
#[verifier::external_body]
fn openssl_prime(bits: i32, safe: bool) -> (r: Result<Vec<u8>, openssl::error::ErrorStack>)
    requires
        bits >= 4,
    ensures
        r matches Ok(p) ==> be_nat(p@) % 2 == 1 && pow2((bits - 1) as nat) <= be_nat(p@),
        r matches Ok(p) ==> safe ==> be_nat(p@) % 4 == 3,
{
    let mut p = BigNum::new()?;
    p.generate_prime(bits, safe, None, None)?;
    Ok(p.to_vec())
}

/// The text of an OpenSSL error, as its `Display` writes it.
#[verifier::external_body]
fn openssl_error_text(e: &openssl::error::ErrorStack) -> (r: String) {
    e.to_string()
}

/// Why an operation of the RSA-based scheme failed.
#[derive(Debug)]
pub enum CryptoError {
    InvalidThreshold,
    NoInverse,
    InvalidRepresentative,
    OpenSsl(String),
    /// No key was found in as many tries as can be counted.
    NoKey,
    /// The generator yielded only zeros.
    NoBlinding,
}

/// The message for an error.
pub open spec fn crypto_text(e: CryptoError) -> Seq<char> {
    match e {
        CryptoError::InvalidThreshold => "invalid threshold parameters"@,
        CryptoError::NoInverse => "modular inverse does not exist"@,
        CryptoError::InvalidRepresentative => "invalid RSA representative"@,
        CryptoError::OpenSsl(s) => "OpenSSL error: "@ + s@,
        CryptoError::NoKey => "no key was found"@,
        CryptoError::NoBlinding => "no blinding factor was found"@,
    }
}

impl CryptoError {
    /// The message for the error.
    pub fn message(&self) -> (r: String)
        ensures
            r@ == crypto_text(*self),
    {
        match self {
            CryptoError::InvalidThreshold => copy_text("invalid threshold parameters"),
            CryptoError::NoInverse => copy_text("modular inverse does not exist"),
            CryptoError::InvalidRepresentative => copy_text("invalid RSA representative"),
            CryptoError::OpenSsl(s) => {
                let mut r = copy_text("OpenSSL error: ");
                append(&mut r, s.as_str());
                r
            },
            CryptoError::NoKey => copy_text("no key was found"),
            CryptoError::NoBlinding => copy_text("no blinding factor was found"),
        }
    }
}

/// The public key: modulus, exponent, and the factorial of the number of servers.
#[derive(Debug)]
pub struct ShoupPublicKey {
    pub n: Nat,
    pub e: Nat,
    pub delta: Nat,
}

/// A server's share of the signing exponent.
#[derive(Debug)]
pub struct ShoupShare {
    pub id: u32,
    pub s_i: Nat,
}

/// A public key with all shares.
#[derive(Debug)]
pub struct ShoupSetup {
    pub public: ShoupPublicKey,
    pub shares: Vec<ShoupShare>,
}

/// A server's partial signature.
#[derive(Debug)]
pub struct ShoupPartial {
    pub id: u32,
    pub value: Nat,
}

impl ShoupShare {
    /// A copy of the share.
    pub fn copy(&self) -> (r: ShoupShare)
        ensures
            r.id == self.id,
            r.s_i@ == self.s_i@,
    {
        ShoupShare { id: self.id, s_i: self.s_i.copy() }
    }
}

/// The numbers drawn below a bound.
pub open spec fn drawn_below(rng: RngState, k: nat, bound: nat) -> Seq<int>
    decreases k,
{
    if k == 0 {
        Seq::empty()
    } else {
        drawn_below(rng, (k - 1) as nat, bound).push(
            below_drawn(after_below(rng, (k - 1) as nat, bound), bound).0 as int,
        )
    }
}

/// The generator after numbers below a bound were drawn.
pub open spec fn after_below(rng: RngState, k: nat, bound: nat) -> RngState
    decreases k,
{
    if k == 0 {
        rng
    } else {
        below_drawn(after_below(rng, (k - 1) as nat, bound), bound).1
    }
}

pub proof fn lemma_drawn_below_len(rng: RngState, k: nat, bound: nat)
    ensures
        drawn_below(rng, k, bound).len() == k,
    decreases k,
{
    if k > 0 {
        lemma_drawn_below_len(rng, (k - 1) as nat, bound);
    }
}

/// Draws numbers below a bound and appends them.
pub(crate) fn push_draws(out: &mut Vec<Nat>, count: usize, bound: &Nat, rng: &mut Rng)
    requires
        bound@ > 0,
    ensures
        nat_vals(final(out)@) == nat_vals(old(out)@) + drawn_below(
            old(rng)@,
            count as nat,
            bound@,
        ),
        final(rng)@ == after_below(old(rng)@, count as nat, bound@),
{
    let ghost first = nat_vals(out@);
    let ghost r0 = rng@;
    let mut k: usize = 0;
    assert(nat_vals(out@) =~= first + drawn_below(r0, 0, bound@));
    while k < count
        invariant
            k <= count,
            bound@ > 0,
            nat_vals(out@) == first + drawn_below(r0, k as nat, bound@),
            rng@ == after_below(r0, k as nat, bound@),
        decreases count - k,
    {
        let ghost before = out@;
        let c = Nat::random_below(bound, rng);
        out.push(c);
        proof {
            assert(nat_vals(out@) =~= nat_vals(before).push(c@ as int));
            assert(nat_vals(out@) =~= first + drawn_below(r0, (k + 1) as nat, bound@));
        }
        k = k + 1;
    }
}

/// The number modulo which exponents are shared, for the primes `p` and `q`.
pub open spec fn exponent_modulus(p: nat, q: nat) -> nat {
    ((p - 1) as nat / 2) * ((q - 1) as nat / 2)
}

/// The polynomial that shares the signing exponent: the inverse of the public exponent
/// modulo `m`, then drawn numbers.
pub open spec fn exponent_poly(m: nat, threshold: nat, rng: RngState) -> Seq<int> {
    seq![inverse_mod(65537, m as int)] + drawn_below(rng, (threshold - 1) as nat, m)
}

impl ShoupSetup {
    /// The setup is that of the primes `p` and `q`, and shares the inverse of the public
    /// exponent on the polynomial `c`.
    pub open spec fn made_from(self, n_servers: nat, p: nat, q: nat, c: Seq<int>) -> bool {
        let m = exponent_modulus(p, q);
        &&& m > 0
        &&& self.public.n@ == p * q
        &&& self.public.e@ == 65537
        &&& self.public.delta@ == fact(n_servers)
        &&& c.len() > 0
        &&& is_inverse(65537, c[0], m as int)
        &&& self.shares@.len() == n_servers
        &&& forall|i: int|
            0 <= i < n_servers ==> (#[trigger] self.shares@[i]).id == (i + 1) as u32
                && self.shares@[i].s_i@ == eval(c, i + 1) % (m as int)
    }
}

impl ShoupSetup {
    /// The setup is that of the two different numbers `p` and `q` of 1024 bits, each one more
    /// than twice an odd number, their product has 2048 bits, and `threshold` shares determine the signing
    /// exponent. The generator `rng` gave the shares and then stands at `after`.
    pub open spec fn sound_from(
        self,
        n_servers: nat,
        threshold: nat,
        rng: RngState,
        after: RngState,
        p: nat,
        q: nat,
    ) -> bool {
        let m = exponent_modulus(p, q);
        &&& self.made_from(n_servers, p, q, exponent_poly(m, threshold, rng))
        &&& p != q
        &&& pow2(1023) <= p < pow2(1024)
        &&& pow2(1023) <= q < pow2(1024)
        &&& pow2(2047) <= self.public.n@ < pow2(2048)
        &&& p % 4 == 3
        &&& q % 4 == 3
        &&& after == after_below(rng, (threshold - 1) as nat, m)
    }

    /// The setup is sound from some two numbers; and where they are primes, and there are
    /// fewer servers than the public exponent says, any `threshold` of the shares sign.
    pub open spec fn sound(
        self,
        n_servers: nat,
        threshold: nat,
        rng: RngState,
        after: RngState,
    ) -> bool {
        exists|p: nat, q: nat|
            {
                &&& #[trigger] self.sound_from(n_servers, threshold, rng, after, p, q)
                &&& is_prime(p as int) && is_prime(q as int) && n_servers < 65537
                    ==> self.any_shares_sign(threshold)
            }
    }

    /// The partial signatures of the servers `ids`.
    pub open spec fn partials(self, ids: Seq<u32>, rep: nat) -> Seq<int> {
        Seq::new(
            ids.len(),
            |k: int|
                partial_value(
                    rep,
                    self.public.delta@,
                    self.shares@[ids[k] - 1].s_i@,
                    self.public.n@,
                ) as int,
        )
    }

    /// Of every number below the modulus without a common divisor with it, the partial
    /// signatures of any `threshold` different servers combine to a signature that verifies.
    pub open spec fn any_shares_sign(self, threshold: nat) -> bool {
        let pk = self.public;
        forall|ids: Seq<u32>, rep: nat|
            distinct(ids) && (forall|k: int|
                0 <= k < ids.len() ==> 1 <= #[trigger] ids[k] <= self.shares@.len()) && ids.len()
                >= threshold && rep < pk.n@ && coprime(rep as int, pk.n@ as int) ==> (
            combined_signature(
                pk.n@ as int,
                pk.e@ as int,
                pk.delta@ as int,
                rep as int,
                ids,
                #[trigger] self.partials(ids, rep),
            ) matches Some(y) && 0 <= y < pk.n@ && pow(y, pk.e@) % (pk.n@ as int) == rep)
    }
}

/// Makes a setup from two primes, unless the public exponent has no inverse. Where they are
/// primes, any `threshold` of the shares sign.
pub fn shoup_setup_from_primes(
    n_servers: usize,
    threshold: usize,
    p: &Nat,
    q: &Nat,
    rng: &mut Rng,
) -> (r: Option<ShoupSetup>)
    requires
        1 <= threshold <= n_servers,
        p@ >= 3,
        q@ >= 3,
    ensures
        r is Some <==> invertible(65537, exponent_modulus(p@, q@) as int),
        r matches Some(s) ==> s.made_from(
            n_servers as nat,
            p@,
            q@,
            exponent_poly(exponent_modulus(p@, q@), threshold as nat, old(rng)@),
        ),
        r matches Some(s) ==> (is_prime(p@ as int) && is_prime(q@ as int) && p@ != q@ && n_servers
            < 65537 ==> s.any_shares_sign(threshold as nat)),
        final(rng)@ == if r is Some {
            after_below(old(rng)@, (threshold - 1) as nat, exponent_modulus(p@, q@))
        } else {
            old(rng)@
        },
{
    let one = Nat::from_u64(1);
    let n = p.times(q);
    let p1 = p.minus(&one).half();
    let q1 = q.minus(&one).half();
    let m = p1.times(&q1);
    proof {
        let (a, b) = (p1@, q1@);
        assert(a * b > 0) by (nonlinear_arith)
            requires
                a > 0,
                b > 0,
        ;
    }
    let e = Nat::from_u64(65537);
    let d = match modinv_u(&e, &m) {
        Some(d) => d,
        None => {
            return None;
        },
    };
    proof {
        assert(is_inverse(65537, d@ as int, m@ as int));
    }
    let ghost dv = d@ as int;
    let ghost r0 = rng@;
    let mut coeffs: Vec<Nat> = Vec::with_capacity(threshold);
    coeffs.push(d);
    assert(nat_vals(coeffs@) =~= seq![dv]);
    push_draws(&mut coeffs, threshold - 1, &m, rng);
    let ghost c = nat_vals(coeffs@);
    proof {
        assert(is_inverse(65537, inverse_mod(65537, m@ as int), m@ as int));
        lemma_one_inverse(65537, dv, inverse_mod(65537, m@ as int), m@ as int);
        assert(c == exponent_poly(m@, threshold as nat, r0));
        lemma_drawn_below_len(r0, (threshold - 1) as nat, m@);
        assert(c[0] == dv);
    }
    let mut shares: Vec<ShoupShare> = Vec::with_capacity(n_servers);
    let mut i: usize = 0;
    while i < n_servers
        invariant
            i <= n_servers,
            m@ > 0,
            c == nat_vals(coeffs@),
            coeffs@.len() > 0,
            shares@.len() == i,
            forall|k: int|
                0 <= k < i ==> (#[trigger] shares@[k]).id == (k + 1) as u32 && shares@[k].s_i@
                    == eval(c, k + 1) % (m@ as int),
        decreases n_servers - i,
    {
        let x = Nat::from_u64(i as u64 + 1);
        let s_i = eval_poly_mod(coeffs.as_slice(), &x, &m);
        shares.push(ShoupShare { id: (i + 1) as u32, s_i });
        i = i + 1;
    }
    let delta = factorial(n_servers);
    let s = ShoupSetup { public: ShoupPublicKey { n, e, delta }, shares };
    proof {
        assert(s.made_from(n_servers as nat, p@, q@, c));
        if is_prime(p@ as int) && is_prime(q@ as int) && p@ != q@ && n_servers < 65537 {
            any_threshold_signs(s, n_servers as nat, p@, q@, c, threshold as nat);
        }
    }
    Some(s)
}

/// Two different numbers of 1024 bits whose product has 2048 bits.
pub open spec fn proper_draw(p: nat, q: nat) -> bool {
    &&& p != q
    &&& pow2(1023) <= p < pow2(1024)
    &&& pow2(1023) <= q < pow2(1024)
    &&& pow2(2047) <= p * q
}

/// What is asked for each prime: how many bits, and that it is a safe one.
pub fn prime_request() -> (r: (i32, bool))
    ensures
        r.0 == 1024,
        r.1,
{
    (1024, true)
}

/// Makes a setup from two drawn numbers, unless they are the same, they or their product have
/// the wrong size, or the public exponent has no inverse. Where they are primes, any
/// `threshold` of the shares sign.
pub fn shoup_setup_from_draw(
    n_servers: usize,
    threshold: usize,
    p: &Nat,
    q: &Nat,
    rng: &mut Rng,
) -> (r: Option<ShoupSetup>)
    requires
        1 <= threshold <= n_servers,
    ensures
        r is Some <==> proper_draw(p@, q@) && invertible(
            65537,
            exponent_modulus(p@, q@) as int,
        ),
        r matches Some(s) ==> s.made_from(
            n_servers as nat,
            p@,
            q@,
            exponent_poly(exponent_modulus(p@, q@), threshold as nat, old(rng)@),
        ),
        r matches Some(s) ==> pow2(2047) <= s.public.n@ < pow2(2048),
        r matches Some(s) ==> (is_prime(p@ as int) && is_prime(q@ as int) && n_servers < 65537
            ==> s.any_shares_sign(threshold as nat)),
        final(rng)@ == if r is Some {
            after_below(old(rng)@, (threshold - 1) as nat, exponent_modulus(p@, q@))
        } else {
            old(rng)@
        },
{
    if q.same(p) || !p.fills_bytes(128) || !q.fills_bytes(128) {
        return None;
    }
    proof {
        lemma_pow2_adds(1024, 1024);
        assert(p@ * q@ < pow2(1024) * pow2(1024)) by (nonlinear_arith)
            requires
                0 <= p@ < pow2(1024),
                0 <= q@ < pow2(1024),
        ;
        lemma_pow2_strictly_increases(2, 1023);
        lemma2_to64();
    }
    if !p.times(q).fills_bytes(256) {
        return None;
    }
    shoup_setup_from_primes(n_servers, threshold, p, q, rng)
}

/// Generates two safe primes of 1024 bits and makes a setup of them, with a modulus of 2048
/// bits. Numbers that do not give one are drawn again. Where the numbers are primes, any
/// `threshold` of the shares sign.
pub fn shoup_setup(n_servers: usize, threshold: usize, rng: &mut Rng) -> (r: Result<
    ShoupSetup,
    CryptoError,
>)
    ensures
        (r matches Err(e) && e is InvalidThreshold) <==> (threshold == 0 || threshold > n_servers),
        r matches Ok(s) ==> s.sound(n_servers as nat, threshold as nat, old(rng)@, final(rng)@)
            && pow2(2047) <= s.public.n@ < pow2(2048),
        r matches Err(e) ==> e is InvalidThreshold || e is OpenSsl || e is NoKey,
        r is Err ==> final(rng)@ == old(rng)@,
{
    if threshold == 0 || threshold > n_servers {
        return Err(CryptoError::InvalidThreshold);
    }
    let (bits, safe) = prime_request();
    let ghost r0 = rng@;
    let mut tries: u64 = u64::MAX;
    while tries > 0
        invariant
            1 <= threshold <= n_servers,
            rng@ == r0,
            r0 == old(rng)@,
            bits == 1024,
            safe,
        decreases tries,
    {
        tries = tries - 1;
        let p = match openssl_prime(bits, safe) {
            Ok(b) => Nat::from_bytes_be(b.as_slice()),
            Err(e) => {
                return Err(CryptoError::OpenSsl(openssl_error_text(&e)));
            },
        };
        let q = match openssl_prime(bits, safe) {
            Ok(b) => Nat::from_bytes_be(b.as_slice()),
            Err(e) => {
                return Err(CryptoError::OpenSsl(openssl_error_text(&e)));
            },
        };
        match shoup_setup_from_draw(n_servers, threshold, &p, &q, rng) {
            Some(s) => {
                proof {
                    assert(s.sound_from(
                        n_servers as nat,
                        threshold as nat,
                        r0,
                        rng@,
                        p@,
                        q@,
                    ));
                    assert(s.sound(n_servers as nat, threshold as nat, r0, rng@));
                }
                return Ok(s);
            },
            None => {},
        }
    }
    Err(CryptoError::NoKey)
}

/// The prefix of a SHA-256 digest in a signature block.
pub open spec fn digest_prefix() -> Seq<u8> {
    seq![
        0x30u8, 0x31, 0x30, 0x0d, 0x06, 0x09, 0x60, 0x86, 0x48, 0x01, 0x65, 0x03, 0x04, 0x02, 0x01,
        0x05, 0x00, 0x04, 0x20,
    ]
}

/// The signature block of a message, `len` bytes long.
pub open spec fn signature_block(msg: Seq<u8>, len: nat) -> Seq<u8> {
    seq![0x00u8, 0x01u8] + Seq::new((len - 54) as nat, |i: int| 0xffu8) + seq![0x00u8]
        + digest_prefix() + sha256(msg)
}

/// EMSA-PKCS1-v1_5 encoding with SHA-256, as an integer. The block must have room for
/// eight bytes of padding.
pub fn emsa_pkcs1_v1_5_sha256(msg: &[u8], modulus_bytes: usize) -> (r: Result<Nat, CryptoError>)
    ensures
        match r {
            Ok(em) => modulus_bytes >= 62 && em@ == be_nat(
                signature_block(msg@, modulus_bytes as nat),
            ) && signature_block(msg@, modulus_bytes as nat).len() == modulus_bytes,
            Err(e) => modulus_bytes < 62 && e is InvalidRepresentative,
        },
{
    let prefix: [u8; 19] = [
        0x30, 0x31, 0x30, 0x0d, 0x06, 0x09, 0x60, 0x86, 0x48, 0x01, 0x65, 0x03, 0x04, 0x02, 0x01,
        0x05, 0x00, 0x04, 0x20,
    ];
    assert(prefix@ =~= digest_prefix());
    let digest = sha256_digest(msg);
    if modulus_bytes < 62 {
        return Err(CryptoError::InvalidRepresentative);
    }
    let ps_len: usize = modulus_bytes - 54;
    let mut em: Vec<u8> = Vec::with_capacity(modulus_bytes);
    em.push(0x00);
    em.push(0x01);
    let ghost head = seq![0x00u8, 0x01u8];
    assert(em@ =~= head + Seq::new(0, |i: int| 0xffu8));
    let mut k: usize = 0;
    while k < ps_len
        invariant
            k <= ps_len,
            em@ == head + Seq::new(k as nat, |i: int| 0xffu8),
        decreases ps_len - k,
    {
        em.push(0xff);
        assert(em@ =~= head + Seq::new((k + 1) as nat, |i: int| 0xffu8));
        k = k + 1;
    }
    em.push(0x00);
    assert(em@ =~= head + Seq::new(ps_len as nat, |i: int| 0xffu8) + seq![0x00u8]);
    push_bytes(&mut em, &prefix);
    push_bytes(&mut em, &digest);
    Ok(Nat::from_bytes_be(em.as_slice()))
}

/// The partial signature with the share `s`.
pub open spec fn partial_value(rep: nat, delta: nat, s: nat, n: nat) -> nat {
    (pow(rep as int, 2 * delta * s) % (n as int)) as nat
}

/// A server's partial signature of a representative.
pub fn shoup_part_eval(pk: &ShoupPublicKey, share: &ShoupShare, representative: &Nat) -> (r:
    ShoupPartial)
    requires
        pk.n@ > 0,
    ensures
        r.id == share.id,
        r.value@ == partial_value(representative@, pk.delta@, share.s_i@, pk.n@),
        r.value@ < pk.n@,
{
    let two = Nat::from_u64(2);
    let exponent = two.times(&pk.delta).times(&share.s_i);
    let value = representative.modpow(&exponent, &pk.n);
    ShoupPartial { id: share.id, value }
}

/// The inverse of a number that has one.
pub open spec fn inverse_mod(a: int, m: int) -> int {
    choose|x: int| is_inverse(a, x, m)
}

/// The power with an integer exponent, where it exists.
pub open spec fn signed_power(base: int, exp: int, m: int) -> Option<int> {
    if exp >= 0 {
        Some(pow(base, exp as nat) % m)
    } else if invertible(base, m) {
        Some(pow(inverse_mod(base, m), (-exp) as nat) % m)
    } else {
        None
    }
}

/// The interpolation coefficient of `id`.
pub open spec fn lambda_of(delta: int, id: u32, ids: Seq<u32>) -> int {
    choose|k: int| is_lambda(k, delta, id, ids)
}

/// Only one number is the coefficient.
pub proof fn lemma_one_lambda(delta: int, id: u32, ids: Seq<u32>, k: int)
    requires
        is_lambda(k, delta, id, ids),
    ensures
        lambda_of(delta, id, ids) == k,
{
    let j = lambda_of(delta, id, ids);
    assert(is_lambda(j, delta, id, ids));
    lemma_distance_nonzero(ids, id);
    let d = id_distance_of(ids, id);
    assert(j == k) by (nonlinear_arith)
        requires
            j * d == k * d,
            d != 0,
    ;
}

spec fn id_distance_of(ids: Seq<u32>, id: u32) -> int {
    crate::paper_math::id_distance(ids, id)
}

/// The product of the first `k` partial signatures, each raised to twice its coefficient.
pub open spec fn combined_powers(
    ids: Seq<u32>,
    values: Seq<int>,
    delta: int,
    n: int,
    k: int,
) -> Option<int>
    decreases k,
{
    if k <= 0 {
        Some(1)
    } else {
        match combined_powers(ids, values, delta, n, k - 1) {
            None => None,
            Some(w) => match signed_power(
                values[k - 1],
                2 * lambda_of(delta, ids[k - 1], ids),
                n,
            ) {
                None => None,
                Some(term) => Some((w * term) % n),
            },
        }
    }
}

/// The signature that partial signatures combine to.
pub open spec fn combined_signature(
    n: int,
    e: int,
    delta: int,
    rep: int,
    ids: Seq<u32>,
    values: Seq<int>,
) -> Option<int> {
    let four = 4 * delta * delta;
    match combined_powers(ids, values, delta, n, ids.len() as int) {
        None => None,
        Some(w) => if !invertible(four % e, e) {
            None
        } else {
            let a = inverse_mod(four % e, e);
            match signed_power(rep, quotient(1 - four * a, e), n) {
                None => None,
                Some(mb) => Some(((pow(w, a as nat) % n) * mb) % n),
            }
        },
    }
}

/// The servers of partial signatures.
pub open spec fn partial_ids(s: Seq<ShoupPartial>) -> Seq<u32> {
    Seq::new(s.len(), |i: int| s[i].id)
}

/// The values of partial signatures.
pub open spec fn partial_nums(s: Seq<ShoupPartial>) -> Seq<int> {
    Seq::new(s.len(), |i: int| s[i].value@ as int)
}

proof fn lemma_signed_power(base: int, exp: int, m: int, r: int)
    requires
        m > 0,
        is_signed_power(base, exp, m, r),
    ensures
        signed_power(base, exp, m) == Some(r),
{
    if exp < 0 {
        let inv = choose|inv: int| #[trigger]
            is_inverse(base, inv, m) && r == pow(inv, (-exp) as nat) % m;
        assert(is_inverse(base, inverse_mod(base, m), m));
        lemma_one_inverse(base, inv, inverse_mod(base, m), m);
    }
}

proof fn lemma_combined_none(ids: Seq<u32>, values: Seq<int>, delta: int, n: int, k: int, l: int)
    requires
        0 <= k <= l,
        combined_powers(ids, values, delta, n, k) is None,
    ensures
        combined_powers(ids, values, delta, n, l) is None,
    decreases l - k,
{
    if k < l {
        lemma_combined_none(ids, values, delta, n, k + 1, l);
    }
}

/// Combines partial signatures.
#[verifier::rlimit(40)]
pub fn shoup_combine(pk: &ShoupPublicKey, representative: &Nat, partials: &[ShoupPartial]) -> (r:
    Result<Nat, CryptoError>)
    requires
        pk.n@ > 0,
        pk.e@ > 0,
        forall|i: int|
            0 <= i < partials@.len() ==> clears(
                pk.delta@ as int,
                (#[trigger] partials@[i]).id,
                partial_ids(partials@),
            ),
    ensures
        ({
            let want = combined_signature(
                pk.n@ as int,
                pk.e@ as int,
                pk.delta@ as int,
                representative@ as int,
                partial_ids(partials@),
                partial_nums(partials@),
            );
            match r {
                Ok(y) => want == Some(y@ as int) && y@ < pk.n@,
                Err(e) => want is None && e is NoInverse,
            }
        }),
{
    let ghost n = pk.n@ as int;
    let ghost ev = pk.e@ as int;
    let ghost delta = pk.delta@ as int;
    let ghost rep = representative@ as int;
    let ghost gids = partial_ids(partials@);
    let ghost values = partial_nums(partials@);
    let mut ids: Vec<u32> = Vec::with_capacity(partials.len());
    let mut i: usize = 0;
    while i < partials.len()
        invariant
            i <= partials@.len(),
            ids@.len() == i,
            forall|k: int| 0 <= k < i ==> ids@[k] == partials@[k].id,
        decreases partials@.len() - i,
    {
        ids.push(partials[i].id);
        i = i + 1;
    }
    assert(ids@ =~= gids);
    let mut w = Nat::from_u64(1);
    let two = Int::from_u64(2);
    let mut k: usize = 0;
    while k < partials.len()
        invariant
            k <= partials@.len(),
            n == pk.n@,
            n > 0,
            ev == pk.e@,
            rep == representative@,
            delta == pk.delta@,
            two@ == 2,
            ids@ == gids,
            gids == partial_ids(partials@),
            values == partial_nums(partials@),
            forall|i: int|
                0 <= i < partials@.len() ==> clears(
                    pk.delta@ as int,
                    (#[trigger] partials@[i]).id,
                    partial_ids(partials@),
                ),
            combined_powers(gids, values, delta, n, k as int) == Some(w@ as int),
        decreases partials@.len() - k,
    {
        assert(clears(delta, partials@[k as int].id, gids));
        let lambda = shoup_lambda(&pk.delta, partials[k].id, ids.as_slice());
        proof {
            lemma_one_lambda(delta, partials@[k as int].id, gids, lambda@);
        }
        let exp = two.times(&lambda);
        let term = match modpow_signed(&partials[k].value, &exp, &pk.n) {
            Some(t) => t,
            None => {
                proof {
                    assert(combined_powers(gids, values, delta, n, k + 1) is None);
                    lemma_combined_none(
                        gids,
                        values,
                        delta,
                        n,
                        k + 1,
                        partials@.len() as int,
                    );
                }
                return Err(CryptoError::NoInverse);
            },
        };
        proof {
            lemma_signed_power(values[k as int], exp@, n, term@ as int);
        }
        w = w.times(&term).modulo(&pk.n);
        k = k + 1;
    }
    let four = Nat::from_u64(4);
    let four_delta_sq = four.times(&pk.delta).times(&pk.delta);
    let reduced = four_delta_sq.modulo(&pk.e);
    let a = match modinv_u(&reduced, &pk.e) {
        Some(a) => a,
        None => {
            return Err(CryptoError::NoInverse);
        },
    };
    proof {
        assert(is_inverse(reduced@ as int, inverse_mod(reduced@ as int, ev), ev));
        lemma_one_inverse(reduced@ as int, a@ as int, inverse_mod(reduced@ as int, ev), ev);
    }
    let lhs = four_delta_sq.times(&a);
    let one = Int::from_u64(1);
    let b = one.minus(&Int::from_nat(&lhs)).over(&Int::from_nat(&pk.e));
    let wa = w.modpow(&a, &pk.n);
    let mb = match modpow_signed(representative, &b, &pk.n) {
        Some(x) => x,
        None => {
            return Err(CryptoError::NoInverse);
        },
    };
    proof {
        lemma_signed_power(rep, b@, n, mb@ as int);
    }
    Ok(wa.times(&mb).modulo(&pk.n))
}

/// Verifies a signature: its power by the public exponent is the representative.
pub fn shoup_verify(pk: &ShoupPublicKey, representative: &Nat, sig: &Nat) -> (r: bool)
    requires
        pk.n@ > 0,
    ensures
        r == (pow(sig@ as int, pk.e@) % (pk.n@ as int) == representative@),
{
    sig.modpow(&pk.e, &pk.n).same(representative)
}

} // verus!
