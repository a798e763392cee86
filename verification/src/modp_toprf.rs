//! The threshold password function in a subgroup of the integers modulo a prime.
use vstd::arithmetic::power::pow;
use vstd::arithmetic::power2::pow2;
use vstd::prelude::*;

use crate::bignum::{be_bytes, be_nat, below_drawn, Nat};
use crate::bytes::cat2;
use crate::interpolation::eval;
use crate::modp_law::modp_group_is_proper;
use crate::modular::{eqm, lemma_eqm_mod, lemma_eqm_mul};
use crate::number_theory::is_prime;
use crate::paper_hash::{sha256, sha256_digest, sha512, sha512_digest};
use crate::paper_math::{
    eval_poly_mod, id_distance, id_product, invertible, is_inverse, lemma_one_inverse, modinv_u,
    nat_vals,
};
use crate::rng::{Rng, RngState};
use crate::shoup::{
    after_below, drawn_below, inverse_mod, lemma_drawn_below_len, push_draws, CryptoError,
};

verus! {

/// The bytes of the 2048-bit MODP prime of RFC 3526.
pub const MODP14_PRIME: [u8; 256] = [
    0xff, 0xff, 0xff, 0xff, 0xff, 0xff, 0xff, 0xff, 0xc9, 0x0f, 0xda, 0xa2,
    0x21, 0x68, 0xc2, 0x34, 0xc4, 0xc6, 0x62, 0x8b, 0x80, 0xdc, 0x1c, 0xd1,
    0x29, 0x02, 0x4e, 0x08, 0x8a, 0x67, 0xcc, 0x74, 0x02, 0x0b, 0xbe, 0xa6,
    0x3b, 0x13, 0x9b, 0x22, 0x51, 0x4a, 0x08, 0x79, 0x8e, 0x34, 0x04, 0xdd,
    0xef, 0x95, 0x19, 0xb3, 0xcd, 0x3a, 0x43, 0x1b, 0x30, 0x2b, 0x0a, 0x6d,
    0xf2, 0x5f, 0x14, 0x37, 0x4f, 0xe1, 0x35, 0x6d, 0x6d, 0x51, 0xc2, 0x45,
    0xe4, 0x85, 0xb5, 0x76, 0x62, 0x5e, 0x7e, 0xc6, 0xf4, 0x4c, 0x42, 0xe9,
    0xa6, 0x37, 0xed, 0x6b, 0x0b, 0xff, 0x5c, 0xb6, 0xf4, 0x06, 0xb7, 0xed,
    0xee, 0x38, 0x6b, 0xfb, 0x5a, 0x89, 0x9f, 0xa5, 0xae, 0x9f, 0x24, 0x11,
    0x7c, 0x4b, 0x1f, 0xe6, 0x49, 0x28, 0x66, 0x51, 0xec, 0xe4, 0x5b, 0x3d,
    0xc2, 0x00, 0x7c, 0xb8, 0xa1, 0x63, 0xbf, 0x05, 0x98, 0xda, 0x48, 0x36,
    0x1c, 0x55, 0xd3, 0x9a, 0x69, 0x16, 0x3f, 0xa8, 0xfd, 0x24, 0xcf, 0x5f,
    0x83, 0x65, 0x5d, 0x23, 0xdc, 0xa3, 0xad, 0x96, 0x1c, 0x62, 0xf3, 0x56,
    0x20, 0x85, 0x52, 0xbb, 0x9e, 0xd5, 0x29, 0x07, 0x70, 0x96, 0x96, 0x6d,
    0x67, 0x0c, 0x35, 0x4e, 0x4a, 0xbc, 0x98, 0x04, 0xf1, 0x74, 0x6c, 0x08,
    0xca, 0x18, 0x21, 0x7c, 0x32, 0x90, 0x5e, 0x46, 0x2e, 0x36, 0xce, 0x3b,
    0xe3, 0x9e, 0x77, 0x2c, 0x18, 0x0e, 0x86, 0x03, 0x9b, 0x27, 0x83, 0xa2,
    0xec, 0x07, 0xa2, 0x8f, 0xb5, 0xc5, 0x5d, 0xf0, 0x6f, 0x4c, 0x52, 0xc9,
    0xde, 0x2b, 0xcb, 0xf6, 0x95, 0x58, 0x17, 0x18, 0x39, 0x95, 0x49, 0x7c,
    0xea, 0x95, 0x6a, 0xe5, 0x15, 0xd2, 0x26, 0x18, 0x98, 0xfa, 0x05, 0x10,
    0x15, 0x72, 0x8e, 0x5a, 0x8a, 0xac, 0xaa, 0x68, 0xff, 0xff, 0xff, 0xff,
    0xff, 0xff, 0xff, 0xff,
];

/// The group: a modulus, the order of the subgroup in use, and a generator of it.
#[derive(Debug)]
pub struct ToprfParams {
    pub modulus: Nat,
    pub order: Nat,
    pub generator: Nat,
}

/// A server's share of the key of the password function.
#[derive(Debug)]
pub struct ToprfShare {
    pub id: u32,
    pub value: Nat,
}

/// The group with all shares.
#[derive(Debug)]
pub struct ToprfSetup {
    pub params: ToprfParams,
    pub shares: Vec<ToprfShare>,
}

impl ToprfShare {
    /// A copy of the share.
    pub fn copy(&self) -> (r: ToprfShare)
        ensures
            r.id == self.id,
            r.value@ == self.value@,
    {
        ToprfShare { id: self.id, value: self.value.copy() }
    }
}

impl ToprfParams {
    /// The numbers are usable: there is a group to compute in.
    pub open spec fn usable(self) -> bool {
        self.modulus@ > 0 && self.order@ > 0
    }
}

/// The order of the subgroup of squares of the 2048-bit MODP prime.
pub open spec fn group_order() -> nat {
    ((be_nat(MODP14_PRIME@) - 1) / 2) as nat
}

/// The group of the 2048-bit MODP prime: the subgroup of squares, generated by four.
pub fn toprf_params() -> (r: ToprfParams)
    ensures
        r.modulus@ == be_nat(MODP14_PRIME@),
        r.order@ == (r.modulus@ - 1) / 2,
        r.order@ == group_order(),
        r.generator@ == 4,
        r.order@ > u32::MAX,
        r.usable(),
        pow2(2047) <= r.modulus@ < pow2(2048),
        is_prime(r.modulus@ as int) ==> r.proper(),
{
    let prime = MODP14_PRIME;
    let modulus = Nat::from_bytes_be(&prime);
    proof {
        modp_group_is_proper();
        vstd::arithmetic::power2::lemma_pow2_strictly_increases(64, 2047);
        vstd::arithmetic::power2::lemma2_to64();
    }
    let one = Nat::from_u64(1);
    let order = modulus.minus(&one).half();
    ToprfParams { modulus, order, generator: Nat::from_u64(4) }
}

impl ToprfSetup {
    /// The shares are the values of the polynomial `c` at one, two and so on.
    pub open spec fn shared_by(self, n: nat, c: Seq<int>) -> bool {
        &&& self.shares@.len() == n
        &&& forall|i: int|
            0 <= i < n ==> (#[trigger] self.shares@[i]).id == (i + 1) as u32
                && self.shares@[i].value@ == eval(c, i + 1) % (self.params.order@ as int)
    }
}

/// Draws a key of the password function and shares it among `n` servers, any `t` of which
/// can evaluate it.
pub fn toprf_setup(n: usize, t: usize, rng: &mut Rng) -> (r: Result<ToprfSetup, CryptoError>)
    ensures
        match r {
            Ok(s) => {
                &&& 1 <= t <= n
                &&& s.params.modulus@ == be_nat(MODP14_PRIME@)
                &&& s.params.order@ == (s.params.modulus@ - 1) / 2
                &&& s.params.order@ == group_order()
                &&& s.params.generator@ == 4
                &&& s.params.order@ > u32::MAX
                &&& s.params.usable()
                &&& s.shared_by(
                    n as nat,
                    drawn_below(old(rng)@, t as nat, s.params.order@),
                )
                &&& final(rng)@ == after_below(old(rng)@, t as nat, s.params.order@)
            },
            Err(e) => (t == 0 || t > n) && e is InvalidThreshold && final(rng)@ == old(rng)@,
        },
{
    if t == 0 || t > n {
        return Err(CryptoError::InvalidThreshold);
    }
    let params = toprf_params();
    let ghost r0 = rng@;
    let mut coeffs: Vec<Nat> = Vec::with_capacity(t);
    assert(nat_vals(coeffs@) =~= Seq::<int>::empty());
    push_draws(&mut coeffs, t, &params.order, rng);
    let ghost c = drawn_below(r0, t as nat, params.order@);
    proof {
        assert(Seq::<int>::empty() + c =~= c);
        lemma_drawn_below_len(r0, t as nat, params.order@);
        assert(nat_vals(coeffs@).len() == t);
    }
    let mut shares: Vec<ToprfShare> = Vec::with_capacity(n);
    let mut i: usize = 0;
    while i < n
        invariant
            i <= n,
            params.order@ > 0,
            c == nat_vals(coeffs@),
            coeffs@.len() > 0,
            shares@.len() == i,
            forall|k: int|
                0 <= k < i ==> (#[trigger] shares@[k]).id == (k + 1) as u32 && shares@[k].value@
                    == eval(c, k + 1) % (params.order@ as int),
        decreases n - i,
    {
        let x = Nat::from_u64(i as u64 + 1);
        let value = eval_poly_mod(coeffs.as_slice(), &x, &params.order);
        shares.push(ToprfShare { id: (i + 1) as u32, value });
        i = i + 1;
    }
    Ok(ToprfSetup { params, shares })
}

/// The group element that a password is hashed to.
pub open spec fn password_element(params: ToprfParams, password: Seq<u8>) -> int {
    pow(
        params.generator@ as int,
        be_nat(sha512(password)) % params.order@,
    ) % (params.modulus@ as int)
}

/// Hashes a password into the group.
pub fn hash_password_to_group(params: &ToprfParams, password: &[u8]) -> (r: Nat)
    requires
        params.usable(),
    ensures
        r@ == password_element(*params, password@),
        r@ < params.modulus@,
{
    let digest = sha512_digest(password);
    let exponent = Nat::from_bytes_be(&digest).modulo(&params.order);
    params.generator.modpow(&exponent, &params.modulus)
}

/// The first nonzero number among the next `left` draws below a bound, and the generator
/// after it.
pub open spec fn first_nonzero_below(
    rng: RngState,
    bound: nat,
    left: nat,
) -> (Option<nat>, RngState)
    decreases left,
{
    if left == 0 {
        (None, rng)
    } else {
        let (v, after) = below_drawn(rng, bound);
        if v != 0 {
            (Some(v), after)
        } else {
            first_nonzero_below(after, bound, (left - 1) as nat)
        }
    }
}

/// The blinding factor that is drawn.
pub open spec fn blinding_drawn(rng: RngState, bound: nat) -> (Option<nat>, RngState) {
    first_nonzero_below(rng, bound, u64::MAX as nat)
}

/// Blinds a password with a drawn factor, which is not zero. There is none where the
/// generator yields only zeros.
pub fn toprf_encode(params: &ToprfParams, password: &[u8], rng: &mut Rng) -> (r: Option<
    (Nat, Nat),
>)
    requires
        params.usable(),
    ensures
        match r {
            Some((enc, rho)) => {
                &&& blinding_drawn(old(rng)@, params.order@).0 == Some(rho@)
                &&& 0 < rho@ < params.order@
                &&& enc@ == pow(password_element(*params, password@), rho@) % (
                params.modulus@ as int)
                &&& enc@ < params.modulus@
            },
            None => blinding_drawn(old(rng)@, params.order@).0 is None,
        },
        final(rng)@ == blinding_drawn(old(rng)@, params.order@).1,
{
    let mut left: u64 = u64::MAX;
    while left > 0
        invariant
            params.usable(),
            first_nonzero_below(rng@, params.order@, left as nat) == blinding_drawn(
                old(rng)@,
                params.order@,
            ),
        decreases left,
    {
        let rho = Nat::random_below(&params.order, rng);
        if !rho.is_zero() {
            let h2 = hash_password_to_group(params, password);
            return Some((h2.modpow(&rho, &params.modulus), rho));
        }
        left = left - 1;
    }
    None
}

/// A server's part of the password function.
pub fn toprf_eval(params: &ToprfParams, share: &ToprfShare, encoded: &Nat) -> (r: Nat)
    requires
        params.usable(),
    ensures
        r@ == pow(encoded@ as int, share.value@) % (params.modulus@ as int),
        r@ < params.modulus@,
{
    encoded.modpow(&share.value, &params.modulus)
}

/// The weight of the server `id` modulo `m`.
pub open spec fn weight_mod(ids: Seq<u32>, id: u32, m: int) -> int {
    ((id_product(ids, id) % m) * inverse_mod(id_distance(ids, id) % m, m)) % m
}

/// All weights exist.
pub open spec fn weights_exist(ids: Seq<u32>, m: int) -> bool {
    forall|k: int| 0 <= k < ids.len() ==> invertible(id_distance(ids, #[trigger] ids[k]) % m, m)
}

/// The weights of all servers.
pub open spec fn weights_mod(ids: Seq<u32>, m: int) -> Seq<int> {
    Seq::new(ids.len(), |k: int| weight_mod(ids, ids[k], m))
}

/// No two identifiers are further apart than the modulus.
pub open spec fn within(ids: Seq<u32>, m: nat) -> bool {
    forall|i: int, j: int|
        0 <= i < ids.len() && 0 <= j < ids.len() ==> #[trigger] ids[i] - #[trigger] ids[j] <= m
}

/// The interpolation weights of some servers at zero.
pub fn lagrange_at_zero_mod(ids: &[u32], modulus: &Nat) -> (r: Result<Vec<Nat>, CryptoError>)
    requires
        modulus@ > 0 || ids@.len() == 0,
        within(ids@, modulus@),
    ensures
        match r {
            Ok(v) => weights_exist(ids@, modulus@ as int) && nat_vals(v@) == weights_mod(
                ids@,
                modulus@ as int,
            ),
            Err(e) => !weights_exist(ids@, modulus@ as int) && e is NoInverse,
        },
{
    let ghost m = modulus@ as int;
    let mut out: Vec<Nat> = Vec::with_capacity(ids.len());
    let mut a: usize = 0;
    while a < ids.len()
        invariant
            a <= ids@.len(),
            m == modulus@,
            m > 0 || ids@.len() == 0,
            within(ids@, modulus@),
            out@.len() == a,
            forall|k: int|
                0 <= k < a ==> invertible(id_distance(ids@, #[trigger] ids@[k]) % m, m)
                    && out@[k]@ == weight_mod(ids@, ids@[k], m),
        decreases ids@.len() - a,
    {
        let i = ids[a];
        let mut num = Nat::from_u64(1);
        let mut den = Nat::from_u64(1);
        let mut b: usize = 0;
        while b < ids.len()
            invariant
                b <= ids@.len(),
                a < ids@.len(),
                i == ids@[a as int],
                m == modulus@,
                m > 0,
                within(ids@, modulus@),
                eqm(num@ as int, id_product(ids@.take(b as int), i), m),
                eqm(den@ as int, id_distance(ids@.take(b as int), i), m),
            decreases ids@.len() - b,
        {
            let j = ids[b];
            proof {
                assert(ids@.take(b + 1).drop_last() =~= ids@.take(b as int));
                assert(ids@.take(b + 1).last() == j);
            }
            let ghost n0 = num@ as int;
            let ghost d0 = den@ as int;
            let ghost np = id_product(ids@.take(b as int), i);
            let ghost dp = id_distance(ids@.take(b as int), i);
            if i != j {
                let xj = Nat::from_u64(j as u64);
                num = num.times(&xj).modulo(modulus);
                let diff = if j >= i {
                    Nat::from_u64((j - i) as u64)
                } else {
                    assert(ids@[a as int] - ids@[b as int] <= modulus@);
                    modulus.minus(&Nat::from_u64((i - j) as u64))
                };
                proof {
                    let dv = diff@ as int;
                    let y = j as int - i as int;
                    assert(eqm(dv, y, m)) by {
                        if j < i {
                            vstd::arithmetic::div_mod::lemma_mod_add_multiples_vanish(y, m);
                        }
                    }
                    lemma_eqm_mul(n0, np, j as int, j as int, m);
                    lemma_eqm_mod(n0 * (j as int), m);
                    lemma_eqm_mul(d0, dp, dv, y, m);
                    lemma_eqm_mod(d0 * dv, m);
                }
                den = den.times(&diff).modulo(modulus);
            } else {
                assert(np * 1 == np && dp * 1 == dp);
            }
            b = b + 1;
        }
        proof {
            assert(ids@.take(b as int) =~= ids@);
        }
        let ghost np = id_product(ids@, i);
        let ghost dp = id_distance(ids@, i);
        let inv = match modinv_u(&den, modulus) {
            Some(inv) => inv,
            None => {
                proof {
                    if invertible(id_distance(ids@, ids@[a as int]) % m, m) {
                        let dm = dp % m;
                        let x = choose|x: int| is_inverse(dm, x, m);
                        lemma_eqm_mod(dp, m);
                        lemma_eqm_mul(den@ as int, dp % m, x, x, m);
                        assert(is_inverse(den@ as int, x, m));
                    }
                }
                return Err(CryptoError::NoInverse);
            },
        };
        let w = num.times(&inv).modulo(modulus);
        proof {
            let iv = inv@ as int;
            lemma_eqm_mod(dp, m);
            lemma_eqm_mul(den@ as int, dp % m, iv, iv, m);
            assert(is_inverse(dp % m, iv, m));
            assert(is_inverse(dp % m, inverse_mod(dp % m, m), m));
            lemma_one_inverse(dp % m, iv, inverse_mod(dp % m, m), m);
            lemma_eqm_mod(np, m);
            lemma_eqm_mul(num@ as int, np % m, iv, iv, m);
            assert(w@ == weight_mod(ids@, ids@[a as int], m));
        }
        out.push(w);
        a = a + 1;
    }
    assert(nat_vals(out@) =~= weights_mod(ids@, m));
    Ok(out)
}

/// The product of the first `k` partial values, each raised to its weight.
pub open spec fn combined_value(values: Seq<int>, lam: Seq<int>, m: int, k: int) -> int
    decreases k,
{
    if k <= 0 {
        1
    } else {
        (combined_value(values, lam, m, k - 1) * (pow(values[k - 1], lam[k - 1] as nat) % m)) % m
    }
}

/// The hash of a password and the value of the password function.
pub open spec fn value_hash(password: Seq<u8>, y: int) -> Seq<u8> {
    sha256(password + be_bytes(y as nat))
}

/// The value that partial values combine to, with the blinding removed.
pub open spec fn unblinded_value(
    params: ToprfParams,
    rho: int,
    ids: Seq<u32>,
    values: Seq<int>,
) -> int {
    let m = params.modulus@ as int;
    let q = params.order@ as int;
    let k = if values.len() <= ids.len() {
        values.len() as int
    } else {
        ids.len() as int
    };
    pow(combined_value(values, weights_mod(ids, q), m, k), inverse_mod(rho, q) as nat) % m
}

/// Combines partial values, removes the blinding and hashes the result with the password.
pub fn toprf_combine(
    params: &ToprfParams,
    password: &[u8],
    rho: &Nat,
    ids: &[u32],
    partials: &[Nat],
) -> (r: Result<[u8; 32], CryptoError>)
    requires
        params.usable(),
        within(ids@, params.order@),
    ensures
        match r {
            Ok(h) => {
                &&& weights_exist(ids@, params.order@ as int)
                &&& invertible(rho@ as int, params.order@ as int)
                &&& h@ == value_hash(
                    password@,
                    unblinded_value(*params, rho@ as int, ids@, nat_vals(partials@)),
                )
            },
            Err(e) => {
                &&& e is NoInverse
                &&& !weights_exist(ids@, params.order@ as int) || !invertible(
                    rho@ as int,
                    params.order@ as int,
                )
            },
        },
{
    let ghost m = params.modulus@ as int;
    let ghost q = params.order@ as int;
    let ghost values = nat_vals(partials@);
    let ghost lam = weights_mod(ids@, q);
    let lambdas = match lagrange_at_zero_mod(ids, &params.order) {
        Ok(v) => v,
        Err(e) => {
            return Err(e);
        },
    };
    assert(nat_vals(lambdas@).len() == ids@.len());
    let mut z = Nat::from_u64(1);
    let mut k: usize = 0;
    while k < partials.len() && k < lambdas.len()
        invariant
            k <= partials@.len(),
            k <= lambdas@.len(),
            params.usable(),
            m == params.modulus@,
            values == nat_vals(partials@),
            lam == nat_vals(lambdas@),
            z@ == combined_value(values, lam, m, k as int),
        decreases partials@.len() - k,
    {
        let term = partials[k].modpow(&lambdas[k], &params.modulus);
        z = z.times(&term).modulo(&params.modulus);
        k = k + 1;
    }
    let rho_inv = match modinv_u(rho, &params.order) {
        Some(x) => x,
        None => {
            return Err(CryptoError::NoInverse);
        },
    };
    proof {
        assert(is_inverse(rho@ as int, inverse_mod(rho@ as int, q), q));
        lemma_one_inverse(rho@ as int, rho_inv@ as int, inverse_mod(rho@ as int, q), q);
    }
    let y = z.modpow(&rho_inv, &params.modulus);
    let all = cat2(password, y.to_bytes_be().as_slice());
    Ok(sha256_digest(all.as_slice()))
}

} // verus!
