//! Fermat's little theorem and the orders of numbers modulo primes.
use vstd::arithmetic::power::{lemma_pow1, lemma_pow_adds, lemma_pow_multiplies, pow};
use vstd::prelude::*;

use crate::modular::{eqm, lemma_eqm_add, lemma_eqm_mod, lemma_eqm_mul, lemma_eqm_sub};
use crate::paper_math::{fact, is_inverse};
use crate::shoup::exponent_modulus;
use crate::shoup_group::{lemma_natural, lemma_one_pow, lemma_pow_congruent, order_divides};
use crate::shoup_math::{binomial, lemma_binomial, lemma_binomial_small};

verus! {

/// A number above one without a divisor between one and itself.
pub open spec fn is_prime(p: int) -> bool {
    p > 1 && forall|d: int| 1 < d < p ==> #[trigger] (p % d) != 0
}

/// Whether `d` divides `n`.
pub open spec fn divides(d: int, n: int) -> bool {
    n % d == 0
}

/// No number above one divides both.
pub open spec fn coprime(a: int, b: int) -> bool {
    forall|d: int| d > 1 && #[trigger] divides(d, a) ==> !divides(d, b)
}

proof fn lemma_divides_multiple(d: int, n: int, k: int)
    requires
        d > 0,
        divides(d, n),
    ensures
        divides(d, n * k),
        divides(d, k * n),
{
    lemma_eqm_mul(n, 0, k, k, d);
    assert(0 * k == 0);
    assert(n * k == k * n) by (nonlinear_arith);
}

proof fn lemma_divides_sum(d: int, a: int, b: int)
    requires
        d > 0,
        divides(d, a),
        divides(d, b),
    ensures
        divides(d, a + b),
        divides(d, a - b),
{
    lemma_eqm_add(a, 0, b, 0, d);
    lemma_eqm_sub(a, 0, b, 0, d);
}

/// The least positive number whose product with `b` is a multiple of `p`.
proof fn lemma_least(p: int, b: int, n: int) -> (least: int)
    requires
        p > 0,
        n > 0,
        divides(p, n * b),
    ensures
        0 < least <= n,
        divides(p, least * b),
        forall|k: int| 0 < k < least ==> !#[trigger] divides(p, k * b),
    decreases n,
{
    if exists|k: int| 0 < k < n && #[trigger] divides(p, k * b) {
        let k = choose|k: int| 0 < k < n && #[trigger] divides(p, k * b);
        lemma_least(p, b, k)
    } else {
        n
    }
}

/// A prime that divides a product divides a factor.
pub proof fn lemma_euclid(p: int, a: int, b: int)
    requires
        is_prime(p),
        divides(p, a * b),
    ensures
        divides(p, a) || divides(p, b),
{
    vstd::arithmetic::div_mod::lemma_mod_self_0(p);
    lemma_divides_multiple(p, p, b);
    let least = lemma_least(p, b, p);
    // The least such number divides every such number.
    lemma_least_divides(p, b, least, p);
    lemma_least_divides(p, b, least, a);
    if least == 1 {
        assert(1 * b == b);
    } else if least < p {
        assert(p % least != 0);
    } else {
        assert(least == p);
    }
}

proof fn lemma_least_divides(p: int, b: int, least: int, n: int)
    requires
        p > 0,
        least > 0,
        divides(p, least * b),
        divides(p, n * b),
        forall|k: int| 0 < k < least ==> !#[trigger] divides(p, k * b),
    ensures
        n % least == 0,
{
    vstd::arithmetic::div_mod::lemma_fundamental_div_mod(n, least);
    vstd::arithmetic::div_mod::lemma_mod_bound(n, least);
    let q = n / least;
    let r = n % least;
    lemma_divides_multiple(p, least * b, q);
    lemma_divides_sum(p, n * b, (least * b) * q);
    assert(n * b - (least * b) * q == r * b) by (nonlinear_arith)
        requires
            n == least * q + r,
    ;
    if r > 0 {
        assert(!divides(p, r * b));
    }
}

/// A prime does not divide the factorial of a smaller number.
proof fn lemma_prime_factorial(p: int, k: nat)
    requires
        is_prime(p),
        k < p,
    ensures
        !divides(p, fact(k) as int),
    decreases k,
{
    if k == 0 {
        vstd::arithmetic::div_mod::lemma_small_mod(1, p as nat);
    } else {
        lemma_prime_factorial(p, (k - 1) as nat);
        if divides(p, fact(k) as int) {
            lemma_euclid(p, k as int, fact((k - 1) as nat) as int);
            vstd::arithmetic::div_mod::lemma_small_mod(k, p as nat);
        }
    }
}

/// A prime divides the binomial coefficients between the ends of its row.
proof fn lemma_prime_binomial(p: nat, k: nat)
    requires
        is_prime(p as int),
        0 < k < p,
    ensures
        divides(p as int, binomial(p, k) as int),
{
    lemma_binomial(p, k);
    let b = binomial(p, k) as int;
    let f = fact(k) as int;
    let g = fact((p - k) as nat) as int;
    let pi = p as int;
    assert(fact(p) == p * fact((p - 1) as nat));
    vstd::arithmetic::div_mod::lemma_mod_self_0(pi);
    lemma_divides_multiple(pi, pi, fact((p - 1) as nat) as int);
    assert(divides(pi, fact(p) as int));
    assert(b * (f * g) == fact(p) as int);
    lemma_euclid(pi, b, f * g);
    if !divides(pi, b) {
        lemma_euclid(pi, f, g);
        lemma_prime_factorial(pi, k);
        lemma_prime_factorial(pi, (p - k) as nat);
    }
}

/// The first terms of the expansion of `(a + 1)` to the power `n`.
spec fn expansion(a: int, n: nat, k: nat) -> int
    decreases k,
{
    if k == 0 {
        0
    } else {
        expansion(a, n, (k - 1) as nat) + binomial(n, (k - 1) as nat) * pow(a, (k - 1) as nat)
    }
}

proof fn lemma_expansion_step(a: int, n: nat, k: nat)
    ensures
        expansion(a, n + 1, k + 1) == expansion(a, n, k + 1) + a * expansion(a, n, k),
    decreases k,
{
    reveal(pow);
    if k == 0 {
        reveal_with_fuel(expansion, 2);
        assert(a * 0 == 0);
    } else {
        lemma_expansion_step(a, n, (k - 1) as nat);
        let b1 = binomial(n, (k - 1) as nat) as int;
        let b2 = binomial(n, k) as int;
        let pk = pow(a, k);
        let pk1 = pow(a, (k - 1) as nat);
        assert(binomial(n + 1, k) == b1 + b2);
        assert(pk == a * pk1);
        let e = expansion(a, n, (k - 1) as nat);
        assert((b1 + b2) * pk == b2 * pk + a * (b1 * pk1)) by (nonlinear_arith)
            requires
                pk == a * pk1,
        ;
        assert(a * (e + b1 * pk1) == a * e + a * (b1 * pk1)) by (nonlinear_arith);
    }
}

proof fn lemma_binomial_theorem(a: int, n: nat)
    ensures
        pow(a + 1, n) == expansion(a, n, n + 1),
    decreases n,
{
    reveal(pow);
    if n == 0 {
        reveal_with_fuel(expansion, 2);
        assert(1 * 1 == 1);
    } else {
        let m = (n - 1) as nat;
        lemma_binomial_theorem(a, m);
        lemma_expansion_step(a, m, n);
        lemma_binomial_small(m, n);
        let e = expansion(a, m, n);
        assert(expansion(a, m, n + 1) == e + 0 * pow(a, n));
        assert(0 * pow(a, n) == 0);
        assert((a + 1) * e == e + a * e) by (nonlinear_arith);
    }
}

proof fn lemma_expansion_mod_prime(a: int, p: nat, k: nat)
    requires
        is_prime(p as int),
        1 <= k <= p,
    ensures
        eqm(expansion(a, p, k), 1, p as int),
    decreases k,
{
    reveal(pow);
    let pi = p as int;
    if k == 1 {
        reveal_with_fuel(expansion, 2);
        assert(1 * 1 == 1);
    } else {
        let j = (k - 1) as nat;
        lemma_expansion_mod_prime(a, p, j);
        lemma_prime_binomial(p, j);
        lemma_divides_multiple(pi, binomial(p, j) as int, pow(a, j));
        lemma_eqm_add(expansion(a, p, j), 1, binomial(p, j) * pow(a, j), 0, pi);
    }
}

/// A number and its power by a prime leave the same remainder.
proof fn lemma_fermat_power(a: nat, p: nat)
    requires
        is_prime(p as int),
    ensures
        eqm(pow(a as int, p), a as int, p as int),
    decreases a,
{
    reveal(pow);
    let pi = p as int;
    if a == 0 {
        assert(pow(0, p) == 0 * pow(0, (p - 1) as nat));
        assert(0 * pow(0, (p - 1) as nat) == 0);
    } else {
        let b = (a - 1) as nat;
        lemma_fermat_power(b, p);
        lemma_binomial_theorem(b as int, p);
        lemma_expansion_mod_prime(b as int, p, p);
        lemma_binomial_top(p);
        let last = pow(b as int, p);
        assert(expansion(b as int, p, p + 1) == expansion(b as int, p, p) + 1 * last);
        lemma_eqm_add(expansion(b as int, p, p), 1, last, b as int, pi);
    }
}

proof fn lemma_binomial_top(n: nat)
    ensures
        binomial(n, n) == 1,
    decreases n,
{
    if n > 0 {
        lemma_binomial_top((n - 1) as nat);
        lemma_binomial_small((n - 1) as nat, n);
    }
}

/// Fermat's little theorem: a number that a prime does not divide has, to the power of
/// the prime less one, the remainder one.
pub proof fn fermat(a: nat, p: nat)
    requires
        is_prime(p as int),
        !divides(p as int, a as int),
    ensures
        pow(a as int, (p - 1) as nat) % (p as int) == 1,
{
    reveal(pow);
    let pi = p as int;
    let ai = a as int;
    let u = pow(ai, (p - 1) as nat);
    lemma_fermat_power(a, p);
    assert(pow(ai, p) == ai * u);
    lemma_eqm_sub(ai * u, ai, ai, ai, pi);
    assert(ai * u - ai == ai * (u - 1)) by (nonlinear_arith);
    assert(divides(pi, ai * (u - 1)));
    lemma_euclid(pi, ai, u - 1);
    lemma_eqm_add(u - 1, 0, 1, 1, pi);
    vstd::arithmetic::div_mod::lemma_small_mod(1, p);
}

/// The order of the square of a number modulo a safe prime `2 * q + 1` divides `q`.
pub proof fn safe_prime_squares(g: nat, q: nat)
    requires
        is_prime((2 * q + 1) as int),
        q > 0,
        !divides((2 * q + 1) as int, g as int),
    ensures
        order_divides((g * g) as int, q as int, (2 * q + 1) as int),
{
    let p = (2 * q + 1) as nat;
    fermat(g, p);
    let gi = g as int;
    lemma_pow_multiplies(gi, 2, q);
    lemma_pow_adds(gi, 1, 1);
    lemma_pow1(gi);
    assert((g * g) as int == gi * gi);
    assert(pow(gi, 2) == gi * gi);
    assert(2 * q == p - 1);
}

/// The order of a number without a common divisor with a product of two odd primes divides
/// twice the product of their halves.
pub proof fn rsa_order(x: nat, p: nat, q: nat)
    requires
        is_prime(p as int),
        is_prime(q as int),
        p != q,
        p % 2 == 1,
        q % 2 == 1,
        !divides(p as int, x as int),
        !divides(q as int, x as int),
    ensures
        order_divides(
            x as int,
            2 * exponent_modulus(p, q) as int,
            p as int * q as int,
        ),
{
    let (pi, qi, xi) = (p as int, q as int, x as int);
    let p1 = (p - 1) as nat / 2;
    let q1 = (q - 1) as nat / 2;
    let e = 2 * (p1 * q1);
    assert(e == 2 * exponent_modulus(p, q));
    fermat(x, p);
    fermat(x, q);
    assert(p - 1 == 2 * p1 && q - 1 == 2 * q1);
    assert((2 * p1) * q1 == e) by (nonlinear_arith)
        requires
            e == 2 * (p1 * q1),
    ;
    assert((2 * q1) * p1 == e) by (nonlinear_arith)
        requires
            e == 2 * (p1 * q1),
    ;
    let v = pow(xi, e as nat);
    lemma_pow_multiplies(xi, (2 * p1) as nat, q1);
    lemma_pow_multiplies(xi, (2 * q1) as nat, p1);
    vstd::arithmetic::div_mod::lemma_small_mod(1, p);
    vstd::arithmetic::div_mod::lemma_small_mod(1, q);
    lemma_pow_congruent(pow(xi, (2 * p1) as nat), 1, q1, pi);
    lemma_pow_congruent(pow(xi, (2 * q1) as nat), 1, p1, qi);
    lemma_one_pow(q1);
    lemma_one_pow(p1);
    lemma_eqm_sub(v, 1, 1, 1, pi);
    lemma_eqm_sub(v, 1, 1, 1, qi);
    let z = v - 1;
    assert(divides(pi, z) && divides(qi, z));
    vstd::arithmetic::div_mod::lemma_fundamental_div_mod(z, pi);
    let k = z / pi;
    assert(z == pi * k);
    lemma_euclid(qi, pi, k);
    if divides(qi, pi) {
        lemma_prime_divides_prime(pi, qi);
    }
    vstd::arithmetic::div_mod::lemma_fundamental_div_mod(k, qi);
    let l = k / qi;
    assert(k == qi * l);
    let n = pi * qi;
    assert(z == n * l) by (nonlinear_arith)
        requires
            z == pi * k,
            k == qi * l,
            n == pi * qi,
    ;
    assert(n > 1) by (nonlinear_arith)
        requires
            n == pi * qi,
            pi > 1,
            qi > 1,
    ;
    vstd::arithmetic::div_mod::lemma_mod_multiples_vanish(l, 1, n);
    vstd::arithmetic::div_mod::lemma_small_mod(1, n as nat);
    assert(e > 0) by (nonlinear_arith)
        requires
            e == 2 * (p1 * q1),
            p1 > 0,
            q1 > 0,
    ;
}

proof fn lemma_prime_divides_prime(p: int, q: int)
    requires
        is_prime(p),
        is_prime(q),
        divides(q, p),
    ensures
        p == q,
{
    if q < p {
        assert(p % q != 0);
    } else if q > p {
        vstd::arithmetic::div_mod::lemma_small_mod(p as nat, q as nat);
    }
}

/// A number without a common divisor with a product of two primes is divided by neither.
pub proof fn coprime_to_both(x: int, p: int, q: int)
    requires
        is_prime(p),
        is_prime(q),
        coprime(x, p * q),
    ensures
        !divides(p, x),
        !divides(q, x),
{
    vstd::arithmetic::div_mod::lemma_mod_self_0(p);
    vstd::arithmetic::div_mod::lemma_mod_self_0(q);
    lemma_divides_multiple(p, p, q);
    lemma_divides_multiple(q, q, p);
}

/// A prime above two is odd.
pub proof fn large_prime_is_odd(p: int)
    requires
        is_prime(p),
        p > 2,
    ensures
        p % 2 == 1,
{
    assert(p % 2 != 0);
}

/// A power of a multiple is a multiple.
proof fn lemma_divides_power(d: int, y: int, e: nat)
    requires
        d > 0,
        e > 0,
        divides(d, y),
    ensures
        divides(d, pow(y, e)),
{
    reveal(pow);
    lemma_divides_multiple(d, y, pow(y, (e - 1) as nat));
}

/// Where a prime divides the base but not the value, the base has no such power.
proof fn lemma_root_not_divided(y: nat, e: nat, rep: nat, p: nat, q: nat)
    requires
        is_prime(p as int),
        q > 0,
        e > 0,
        pow(y as int, e) % (p as int * q as int) == rep,
        !divides(p as int, rep as int),
    ensures
        !divides(p as int, y as int),
{
    let (pi, qi) = (p as int, q as int);
    if divides(pi, y as int) {
        let v = pow(y as int, e);
        lemma_divides_power(pi, y as int, e);
        assert(pi * qi > 0) by (nonlinear_arith)
            requires
                pi > 0,
                qi > 0,
        ;
        vstd::arithmetic::div_mod::lemma_mod_mod(v, pi, qi);
    }
}

/// An odd exponent that has an inverse modulo the half order has one modulo the order.
proof fn lemma_inverse_of_double(e: int, d: int, m: int) -> (k: int)
    requires
        m > 0,
        e > 0,
        e % 2 == 1,
        is_inverse(e, d, m),
    ensures
        k >= 0,
        (e * k) % (2 * m) == 1int % (2 * m),
{
    let j = (e * d) / m;
    vstd::arithmetic::div_mod::lemma_fundamental_div_mod(e * d, m);
    if m == 1 {
        // Every number is an inverse modulo one: modulo two, one is.
        assert(e * 1 == e);
        1
    } else {
        vstd::arithmetic::div_mod::lemma_small_mod(1, m as nat);
        assert(e * d == m * j + 1);
        if j % 2 == 0 {
            let h = j / 2;
            assert(e * d == (2 * m) * h + 1) by (nonlinear_arith)
                requires
                    e * d == m * j + 1,
                    j == 2 * h,
            ;
            vstd::arithmetic::div_mod::lemma_mod_multiples_vanish(h, 1, 2 * m);
            d
        } else {
            let h = (j + e) / 2;
            assert(j + e == 2 * h);
            assert(e * (d + m) == (2 * m) * h + 1) by (nonlinear_arith)
                requires
                    e * d == m * j + 1,
                    j + e == 2 * h,
            ;
            vstd::arithmetic::div_mod::lemma_mod_multiples_vanish(h, 1, 2 * m);
            d + m
        }
    }
}

/// A number below the product of two primes that neither divides has at most one root of an
/// odd degree that has an inverse modulo the exponents' modulus.
pub proof fn root_is_unique(y: nat, z: nat, e: nat, d: int, rep: nat, p: nat, q: nat)
    requires
        is_prime(p as int),
        is_prime(q as int),
        p != q,
        p % 2 == 1,
        q % 2 == 1,
        e % 2 == 1,
        is_inverse(e as int, d, exponent_modulus(p, q) as int),
        y < p * q,
        z < p * q,
        pow(y as int, e) % (p as int * q as int) == rep,
        pow(z as int, e) % (p as int * q as int) == rep,
        !divides(p as int, rep as int),
        !divides(q as int, rep as int),
    ensures
        y == z,
{
    let m = exponent_modulus(p, q) as int;
    let n = p as int * q as int;
    let k = lemma_inverse_of_double(e as int, d, m) as nat;
    lemma_root_fixed(y, e, k, rep, p, q);
    lemma_root_fixed(z, e, k, rep, p, q);
    assert(n == (p * q) as int);
}

proof fn lemma_root_fixed(y: nat, e: nat, k: nat, rep: nat, p: nat, q: nat)
    requires
        is_prime(p as int),
        is_prime(q as int),
        p != q,
        p % 2 == 1,
        q % 2 == 1,
        e > 0,
        exponent_modulus(p, q) > 0,
        (e as int * k as int) % (2 * exponent_modulus(p, q) as int) == 1int % (2
            * exponent_modulus(p, q) as int),
        y < p * q,
        pow(y as int, e) % (p as int * q as int) == rep,
        !divides(p as int, rep as int),
        !divides(q as int, rep as int),
    ensures
        y as int == pow(rep as int, k) % (p as int * q as int),
{
    let m2 = 2 * exponent_modulus(p, q) as int;
    let n = p as int * q as int;
    let yi = y as int;
    lemma_root_not_divided(y, e, rep, p, q);
    assert(q as int * p as int == n) by (nonlinear_arith)
        requires
            n == p as int * q as int,
    ;
    lemma_root_not_divided(y, e, rep, q, p);
    rsa_order(y, p, q);
    let v = pow(yi, e);
    lemma_eqm_mod(v, n);
    lemma_pow_congruent(v % n, v, k, n);
    lemma_pow_multiplies(yi, e, k);
    assert(e * k == (e as int * k as int) as nat);
    lemma_natural(yi, e * k, m2, n);
    lemma_natural(yi, 1, m2, n);
    lemma_pow1(yi);
    assert(n == (p * q) as int);
    vstd::arithmetic::div_mod::lemma_small_mod(y, n as nat);
}

} // verus!
