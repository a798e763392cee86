//! Powers of a number of finite order, with integer exponents.
use vstd::arithmetic::power::{lemma_pow0, lemma_pow_adds, lemma_pow_multiplies, pow};
use vstd::prelude::*;

use crate::modular::{eqm, lemma_eqm_mod, lemma_eqm_mul};
use crate::paper_math::is_inverse;

verus! {

/// The order of `x` modulo `n` divides `m`.
pub open spec fn order_divides(x: int, m: int, n: int) -> bool {
    m > 0 && n > 1 && pow(x, m as nat) % n == 1
}

/// The power of `x` modulo `n` with an integer exponent, where the order of `x` divides
/// `m`.
pub open spec fn xpow(x: int, j: int, m: int, n: int) -> int {
    pow(x, (j % m) as nat) % n
}

pub proof fn lemma_pow_congruent(a: int, b: int, k: nat, n: int)
    requires
        n > 0,
        eqm(a, b, n),
    ensures
        eqm(pow(a, k), pow(b, k), n),
    decreases k,
{
    if k == 0 {
        lemma_pow0(a);
        lemma_pow0(b);
    } else {
        lemma_pow_congruent(a, b, (k - 1) as nat, n);
        reveal(pow);
        lemma_eqm_mul(a, b, pow(a, (k - 1) as nat), pow(b, (k - 1) as nat), n);
    }
}

pub proof fn lemma_one_pow(k: nat)
    ensures
        pow(1, k) == 1,
    decreases k,
{
    reveal(pow);
    if k > 0 {
        lemma_one_pow((k - 1) as nat);
    }
}

/// A natural power depends on its exponent modulo the order only.
pub proof fn lemma_natural(x: int, k: nat, m: int, n: int)
    requires
        order_divides(x, m, n),
    ensures
        eqm(pow(x, k), xpow(x, k as int, m, n), n),
        pow(x, k) % n == xpow(x, k as int, m, n),
{
    vstd::arithmetic::div_mod::lemma_fundamental_div_mod(k as int, m);
    vstd::arithmetic::div_mod::lemma_mod_bound(k as int, m);
    let q = k as int / m;
    assert(q >= 0) by {
        vstd::arithmetic::div_mod::lemma_div_pos_is_pos(k as int, m);
    }
    let r = k as int % m;
    assert(k == m * q + r);
    assert(m * q >= 0) by (nonlinear_arith)
        requires
            m > 0,
            q >= 0,
    ;
    lemma_pow_adds(x, (m * q) as nat, r as nat);
    lemma_pow_multiplies(x, m as nat, q as nat);
    vstd::arithmetic::div_mod::lemma_small_mod(1, n as nat);
    lemma_pow_congruent(pow(x, m as nat), 1, q as nat, n);
    lemma_one_pow(q as nat);
    lemma_eqm_mul(pow(x, (m * q) as nat), 1, pow(x, r as nat), pow(x, r as nat), n);
    lemma_eqm_mod(pow(x, r as nat), n);
}

/// Exponents that are congruent modulo the order give one power.
pub proof fn lemma_periodic(x: int, i: int, j: int, m: int, n: int)
    requires
        order_divides(x, m, n),
        eqm(i, j, m),
    ensures
        xpow(x, i, m, n) == xpow(x, j, m, n),
{
}

/// Powers multiply by adding exponents.
pub proof fn lemma_product(x: int, i: int, j: int, m: int, n: int)
    requires
        order_divides(x, m, n),
    ensures
        eqm(xpow(x, i, m, n) * xpow(x, j, m, n), xpow(x, i + j, m, n), n),
        (xpow(x, i, m, n) * xpow(x, j, m, n)) % n == xpow(x, i + j, m, n),
{
    vstd::arithmetic::div_mod::lemma_mod_bound(i, m);
    vstd::arithmetic::div_mod::lemma_mod_bound(j, m);
    let a = (i % m) as nat;
    let b = (j % m) as nat;
    lemma_pow_adds(x, a, b);
    lemma_eqm_mod(pow(x, a), n);
    lemma_eqm_mod(pow(x, b), n);
    lemma_eqm_mul(pow(x, a) % n, pow(x, a), pow(x, b) % n, pow(x, b), n);
    lemma_natural(x, (a + b) as nat, m, n);
    vstd::arithmetic::div_mod::lemma_add_mod_noop(i, j, m);
    assert(xpow(x, (a + b) as int, m, n) == xpow(x, i + j, m, n)) by {
        vstd::arithmetic::div_mod::lemma_mod_twice(i + j, m);
    }
    lemma_eqm_mod(pow(x, ((i + j) % m) as nat), n);
}

/// Powers of powers multiply exponents.
pub proof fn lemma_power(x: int, j: int, k: nat, m: int, n: int)
    requires
        order_divides(x, m, n),
    ensures
        pow(xpow(x, j, m, n), k) % n == xpow(x, j * k, m, n),
    decreases k,
{
    reveal(pow);
    if k == 0 {
        assert(j * 0 == 0);
        lemma_pow0(x);
        vstd::arithmetic::div_mod::lemma_small_mod(0, m as nat);
    } else {
        let v = xpow(x, j, m, n);
        let k1 = (k - 1) as nat;
        lemma_power(x, j, k1, m, n);
        lemma_eqm_mod(pow(v, k1), n);
        lemma_eqm_mod(pow(x, ((j * k1) % m) as nat), n);
        lemma_eqm_mul(v, v, pow(v, k1), xpow(x, j * k1, m, n), n);
        lemma_product(x, j, j * k1, m, n);
        assert(j + j * k1 == j * k) by (nonlinear_arith)
            requires
                k == k1 + 1,
        ;
    }
}

/// The inverse of a power has the negated exponent.
pub proof fn lemma_inverse(x: int, j: int, m: int, n: int)
    requires
        order_divides(x, m, n),
    ensures
        is_inverse(xpow(x, j, m, n), xpow(x, -j, m, n), n),
{
    lemma_product(x, j, -j, m, n);
    lemma_pow0(x);
    vstd::arithmetic::div_mod::lemma_small_mod(0, m as nat);
    vstd::arithmetic::div_mod::lemma_mod_bound(pow(x, ((-j) % m) as nat), n);
}

} // verus!
