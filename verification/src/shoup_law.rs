//! Why a signature combined from enough partial signatures verifies.
use vstd::arithmetic::power::{lemma_pow0, lemma_pow1, pow};
use vstd::prelude::*;

use crate::field::{distinct, points};
use crate::interpolation::{dot, eval, weighted};
use crate::modular::{eqm, lemma_eqm_add, lemma_eqm_mod, lemma_eqm_mul, lemma_eqm_sub};
use crate::paper_math::{clears, invertible, is_inverse, is_lambda, lemma_one_inverse};
use crate::shoup::{combined_powers, combined_signature, inverse_mod, lambda_of, signed_power};
use crate::shoup_group::{
    lemma_inverse, lemma_natural, lemma_periodic, lemma_power, lemma_product, order_divides, xpow,
};
use crate::shoup_math::scaled_coefficients_recover;

verus! {

/// Powers of powers with integer exponents.
pub proof fn lemma_signed_power_of(x: int, j: int, exp: int, m: int, n: int)
    requires
        order_divides(x, m, n),
    ensures
        signed_power(xpow(x, j, m, n), exp, n) == Some(xpow(x, j * exp, m, n)),
{
    if exp >= 0 {
        lemma_power(x, j, exp as nat, m, n);
    } else {
        lemma_inverse(x, j, m, n);
        let v = xpow(x, j, m, n);
        let inv = xpow(x, -j, m, n);
        assert(is_inverse(v, inverse_mod(v, n), n));
        lemma_one_inverse(v, inv, inverse_mod(v, n), n);
        lemma_power(x, -j, (-exp) as nat, m, n);
        assert((-j) * (-exp) == j * exp) by (nonlinear_arith);
    }
}

/// A number modulo `n` is its own first power.
pub proof fn lemma_first_power(x: int, m: int, n: int)
    requires
        order_divides(x, m, n),
        m > 1,
        0 <= x < n,
    ensures
        xpow(x, 1, m, n) == x,
{
    vstd::arithmetic::div_mod::lemma_small_mod(1, m as nat);
    lemma_pow1(x);
    vstd::arithmetic::div_mod::lemma_small_mod(x as nat, n as nat);
}

/// The exponent of the first `k` factors.
spec fn exponent_sum(lam: Seq<int>, shares: Seq<int>, delta: int, k: int) -> int
    decreases k,
{
    if k <= 0 {
        0
    } else {
        exponent_sum(lam, shares, delta, k - 1) + (2 * delta * shares[k - 1]) * (2 * lam[k - 1])
    }
}

proof fn lemma_exponent_sum(lam: Seq<int>, shares: Seq<int>, delta: int, k: int)
    ensures
        exponent_sum(lam, shares, delta, k) == 4 * delta * dot(lam, shares, k),
    decreases k,
{
    if k > 0 {
        lemma_exponent_sum(lam, shares, delta, k - 1);
        let d = dot(lam, shares, k - 1);
        let (l, s) = (lam[k - 1], shares[k - 1]);
        assert(4 * delta * d + (2 * delta * s) * (2 * l) == 4 * delta * (d + l * s))
            by (nonlinear_arith);
    } else {
        assert(4 * delta * 0 == 0) by (nonlinear_arith);
    }
}

proof fn lemma_dot_congruent(
    lam: Seq<int>,
    shares: Seq<int>,
    ids: Seq<u32>,
    c: Seq<int>,
    m: int,
    k: int,
)
    requires
        m > 0,
        0 <= k <= ids.len(),
        forall|i: int| 0 <= i < ids.len() ==> #[trigger] shares[i] == eval(c, ids[i] as int) % m,
    ensures
        eqm(dot(lam, shares, k), weighted(lam, points(ids), c, k), m),
    decreases k,
{
    if k > 0 {
        lemma_dot_congruent(lam, shares, ids, c, m, k - 1);
        let y = eval(c, ids[k - 1] as int);
        assert(shares[k - 1] == y % m);
        lemma_eqm_mod(y, m);
        lemma_eqm_mul(lam[k - 1], lam[k - 1], y % m, y, m);
        lemma_eqm_add(
            dot(lam, shares, k - 1),
            weighted(lam, points(ids), c, k - 1),
            lam[k - 1] * (y % m),
            lam[k - 1] * y,
            m,
        );
    }
}

proof fn lemma_combined(
    x: int,
    m: int,
    n: int,
    delta: int,
    ids: Seq<u32>,
    values: Seq<int>,
    shares: Seq<int>,
    lam: Seq<int>,
    k: int,
)
    requires
        order_divides(x, m, n),
        0 <= k <= ids.len(),
        values.len() == ids.len(),
        lam.len() == ids.len(),
        forall|i: int|
            0 <= i < ids.len() ==> #[trigger] values[i] == xpow(x, 2 * delta * shares[i], m, n),
        forall|i: int| 0 <= i < ids.len() ==> #[trigger] lam[i] == lambda_of(delta, ids[i], ids),
    ensures
        combined_powers(ids, values, delta, n, k) == Some(
            xpow(x, exponent_sum(lam, shares, delta, k), m, n),
        ),
    decreases k,
{
    if k == 0 {
        vstd::arithmetic::div_mod::lemma_small_mod(0, m as nat);
        lemma_pow0(x);
        vstd::arithmetic::div_mod::lemma_small_mod(1, n as nat);
    } else {
        lemma_combined(x, m, n, delta, ids, values, shares, lam, k - 1);
        let e = exponent_sum(lam, shares, delta, k - 1);
        let j = 2 * delta * shares[k - 1];
        assert(values[k - 1] == xpow(x, j, m, n));
        assert(lam[k - 1] == lambda_of(delta, ids[k - 1], ids));
        lemma_signed_power_of(x, j, 2 * lam[k - 1], m, n);
        lemma_product(x, e, j * (2 * lam[k - 1]), m, n);
    }
}

/// Partial signatures from at least as many distinct servers as the sharing polynomial
/// has coefficients combine to a signature that verifies. The representative is below
/// the modulus and its order divides `2 * m`, as that of every number without a common
/// divisor with a product of two safe primes does; the public exponent has an inverse
/// modulo `m` and none of its divisors divides `2 * delta`.
#[verifier::rlimit(60)]
pub proof fn threshold_signature_verifies(
    n: int,
    e: int,
    m: int,
    delta: int,
    c: Seq<int>,
    ids: Seq<u32>,
    rep: int,
    values: Seq<int>,
)
    requires
        m > 0,
        order_divides(rep, 2 * m, n),
        0 <= rep < n,
        e > 0,
        delta >= 0,
        c.len() > 0,
        is_inverse(e, eval(c, 0) % m, m),
        invertible((4 * delta * delta) % e, e),
        distinct(ids),
        c.len() <= ids.len(),
        values.len() == ids.len(),
        forall|i: int| 0 <= i < ids.len() ==> clears(delta, #[trigger] ids[i], ids),
        forall|i: int|
            0 <= i < ids.len() ==> #[trigger] values[i] == pow(
                rep,
                (2 * delta * (eval(c, ids[i] as int) % m)) as nat,
            ) % n,
    ensures
        combined_signature(n, e, delta, rep, ids, values) matches Some(y) && 0 <= y < n && pow(
            y,
            e as nat,
        ) % n == rep,
{
    let mm = 2 * m;
    let k = ids.len() as int;
    let four = 4 * delta * delta;
    let lam = Seq::new(ids.len(), |i: int| lambda_of(delta, ids[i], ids));
    let shares = Seq::new(ids.len(), |i: int| eval(c, ids[i] as int) % m);
    assert forall|i: int| 0 <= i < ids.len() implies is_lambda(
        #[trigger] lam[i],
        delta,
        ids[i],
        ids,
    ) by {
        assert(clears(delta, ids[i], ids));
    }
    assert forall|i: int| 0 <= i < ids.len() implies #[trigger] values[i] == xpow(
        rep,
        2 * delta * shares[i],
        mm,
        n,
    ) by {
        let s = eval(c, ids[i] as int) % m;
        vstd::arithmetic::div_mod::lemma_mod_bound(eval(c, ids[i] as int), m);
        assert(2 * delta * s >= 0) by (nonlinear_arith)
            requires
                delta >= 0,
                s >= 0,
        ;
        lemma_natural(rep, (2 * delta * s) as nat, mm, n);
    }
    lemma_combined(rep, mm, n, delta, ids, values, shares, lam, k);
    lemma_exponent_sum(lam, shares, delta, k);
    lemma_dot_congruent(lam, shares, ids, c, m, k);
    scaled_coefficients_recover(lam, ids, c, delta);
    let d = eval(c, 0);
    let sum = dot(lam, shares, k);
    // The exponent of the product is congruent to `four * d`.
    assert(eqm(sum, delta * d, m));
    lemma_eqm_sub(sum, delta * d, delta * d, delta * d, m);
    let t = (sum - delta * d) / m;
    vstd::arithmetic::div_mod::lemma_fundamental_div_mod(sum - delta * d, m);
    assert(sum == delta * d + m * t);
    assert(4 * delta * sum == four * d + mm * (2 * delta * t)) by (nonlinear_arith)
        requires
            sum == delta * d + m * t,
            four == 4 * delta * delta,
            mm == 2 * m,
    ;
    vstd::arithmetic::div_mod::lemma_mod_multiples_vanish(2 * delta * t, four * d, mm);
    lemma_periodic(rep, 4 * delta * sum, four * d, mm, n);
    let w = xpow(rep, four * d, mm, n);
    assert(combined_powers(ids, values, delta, n, k) == Some(w));
    // The factors with which `four` and the public exponent combine to one.
    let a = inverse_mod(four % e, e);
    assert(is_inverse(four % e, a, e));
    lemma_eqm_mod(four, e);
    lemma_eqm_mul(four % e, four, a, a, e);
    assert(eqm(four * a, 1, e));
    lemma_eqm_sub(1, 1, four * a, 1, e);
    let b = (1 - four * a) / e;
    vstd::arithmetic::div_mod::lemma_fundamental_div_mod(1 - four * a, e);
    assert(1 - four * a == e * b);
    assert(b * e == 1 - four * a) by (nonlinear_arith)
        requires
            1 - four * a == e * b,
    ;
    crate::paper_math::lemma_exact_quotient(1 - four * a, e, b);
    lemma_first_power(rep, mm, n);
    lemma_signed_power_of(rep, 1, b, mm, n);
    assert(1 * b == b);
    lemma_power(rep, four * d, a as nat, mm, n);
    lemma_product(rep, (four * d) * a, b, mm, n);
    let j = (four * d) * a + b;
    let y = xpow(rep, j, mm, n);
    vstd::arithmetic::div_mod::lemma_mod_bound(pow(rep, (j % mm) as nat), n);
    lemma_power(rep, j, e as nat, mm, n);
    // The exponent of the power is congruent to one.
    lemma_eqm_mod(d, m);
    lemma_eqm_mul(e, e, d % m, d, m);
    assert(eqm(e * d, 1, m));
    lemma_eqm_sub(e * d, 1, 1, 1, m);
    let u = (e * d - 1) / m;
    vstd::arithmetic::div_mod::lemma_fundamental_div_mod(e * d - 1, m);
    assert(e * d == 1 + m * u);
    assert(j * e == 1 + mm * ((2 * delta * delta) * a * u)) by {
        assert(((four * d) * a) * e == (four * a) * (e * d)) by (nonlinear_arith);
        assert(((four * d) * a + b) * e == ((four * d) * a) * e + b * e) by (nonlinear_arith);
        assert((four * a) * (1 + m * u) == four * a + (four * a) * (m * u)) by (nonlinear_arith);
        assert((four * a) * (m * u) == mm * ((2 * delta * delta) * a * u)) by (nonlinear_arith)
            requires
                four == 4 * delta * delta,
                mm == 2 * m,
        ;
    }
    vstd::arithmetic::div_mod::lemma_mod_multiples_vanish((2 * delta * delta) * a * u, 1, mm);
    lemma_periodic(rep, j * e, 1, mm, n);
}

} // verus!
