//! Congruence of integers.
use vstd::arithmetic::div_mod::*;
use vstd::arithmetic::mul::*;
use vstd::prelude::*;

verus! {

/// `a` and `b` leave the same remainder on division by `m`.
pub open spec fn eqm(a: int, b: int, m: int) -> bool {
    a % m == b % m
}

pub proof fn lemma_eqm_add(a: int, b: int, c: int, d: int, m: int)
    requires
        m > 0,
        eqm(a, b, m),
        eqm(c, d, m),
    ensures
        eqm(a + c, b + d, m),
{
    lemma_add_mod_noop(a, c, m);
    lemma_add_mod_noop(b, d, m);
}

pub proof fn lemma_eqm_sub(a: int, b: int, c: int, d: int, m: int)
    requires
        m > 0,
        eqm(a, b, m),
        eqm(c, d, m),
    ensures
        eqm(a - c, b - d, m),
{
    lemma_sub_mod_noop(a, c, m);
    lemma_sub_mod_noop(b, d, m);
}

pub proof fn lemma_eqm_mul(a: int, b: int, c: int, d: int, m: int)
    requires
        m > 0,
        eqm(a, b, m),
        eqm(c, d, m),
    ensures
        eqm(a * c, b * d, m),
{
    lemma_mul_mod_noop(a, c, m);
    lemma_mul_mod_noop(b, d, m);
}

/// A number is congruent to its remainder.
pub proof fn lemma_eqm_mod(a: int, m: int)
    requires
        m > 0,
    ensures
        eqm(a % m, a, m),
        0 <= a % m < m,
{
    lemma_mod_twice(a, m);
    lemma_mod_bound(a, m);
}

/// Congruent remainders are equal.
pub proof fn lemma_eqm_small(a: int, b: int, m: int)
    requires
        m > 0,
        0 <= a < m,
        0 <= b < m,
        eqm(a, b, m),
    ensures
        a == b,
{
    lemma_small_mod(a as nat, m as nat);
    lemma_small_mod(b as nat, m as nat);
}

} // verus!
