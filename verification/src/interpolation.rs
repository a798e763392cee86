//! Polynomials over the integers modulo `m` and their recovery from values.
use vstd::prelude::*;

use crate::modular::{eqm, lemma_eqm_add, lemma_eqm_mul};

verus! {

/// The value at `x` of the polynomial with coefficients `c`, constant term first.
pub open spec fn eval(c: Seq<int>, x: int) -> int
    decreases c.len(),
{
    if c.len() == 0 {
        0
    } else {
        c[0] + x * eval(c.drop_first(), x)
    }
}

/// The product of all points but the one at index `i`.
pub open spec fn others_product(xs: Seq<int>, i: int) -> int
    decreases xs.len(),
{
    if xs.len() == 0 {
        1
    } else {
        others_product(xs.drop_last(), i) * (if xs.len() - 1 == i {
            1
        } else {
            xs.last()
        })
    }
}

/// The product of the distances from `x` to all points but the one at index `i`.
pub open spec fn others_distance(xs: Seq<int>, i: int, x: int) -> int
    decreases xs.len(),
{
    if xs.len() == 0 {
        1
    } else {
        others_distance(xs.drop_last(), i, x) * (if xs.len() - 1 == i {
            1
        } else {
            xs.last() - x
        })
    }
}

/// The first `k` terms of the sum of `lam[i] * c(xs[i])`.
pub open spec fn weighted(lam: Seq<int>, xs: Seq<int>, c: Seq<int>, k: int) -> int
    decreases k,
{
    if k <= 0 {
        0
    } else {
        weighted(lam, xs, c, k - 1) + lam[k - 1] * eval(c, xs[k - 1])
    }
}

/// The first `k` terms of the sum of `lam[i] * ys[i]`.
pub open spec fn dot(lam: Seq<int>, ys: Seq<int>, k: int) -> int
    decreases k,
{
    if k <= 0 {
        0
    } else {
        dot(lam, ys, k - 1) + lam[k - 1] * ys[k - 1]
    }
}

/// `lam` are the weights with which the values of a polynomial at `xs` give its
/// value at zero: each weight is the product of the other points, divided modulo
/// `m` by the product of their distances from its own.
pub open spec fn are_weights(lam: Seq<int>, xs: Seq<int>, m: int) -> bool {
    &&& lam.len() == xs.len()
    &&& forall|i: int|
        0 <= i < xs.len() ==> is_ratio(
            #[trigger] lam[i],
            others_product(xs, i),
            others_distance(xs, i, xs[i]),
            m,
        )
}

/// `l` is `num` times an inverse of `den` modulo `m`.
pub open spec fn is_ratio(l: int, num: int, den: int, m: int) -> bool {
    exists|inv: int| is_ratio_by(l, num, den, m, inv)
}

/// `inv` is an inverse of `den` modulo `m`, and `l` is `num` times it.
pub open spec fn is_ratio_by(l: int, num: int, den: int, m: int, inv: int) -> bool {
    &&& eqm(den * inv, 1, m)
    &&& eqm(l, num * inv, m)
}

/// The quotient of `c - c(a)` by `x - a`.
spec fn quotient(c: Seq<int>, a: int) -> Seq<int>
    decreases c.len(),
{
    if c.len() <= 1 {
        Seq::empty()
    } else {
        seq![eval(c.drop_first(), a)] + quotient(c.drop_first(), a)
    }
}

proof fn lemma_quotient(c: Seq<int>, a: int, x: int)
    ensures
        eval(c, x) - eval(c, a) == (x - a) * eval(quotient(c, a), x),
        quotient(c, a).len() == if c.len() == 0 {
            0
        } else {
            c.len() - 1
        },
    decreases c.len(),
{
    if c.len() == 0 {
        assert((x - a) * 0 == 0);
    } else {
        let t = c.drop_first();
        lemma_quotient(t, a, x);
        if c.len() == 1 {
            assert(eval(t, x) == 0 && eval(t, a) == 0);
            assert(x * 0 == 0 && a * 0 == 0);
            assert(eval(quotient(c, a), x) == 0);
            assert((x - a) * 0 == 0);
        } else {
            let q = quotient(c, a);
            assert(q.drop_first() =~= quotient(t, a));
            assert(q[0] == eval(t, a));
            let g = eval(quotient(t, a), x);
            let tx = eval(t, x);
            let ta = eval(t, a);
            assert((c[0] + x * tx) - (c[0] + a * ta) == (x - a) * (ta + x * g))
                by (nonlinear_arith)
                requires
                    tx - ta == (x - a) * g,
            {
                assert(x * tx - a * ta == x * (tx - ta) + (x - a) * ta) by (nonlinear_arith);
                assert(x * ((x - a) * g) + (x - a) * ta == (x - a) * (ta + x * g))
                    by (nonlinear_arith);
            }
        }
    }
}

/// The coefficients of `(r - x) * c(x)`.
spec fn times_linear(c: Seq<int>, r: int) -> Seq<int>
    decreases c.len(),
{
    if c.len() == 0 {
        seq![0int]
    } else {
        let t = times_linear(c.drop_first(), r);
        seq![r * c[0]] + t.update(0, t[0] - c[0])
    }
}

proof fn lemma_times_linear(c: Seq<int>, r: int, x: int)
    ensures
        eval(times_linear(c, r), x) == (r - x) * eval(c, x),
        times_linear(c, r).len() == c.len() + 1,
    decreases c.len(),
{
    if c.len() == 0 {
        let z = seq![0int];
        assert(z.drop_first() =~= Seq::empty());
        assert(eval(z.drop_first(), x) == 0);
        assert(x * 0 == 0 && (r - x) * 0 == 0);
    } else {
        let tail = c.drop_first();
        lemma_times_linear(tail, r, x);
        let t = times_linear(tail, r);
        let u = t.update(0, t[0] - c[0]);
        assert(u.drop_first() =~= t.drop_first());
        assert(eval(u, x) == eval(t, x) - c[0]);
        let p = times_linear(c, r);
        assert(p.drop_first() =~= u);
        assert(p[0] == r * c[0]);
        let e = eval(tail, x);
        let c0 = c[0];
        assert(r * c0 + x * ((r - x) * e - c0) == (r - x) * (c0 + x * e)) by (nonlinear_arith);
    }
}

/// The coefficients of the product of `xs[j] - x` over all points.
spec fn vanishing(xs: Seq<int>) -> Seq<int>
    decreases xs.len(),
{
    if xs.len() == 0 {
        seq![1int]
    } else {
        times_linear(vanishing(xs.drop_last()), xs.last())
    }
}

proof fn lemma_vanishing(xs: Seq<int>, x: int)
    ensures
        eval(vanishing(xs), x) == others_distance(xs, -1, x),
        vanishing(xs).len() == xs.len() + 1,
    decreases xs.len(),
{
    if xs.len() == 0 {
        let o = seq![1int];
        assert(o.drop_first() =~= Seq::empty());
        assert(eval(o.drop_first(), x) == 0);
        assert(x * 0 == 0);
    } else {
        let ys = xs.drop_last();
        lemma_vanishing(ys, x);
        lemma_times_linear(vanishing(ys), xs.last(), x);
        let d = others_distance(ys, -1, x);
        let l = xs.last();
        assert((l - x) * d == d * (l - x)) by (nonlinear_arith);
    }
}

proof fn lemma_vanishing_root(xs: Seq<int>, i: int)
    requires
        0 <= i < xs.len(),
    ensures
        others_distance(xs, -1, xs[i]) == 0,
    decreases xs.len(),
{
    let ys = xs.drop_last();
    let d = others_distance(ys, -1, xs[i]);
    if i == xs.len() - 1 {
        assert(d * 0 == 0);
    } else {
        lemma_vanishing_root(ys, i);
        let l = xs.last() - xs[i];
        assert(0 * l == 0);
    }
}

/// Leaving out an index past the end leaves nothing out.
proof fn lemma_skip_past_end(xs: Seq<int>, i: int, x: int)
    requires
        i >= xs.len(),
    ensures
        others_distance(xs, i, x) == others_distance(xs, -1, x),
        others_product(xs, i) == others_distance(xs, -1, 0),
    decreases xs.len(),
{
    if xs.len() > 0 {
        lemma_skip_past_end(xs.drop_last(), i, x);
    }
}

/// The sum of the first `k` weights.
spec fn weight_sum(lam: Seq<int>, k: int) -> int
    decreases k,
{
    if k <= 0 {
        0
    } else {
        weight_sum(lam, k - 1) + lam[k - 1]
    }
}

/// `-a * sum(mu[i] * g(xs[i]))` against `sum(lam[i] * (c(xs[i]) - c(a)))`, term by term.
proof fn lemma_terms(
    lam: Seq<int>,
    mu: Seq<int>,
    xs: Seq<int>,
    c: Seq<int>,
    a: int,
    m: int,
    k: int,
)
    requires
        m > 0,
        0 <= k <= xs.len(),
        k <= lam.len(),
        k <= mu.len(),
        forall|i: int| 0 <= i < k ==> eqm(#[trigger] (a * mu[i]), lam[i] * (a - xs[i]), m),
    ensures
        eqm(
            -a * weighted(mu, xs, quotient(c, a), k),
            weighted(lam, xs, c, k) - eval(c, a) * weight_sum(lam, k),
            m,
        ),
    decreases k,
{
    if k == 0 {
        assert(-a * 0 == 0);
        assert(eval(c, a) * 0 == 0);
    } else {
        lemma_terms(lam, mu, xs, c, a, m, k - 1);
        let q = quotient(c, a);
        let x = xs[k - 1];
        let g = eval(q, x);
        let l = lam[k - 1];
        let u = mu[k - 1];
        let fx = eval(c, x);
        let fa = eval(c, a);
        lemma_quotient(c, a, x);
        assert(eqm(a * mu[k - 1], l * (a - x), m));
        lemma_eqm_mul(a * u, l * (a - x), -g, -g, m);
        assert((a * u) * (-g) == -a * (u * g)) by (nonlinear_arith);
        assert((l * (a - x)) * (-g) == l * ((x - a) * g)) by (nonlinear_arith);
        assert(l * (fx - fa) == l * fx - fa * l) by (nonlinear_arith);
        assert(eqm(-a * (u * g), l * fx - fa * l, m));
        let w1 = weighted(mu, xs, q, k - 1);
        let w2 = weighted(lam, xs, c, k - 1);
        let s = weight_sum(lam, k - 1);
        lemma_eqm_add(-a * w1, w2 - fa * s, -a * (u * g), l * fx - fa * l, m);
        assert(-a * w1 + -a * (u * g) == -a * (w1 + u * g)) by (nonlinear_arith);
        assert((w2 - fa * s) + (l * fx - fa * l) == (w2 + l * fx) - fa * (s + l))
            by (nonlinear_arith);
    }
}

/// Weights of all points, and of all points but the last.
proof fn lemma_fewer_weights(lam: Seq<int>, xs: Seq<int>, m: int) -> (mu: Seq<int>)
    requires
        m > 0,
        xs.len() > 0,
        are_weights(lam, xs, m),
    ensures
        are_weights(mu, xs.drop_last(), m),
        forall|i: int|
            0 <= i < xs.len() - 1 ==> eqm(
                #[trigger] (xs.last() * mu[i]),
                lam[i] * (xs.last() - xs[i]),
                m,
            ),
{
    let ys = xs.drop_last();
    let a = xs.last();
    let mu = Seq::new(
        ys.len(),
        |i: int|
            {
                let inv = choose|inv: int| is_ratio_by(lam[i], others_product(xs, i), others_distance(xs, i, xs[i]), m, inv);
                others_product(ys, i) * (inv * (a - xs[i]))
            },
    );
    assert forall|i: int| 0 <= i < ys.len() implies is_ratio(
        #[trigger] mu[i],
        others_product(ys, i),
        others_distance(ys, i, ys[i]),
        m,
    ) by {
        assert(is_ratio(lam[i], others_product(xs, i), others_distance(xs, i, xs[i]), m));
        let inv = choose|inv: int| is_ratio_by(lam[i], others_product(xs, i), others_distance(xs, i, xs[i]), m, inv);
        let less = inv * (a - xs[i]);
        let d = others_distance(ys, i, xs[i]);
        assert(ys[i] == xs[i]);
        assert(others_distance(xs, i, xs[i]) == d * (a - xs[i]));
        assert((d * (a - xs[i])) * inv == d * less) by (nonlinear_arith)
            requires
                less == inv * (a - xs[i]),
        ;
        assert(eqm(others_distance(ys, i, ys[i]) * less, 1, m));
        assert(mu[i] == others_product(ys, i) * less);
        assert(is_ratio_by(mu[i], others_product(ys, i), others_distance(ys, i, ys[i]), m, less));
    }
    assert forall|i: int| 0 <= i < xs.len() - 1 implies eqm(
        #[trigger] (xs.last() * mu[i]),
        lam[i] * (xs.last() - xs[i]),
        m,
    ) by {
        assert(is_ratio(lam[i], others_product(xs, i), others_distance(xs, i, xs[i]), m));
        let inv = choose|inv: int| is_ratio_by(lam[i], others_product(xs, i), others_distance(xs, i, xs[i]), m, inv);
        let p = others_product(ys, i);
        assert(others_product(xs, i) == p * a);
        let d = a - xs[i];
        lemma_eqm_mul(lam[i], (p * a) * inv, d, d, m);
        assert(a * (p * (inv * d)) == ((p * a) * inv) * d) by (nonlinear_arith);
    }
    mu
}

/// The value at zero, from the value at the last point and the distances to it.
proof fn lemma_from_last(lam: Seq<int>, xs: Seq<int>, c: Seq<int>, m: int)
    requires
        m > 0,
        xs.len() > 0,
        are_weights(lam, xs, m),
        c.len() <= xs.len(),
    ensures
        eqm(
            eval(c, 0),
            eval(c, xs.last()) + weighted(lam, xs, c, xs.len() - 1) - eval(c, xs.last())
                * weight_sum(lam, xs.len() - 1),
            m,
        ),
    decreases xs.len(), 0int,
{
    let ys = xs.drop_last();
    let a = xs.last();
    let k = xs.len() - 1;
    let mu = lemma_fewer_weights(lam, xs, m);
    let q = quotient(c, a);
    lemma_quotient(c, a, 0);
    lemma_interpolation(mu, ys, q, m);
    lemma_terms(lam, mu, xs, c, a, m, k);
    lemma_weighted_prefix(mu, ys, xs, q, k);
    let g0 = eval(q, 0);
    let wq = weighted(mu, xs, q, k);
    let rhs = weighted(lam, xs, c, k) - eval(c, a) * weight_sum(lam, k);
    lemma_eqm_mul(-a, -a, g0, wq, m);
    assert((0 - a) * g0 == -a * g0);
    assert(eqm(-a * g0, rhs, m));
    lemma_eqm_add(eval(c, a), eval(c, a), -a * g0, rhs, m);
}

proof fn lemma_weighted_prefix(lam: Seq<int>, ys: Seq<int>, xs: Seq<int>, c: Seq<int>, k: int)
    requires
        k <= ys.len(),
        k <= xs.len(),
        forall|i: int| 0 <= i < k ==> ys[i] == xs[i],
    ensures
        weighted(lam, ys, c, k) == weighted(lam, xs, c, k),
    decreases k,
{
    if k > 0 {
        lemma_weighted_prefix(lam, ys, xs, c, k - 1);
    }
}

proof fn lemma_weighted_roots(lam: Seq<int>, xs: Seq<int>, c: Seq<int>, k: int)
    requires
        forall|i: int| 0 <= i < k ==> eval(c, #[trigger] xs[i]) == 0,
    ensures
        weighted(lam, xs, c, k) == 0,
    decreases k,
{
    if k > 0 {
        lemma_weighted_roots(lam, xs, c, k - 1);
        assert(eval(c, xs[k - 1]) == 0);
        assert(lam[k - 1] * 0 == 0);
    }
}

/// A polynomial with at most as many coefficients as there are points has at zero
/// the value that the weighted sum of its values at the points gives.
pub proof fn lemma_interpolation(lam: Seq<int>, xs: Seq<int>, c: Seq<int>, m: int)
    requires
        m > 0,
        are_weights(lam, xs, m),
        c.len() <= xs.len(),
    ensures
        eqm(eval(c, 0), weighted(lam, xs, c, xs.len() as int), m),
    decreases xs.len(), 1int,
{
    if xs.len() > 0 {
        let n = xs.len() as int;
        let k = n - 1;
        let a = xs.last();
        let ys = xs.drop_last();
        let p = vanishing(ys);
        lemma_vanishing(ys, a);
        lemma_vanishing(ys, 0);
        lemma_from_last(lam, xs, p, m);
        assert forall|i: int| 0 <= i < k implies eval(p, #[trigger] xs[i]) == 0 by {
            lemma_vanishing(ys, xs[i]);
            lemma_vanishing_root(ys, i);
            assert(ys[i] == xs[i]);
        }
        lemma_weighted_roots(lam, xs, p, k);
        lemma_skip_past_end(ys, k, a);
        let s = weight_sum(lam, k);
        let den = others_distance(xs, k, a);
        let num = others_product(xs, k);
        assert(den == others_distance(ys, k, a) * 1);
        assert(num == others_product(ys, k) * 1);
        assert(eval(p, a) == den);
        assert(eval(p, 0) == num);
        assert(eqm(num, den + 0 - den * s, m));
        assert(is_ratio(lam[k], others_product(xs, k), others_distance(xs, k, xs[k]), m));
        let inv = choose|inv: int| is_ratio_by(lam[k], others_product(xs, k), others_distance(xs, k, xs[k]), m, inv);
        lemma_eqm_mul(num, den - den * s, inv, inv, m);
        assert((den - den * s) * inv == (den * inv) * (1 - s)) by (nonlinear_arith);
        lemma_eqm_mul(den * inv, 1, 1 - s, 1 - s, m);
        assert(eqm(lam[k], 1 - s, m));
        let fa = eval(c, a);
        let w = weighted(lam, xs, c, k);
        lemma_from_last(lam, xs, c, m);
        lemma_eqm_mul(lam[k], 1 - s, fa, fa, m);
        assert((1 - s) * fa == fa - fa * s) by (nonlinear_arith);
        lemma_eqm_add(w, w, lam[k] * fa, fa - fa * s, m);
    }
}

} // verus!
