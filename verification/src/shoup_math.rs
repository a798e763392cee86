//! Why factorials clear the denominators of interpolation, and what the cleared
//! coefficients recover.
use vstd::prelude::*;

use crate::field::{distinct, points};
use crate::interpolation::{
    are_weights, eval, is_ratio_by, lemma_interpolation, others_distance, others_product, weighted,
};
use crate::modular::{eqm, lemma_eqm_add, lemma_eqm_mul};
use crate::paper_math::{clears, fact, id_distance, id_product, is_lambda, lemma_distance_nonzero};

verus! {

/// The number of ways to choose `k` of `n` things.
pub open spec fn binomial(n: nat, k: nat) -> nat
    decreases n,
{
    if k == 0 {
        1
    } else if n == 0 {
        0
    } else {
        binomial((n - 1) as nat, (k - 1) as nat) + binomial((n - 1) as nat, k)
    }
}

pub proof fn lemma_binomial_small(n: nat, k: nat)
    requires
        n < k,
    ensures
        binomial(n, k) == 0,
    decreases n,
{
    if n > 0 {
        lemma_binomial_small((n - 1) as nat, (k - 1) as nat);
        lemma_binomial_small((n - 1) as nat, k);
    }
}

proof fn lemma_pascal(
    b1: int,
    b2: int,
    k: int,
    n: int,
    fk1: int,
    fr: int,
    fr1: int,
    fm: int,
)
    requires
        b1 * (fk1 * fr) == fm,
        b2 * ((k * fk1) * fr1) == fm,
        fr == (n - k) * fr1,
    ensures
        (b1 + b2) * ((k * fk1) * fr) == n * fm,
{
    assert(b1 * ((k * fk1) * fr) == k * (b1 * (fk1 * fr))) by (nonlinear_arith);
    let d = n - k;
    assert(b2 * ((k * fk1) * (d * fr1)) == d * (b2 * ((k * fk1) * fr1))) by (nonlinear_arith);
    assert(k * fm + d * fm == (k + d) * fm) by (nonlinear_arith);
    let x = (k * fk1) * fr;
    assert((b1 + b2) * x == b1 * x + b2 * x) by (nonlinear_arith);
}

/// The factorials of the parts of a number divide its factorial.
pub proof fn lemma_binomial(n: nat, k: nat)
    requires
        k <= n,
    ensures
        binomial(n, k) * (fact(k) * fact((n - k) as nat)) == fact(n),
    decreases n,
{
    reveal_with_fuel(fact, 2);
    if k == 0 {
        let f = fact(n);
        assert(1 * (1 * f) == f) by (nonlinear_arith);
    } else if k == n {
        lemma_binomial((n - 1) as nat, (n - 1) as nat);
        lemma_binomial_small((n - 1) as nat, n);
        let b = binomial((n - 1) as nat, (n - 1) as nat);
        let f = fact((n - 1) as nat);
        assert(fact(0) == 1);
        assert((b + 0) * ((n * f) * 1) == n * (b * (f * 1))) by (nonlinear_arith);
    } else {
        let m = (n - 1) as nat;
        lemma_binomial(m, (k - 1) as nat);
        lemma_binomial(m, k);
        let b1 = binomial(m, (k - 1) as nat);
        let b2 = binomial(m, k);
        let fk1 = fact((k - 1) as nat);
        let fr = fact((n - k) as nat);
        let fr1 = fact((m - k) as nat);
        let fm = fact(m);
        assert(fact(k) == k * fk1);
        assert(fr == (n - k) * fr1);
        assert(m - (k - 1) == n - k);
        assert(b1 * (fk1 * fr) == fm);
        assert(b2 * ((k * fk1) * fr1) == fm);
        lemma_pascal(
            b1 as int,
            b2 as int,
            k as int,
            n as int,
            fk1 as int,
            fr as int,
            fr1 as int,
            fm as int,
        );
    }
}

/// The product of `j - i` over all `j` from one to `n` but `i`.
spec fn all_distances(n: nat, i: int) -> int
    decreases n,
{
    if n == 0 {
        1
    } else {
        all_distances((n - 1) as nat, i) * (if n == i {
            1
        } else {
            n - i
        })
    }
}

/// The distances below `i`, multiplied by what is left of the factorial.
proof fn lemma_distances_below(k: nat, i: nat) -> (s: int)
    requires
        k < i,
    ensures
        s == 1 || s == -1,
        all_distances(k, i as int) * fact((i - 1 - k) as nat) == s * fact((i - 1) as nat),
    decreases k,
{
    reveal_with_fuel(fact, 2);
    if k == 0 {
        let f = fact((i - 1) as nat);
        assert(1 * f == f);
        1
    } else {
        let s = lemma_distances_below((k - 1) as nat, i);
        let a = all_distances((k - 1) as nat, i as int);
        let f = fact((i - 1 - k) as nat) as int;
        let g = fact((i - k) as nat) as int;
        let top = fact((i - 1) as nat) as int;
        assert(g == (i - k) * f);
        assert((a * (k - i)) * f == -(a * ((i - k) * f))) by (nonlinear_arith);
        assert(-(s * top) == (-s) * top) by (nonlinear_arith);
        -s
    }
}

proof fn lemma_distances(n: nat, i: nat) -> (s: int)
    requires
        1 <= i <= n,
    ensures
        s == 1 || s == -1,
        all_distances(n, i as int) == s * (fact((i - 1) as nat) * fact((n - i) as nat)),
    decreases n,
{
    reveal_with_fuel(fact, 2);
    if n == i {
        let s = lemma_distances_below((n - 1) as nat, i);
        let a = all_distances((n - 1) as nat, i as int);
        assert(fact(0) == 1);
        assert(a * 1 == a);
        let f = fact((i - 1) as nat) as int;
        assert(s * f == s * (f * 1)) by (nonlinear_arith);
        s
    } else {
        let s = lemma_distances((n - 1) as nat, i);
        let f = fact((i - 1) as nat) as int;
        let g = fact((n - 1 - i) as nat) as int;
        let h = fact((n - i) as nat) as int;
        assert(h == (n - i) * g);
        assert((s * (f * g)) * (n - i) == s * (f * ((n - i) * g))) by (nonlinear_arith);
        s
    }
}

/// The product of all distances divides the factorial.
proof fn lemma_distances_divide(n: nat, i: nat) -> (k: int)
    requires
        1 <= i <= n,
    ensures
        k * all_distances(n, i as int) == fact(n),
{
    let s = lemma_distances(n, i);
    lemma_binomial(n, i);
    reveal_with_fuel(fact, 2);
    let b = binomial(n, i) as int;
    let f = fact((i - 1) as nat) as int;
    let g = fact((n - i) as nat) as int;
    let top = fact(n) as int;
    assert(fact(i) == i * f);
    assert(b * ((i * f) * g) == top);
    let k = s * (b * i);
    assert(k * (s * (f * g)) == top) by (nonlinear_arith)
        requires
            k == s * (b * i),
            s == 1 || s == -1,
            b * ((i * f) * g) == top,
    ;
    k
}

/// Taking an identifier out of the list takes its factor out of the product.
proof fn lemma_distance_remove(ids: Seq<u32>, id: u32, p: int)
    requires
        0 <= p < ids.len(),
    ensures
        id_distance(ids, id) == id_distance(ids.remove(p), id) * (if ids[p] == id {
            1
        } else {
            ids[p] - id
        }),
    decreases ids.len(),
{
    let f = if ids[p] == id {
        1
    } else {
        ids[p] - id
    };
    if p == ids.len() - 1 {
        assert(ids.remove(p) =~= ids.drop_last());
    } else {
        let front = ids.drop_last();
        lemma_distance_remove(front, id, p);
        assert(front[p] == ids[p]);
        assert(ids.remove(p).drop_last() =~= front.remove(p));
        assert(ids.remove(p).last() == ids.last());
        let a = id_distance(front.remove(p), id);
        let l = if ids.last() == id {
            1
        } else {
            ids.last() - id
        };
        assert((a * f) * l == (a * l) * f) by (nonlinear_arith);
    }
}

/// The distances within a list divide the distances within the whole range.
proof fn lemma_part_divides(ids: Seq<u32>, id: u32, n: nat) -> (k: int)
    requires
        distinct(ids),
        forall|j: int| 0 <= j < ids.len() ==> 1 <= #[trigger] ids[j] <= n,
    ensures
        k * id_distance(ids, id) == all_distances(n, id as int),
    decreases n,
{
    if n == 0 {
        assert(ids.len() == 0) by {
            if ids.len() > 0 {
                assert(1 <= ids[0] <= n);
            }
        }
        1
    } else {
        let m = (n - 1) as nat;
        let f = if n == id {
            1
        } else {
            n - id
        };
        if exists|p: int| 0 <= p < ids.len() && #[trigger] ids[p] == n {
            let p = choose|p: int| 0 <= p < ids.len() && #[trigger] ids[p] == n;
            let rest = ids.remove(p);
            assert forall|j: int| 0 <= j < rest.len() implies 1 <= #[trigger] rest[j] <= m by {
                let q = if j < p {
                    j
                } else {
                    j + 1
                };
                assert(rest[j] == ids[q]);
                assert(ids[q] != ids[p]) by {
                    if q < p {
                        assert(ids[q] != ids[p]);
                    } else {
                        assert(ids[p] != ids[q]);
                    }
                }
            }
            assert(distinct(rest)) by {
                assert forall|a: int, b: int| 0 <= a < b < rest.len() implies rest[a] != rest[b] by {
                    let qa = if a < p {
                        a
                    } else {
                        a + 1
                    };
                    let qb = if b < p {
                        b
                    } else {
                        b + 1
                    };
                    assert(ids[qa] != ids[qb]);
                }
            }
            let k = lemma_part_divides(rest, id, m);
            lemma_distance_remove(ids, id, p);
            let d = id_distance(rest, id);
            assert(k * (d * f) == (k * d) * f) by (nonlinear_arith);
            k
        } else {
            assert forall|j: int| 0 <= j < ids.len() implies 1 <= #[trigger] ids[j] <= m by {
                assert(ids[j] != n);
            }
            let k = lemma_part_divides(ids, id, m);
            let d = id_distance(ids, id);
            assert((k * f) * d == (k * d) * f) by (nonlinear_arith);
            k * f
        }
    }
}

/// The factorial of the number of servers clears the denominators of interpolation, for
/// every list of distinct servers and every one of them.
pub proof fn factorial_clears_denominators(ids: Seq<u32>, id: u32, n: nat)
    requires
        distinct(ids),
        forall|j: int| 0 <= j < ids.len() ==> 1 <= #[trigger] ids[j] <= n,
        1 <= id <= n,
    ensures
        clears(fact(n) as int, id, ids),
{
    let k1 = lemma_part_divides(ids, id, n);
    let k2 = lemma_distances_divide(n, id as nat);
    let d = id_distance(ids, id);
    let a = all_distances(n, id as int);
    let p = id_product(ids, id);
    let top = fact(n) as int;
    let k = (k2 * k1) * p;
    assert(k * d == top * p) by (nonlinear_arith)
        requires
            k == (k2 * k1) * p,
            k1 * d == a,
            k2 * a == top,
    ;
    assert(is_lambda(k, top, id, ids));
}

pub proof fn lemma_same_products(ids: Seq<u32>, i: int)
    requires
        distinct(ids),
        0 <= i < ids.len(),
    ensures
        id_product(ids, ids[i]) == others_product(points(ids), i),
        id_distance(ids, ids[i]) == others_distance(points(ids), i, ids[i] as int),
{
    lemma_same_prefix_products(ids, i, ids.len() as int);
    assert(ids.take(ids.len() as int) =~= ids);
}

proof fn lemma_same_prefix_products(ids: Seq<u32>, i: int, k: int)
    requires
        distinct(ids),
        0 <= i < ids.len(),
        0 <= k <= ids.len(),
    ensures
        id_product(ids.take(k), ids[i]) == others_product(points(ids.take(k)), i),
        id_distance(ids.take(k), ids[i]) == others_distance(
            points(ids.take(k)),
            i,
            ids[i] as int,
        ),
    decreases k,
{
    if k > 0 {
        lemma_same_prefix_products(ids, i, k - 1);
        let t = ids.take(k);
        assert(t.drop_last() =~= ids.take(k - 1));
        assert(points(t).drop_last() =~= points(ids.take(k - 1)));
        assert(t.last() == ids[k - 1]);
        if k - 1 != i {
            if k - 1 < i {
                assert(ids[k - 1] != ids[i]);
            } else {
                assert(ids[i] != ids[k - 1]);
            }
        }
    }
}

/// The product of all denominators.
spec fn all_dens(ids: Seq<u32>, k: int) -> int
    decreases k,
{
    if k <= 0 {
        1
    } else {
        all_dens(ids, k - 1) * id_distance(ids, ids[k - 1])
    }
}

proof fn lemma_den_divides(ids: Seq<u32>, i: int, k: int) -> (c: int)
    requires
        0 <= i < k <= ids.len(),
    ensures
        c * id_distance(ids, ids[i]) == all_dens(ids, k),
    decreases k,
{
    let d = id_distance(ids, ids[k - 1]);
    if i == k - 1 {
        all_dens(ids, k - 1)
    } else {
        let c = lemma_den_divides(ids, i, k - 1);
        let e = id_distance(ids, ids[i]);
        assert((c * d) * e == (c * e) * d) by (nonlinear_arith);
        c * d
    }
}

proof fn lemma_dens_nonzero(ids: Seq<u32>, k: int)
    requires
        0 <= k <= ids.len(),
    ensures
        all_dens(ids, k) != 0,
    decreases k,
{
    if k > 0 {
        lemma_dens_nonzero(ids, k - 1);
        lemma_distance_nonzero(ids, ids[k - 1]);
        let a = all_dens(ids, k - 1);
        let b = id_distance(ids, ids[k - 1]);
        assert(a * b != 0) by (nonlinear_arith)
            requires
                a != 0,
                b != 0,
        ;
    }
}

/// Scaled weights against weights modulo `m`.
proof fn lemma_scaled(
    lam: Seq<int>,
    mu: Seq<int>,
    xs: Seq<int>,
    c: Seq<int>,
    delta: int,
    m: int,
    k: int,
)
    requires
        m > 0,
        0 <= k <= xs.len(),
        lam.len() == xs.len(),
        mu.len() == xs.len(),
        forall|i: int| 0 <= i < k ==> eqm(#[trigger] lam[i], delta * mu[i], m),
    ensures
        eqm(weighted(lam, xs, c, k), delta * weighted(mu, xs, c, k), m),
    decreases k,
{
    if k > 0 {
        lemma_scaled(lam, mu, xs, c, delta, m, k - 1);
        let y = eval(c, xs[k - 1]);
        let u = mu[k - 1];
        let w = weighted(mu, xs, c, k - 1);
        assert(eqm(lam[k - 1], delta * u, m));
        lemma_eqm_mul(lam[k - 1], delta * u, y, y, m);
        lemma_eqm_add(
            weighted(lam, xs, c, k - 1),
            delta * w,
            lam[k - 1] * y,
            (delta * u) * y,
            m,
        );
        assert(delta * w + (delta * u) * y == delta * (w + u * y)) by (nonlinear_arith);
    } else {
        assert(delta * 0 == 0);
    }
}

/// The scaled coefficients of distinct points recover, in the integers, the scaled value
/// at zero of a polynomial with at most as many coefficients as there are points.
pub proof fn scaled_coefficients_recover(
    lam: Seq<int>,
    ids: Seq<u32>,
    c: Seq<int>,
    delta: int,
)
    requires
        distinct(ids),
        lam.len() == ids.len(),
        c.len() <= ids.len(),
        forall|i: int| 0 <= i < ids.len() ==> is_lambda(#[trigger] lam[i], delta, ids[i], ids),
    ensures
        weighted(lam, points(ids), c, ids.len() as int) == delta * eval(c, 0),
{
    let n = ids.len() as int;
    let xs = points(ids);
    let diff = weighted(lam, xs, c, n) - delta * eval(c, 0);
    let size = if diff >= 0 {
        diff
    } else {
        -diff
    };
    let dens = all_dens(ids, n);
    lemma_dens_nonzero(ids, n);
    let sign = if dens > 0 {
        1int
    } else {
        -1int
    };
    let t = sign * (size + 1);
    let m = 1 + t * dens;
    assert(m > size) by (nonlinear_arith)
        requires
            m == 1 + t * dens,
            t == sign * (size + 1),
            sign == (if dens > 0 {
                1int
            } else {
                -1int
            }),
            dens != 0,
            size >= 0,
    ;
    let mu = Seq::new(
        ids.len(),
        |i: int|
            {
                let cof = choose|cof: int| #[trigger]
                    cof_of(cof, ids, i, n);
                others_product(xs, i) * (-(t * cof))
            },
    );
    assert forall|i: int| 0 <= i < n implies eqm(#[trigger] lam[i], delta * mu[i], m)
        && crate::interpolation::is_ratio(
        mu[i],
        others_product(xs, i),
        others_distance(xs, i, xs[i]),
        m,
    ) by {
        let witness = lemma_den_divides(ids, i, n);
        assert(cof_of(witness, ids, i, n));
        let cof = choose|cof: int| #[trigger] cof_of(cof, ids, i, n);
        lemma_same_products(ids, i);
        let den = id_distance(ids, ids[i]);
        let num = id_product(ids, ids[i]);
        let inv = -(t * cof);
        assert(den * inv == 1 + m * (-1)) by (nonlinear_arith)
            requires
                cof * den == dens,
                inv == -(t * cof),
                m == 1 + t * dens,
        ;
        vstd::arithmetic::div_mod::lemma_mod_multiples_vanish(-1, 1, m);
        assert(eqm(den * inv, 1, m));
        assert(mu[i] == num * inv);
        assert(is_ratio_by(mu[i], num, den, m, inv));
        let l = lam[i];
        assert(is_lambda(l, delta, ids[i], ids));
        lemma_eqm_mul(den * inv, 1, l, l, m);
        assert((den * inv) * l == (l * den) * inv) by (nonlinear_arith);
        assert((delta * num) * inv == delta * (num * inv)) by (nonlinear_arith);
    }
    assert(are_weights(mu, xs, m)) by {
        assert forall|i: int| 0 <= i < xs.len() implies crate::interpolation::is_ratio(
            #[trigger] mu[i],
            others_product(xs, i),
            others_distance(xs, i, xs[i]),
            m,
        ) by {
            assert(eqm(lam[i], delta * mu[i], m));
        }
    }
    lemma_interpolation(mu, xs, c, m);
    lemma_scaled(lam, mu, xs, c, delta, m, n);
    lemma_eqm_mul(delta, delta, weighted(mu, xs, c, n), eval(c, 0), m);
    assert(eqm(weighted(lam, xs, c, n), delta * eval(c, 0), m));
    crate::modular::lemma_eqm_sub(
        weighted(lam, xs, c, n),
        delta * eval(c, 0),
        delta * eval(c, 0),
        delta * eval(c, 0),
        m,
    );
    assert(diff % m == 0);
    if diff != 0 {
        crate::field::lemma_nonzero_mod(diff, m);
    }
}

spec fn cof_of(cof: int, ids: Seq<u32>, i: int, n: int) -> bool {
    cof * id_distance(ids, ids[i]) == all_dens(ids, n)
}

} // verus!
