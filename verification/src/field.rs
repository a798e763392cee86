//! Secret sharing over a prime field, and the combination of partial results in a
//! group of that order.
use vstd::prelude::*;

use crate::bytes::le_nat;
use crate::interpolation::{
    are_weights, eval, is_ratio_by, others_distance, others_product,
};
use crate::modular::{
    eqm, lemma_eqm_add, lemma_eqm_mod, lemma_eqm_mul, lemma_eqm_small,
};
use crate::rng::{Rng, RngState};

verus! {

/// The inverse of `v` modulo `m`, or zero where `v` is zero.
pub open spec fn inverse_of(v: nat, m: nat) -> nat {
    if v == 0 {
        0
    } else {
        choose|y: nat| y < m && #[trigger] (v * y) % m == 1
    }
}

/// At most one number below `m` is an inverse.
pub proof fn lemma_inverse_unique(v: nat, y: nat, m: nat)
    requires
        m > 1,
        v != 0,
        y < m,
        (v * y) % m == 1,
    ensures
        inverse_of(v, m) == y,
{
    let z = choose|z: nat| z < m && #[trigger] (v * z) % m == 1;
    assert(z < m && (v * z) % m == 1);
    let (vi, yi, zi, mi) = (v as int, y as int, z as int, m as int);
    lemma_eqm_mod(vi * yi, mi);
    lemma_eqm_mod(vi * zi, mi);
    lemma_eqm_mul(1, vi * yi, zi, zi, mi);
    lemma_eqm_mul(1, vi * zi, yi, yi, mi);
    assert((vi * yi) * zi == (vi * zi) * yi) by (nonlinear_arith);
    lemma_eqm_small(yi, zi, mi);
}

/// Multiplication by a number and by its inverse cancel.
pub proof fn lemma_inverse_cancels(b: nat, inv: nat, k: nat, order: nat)
    requires
        order > 1,
        (b * inv) % order == 1,
        k < order,
    ensures
        (((b * k) % order) * inv) % order == k,
        (b * k) % order < order,
{
    let m = order as int;
    let (bi, ii, ki) = (b as int, inv as int, k as int);
    assert(b * k == bi * ki && b * inv == bi * ii);
    lemma_eqm_mod(bi * ki, m);
    let x = (bi * ki) % m;
    lemma_eqm_mul(x, bi * ki, ii, ii, m);
    assert((bi * ki) * ii == (bi * ii) * ki) by (nonlinear_arith);
    lemma_eqm_mod(bi * ii, m);
    lemma_eqm_mul(bi * ii, 1, ki, ki, m);
    lemma_eqm_mod(x * ii, m);
    lemma_eqm_small((x * ii) % m, ki, m);
    assert(((b * k) % order) * inv == x * ii);
}

/// An element of a prime field whose order exceeds every 64-bit number.
pub trait Field: Sized + Copy {
    spec fn order() -> nat;

    /// The number below the order that the element stands for.
    spec fn val(self) -> nat;

    proof fn lemma_order()
        ensures
            Self::order() > u64::MAX,
    ;

    fn of_u64(x: u64) -> (r: Self)
        ensures
            r.val() == x,
    ;

    fn plus(self, other: Self) -> (r: Self)
        ensures
            r.val() == (self.val() + other.val()) % Self::order(),
    ;

    fn minus(self, other: Self) -> (r: Self)
        ensures
            r.val() == (self.val() - other.val()) % (Self::order() as int),
    ;

    fn times(self, other: Self) -> (r: Self)
        ensures
            r.val() == (self.val() * other.val()) % Self::order(),
            r.val() == 0 ==> self.val() == 0 || other.val() == 0,
    ;

    /// The multiplicative inverse; zero for zero.
    fn inverse(self) -> (r: Self)
        ensures
            r.val() == inverse_of(self.val(), Self::order()),
            r.val() < Self::order(),
            self.val() != 0 ==> (self.val() * r.val()) % Self::order() == 1,
    ;

    /// The element that 64 bytes of the generator stand for.
    fn random(rng: &mut Rng) -> (r: Self)
        ensures
            r.val() == le_nat(old(rng)@.bytes(64)) % Self::order(),
            final(rng)@ == old(rng)@.skip(64),
    ;
}

/// The numbers that field elements stand for.
pub open spec fn vals<F: Field>(s: Seq<F>) -> Seq<int> {
    Seq::new(s.len(), |i: int| s[i].val() as int)
}

/// `base` to the power `k`.
spec fn power(base: int, k: nat) -> int
    decreases k,
{
    if k == 0 {
        1
    } else {
        power(base, (k - 1) as nat) * base
    }
}

proof fn lemma_eval_push(c: Seq<int>, v: int, x: int)
    ensures
        eval(c.push(v), x) == eval(c, x) + v * power(x, c.len()),
    decreases c.len(),
{
    if c.len() == 0 {
        assert(c.push(v).drop_first() =~= Seq::empty());
        assert(eval(c.push(v).drop_first(), x) == 0);
        assert(x * 0 == 0 && v * 1 == v);
    } else {
        let t = c.drop_first();
        lemma_eval_push(t, v, x);
        assert(c.push(v).drop_first() =~= t.push(v));
        assert(c.push(v)[0] == c[0]);
        let e = eval(t, x);
        let p = power(x, t.len());
        assert(power(x, c.len()) == p * x);
        assert(c[0] + x * (e + v * p) == c[0] + x * e + v * (p * x)) by (nonlinear_arith);
    }
}

/// The value at `x` of the polynomial with the given coefficients, constant first.
pub fn poly_eval<F: Field>(coeffs: &[F], x: F) -> (r: F)
    ensures
        r.val() == eval(vals(coeffs@), x.val() as int) % (F::order() as int),
{
    proof {
        F::lemma_order();
    }
    let mut acc: F = F::of_u64(0);
    let mut pow: F = F::of_u64(1);
    let mut i: usize = 0;
    let ghost m = F::order() as int;
    let ghost xv = x.val() as int;
    assert(vals(coeffs@).take(0) =~= Seq::<int>::empty());
    while i < coeffs.len()
        invariant
            i <= coeffs@.len(),
            m == F::order(),
            m > 1,
            xv == x.val(),
            0 <= acc.val() < m,
            eqm(acc.val() as int, eval(vals(coeffs@).take(i as int), xv), m),
            eqm(pow.val() as int, power(xv, i as nat), m),
        decreases coeffs@.len() - i,
    {
        let term: F = coeffs[i].times(pow);
        proof {
            let c = vals(coeffs@);
            let cv = c[i as int];
            let a0 = acc.val() as int;
            let p0 = pow.val() as int;
            lemma_eqm_mul(cv, cv, p0, power(xv, i as nat), m);
            lemma_eqm_mod(cv * p0, m);
            let tv = term.val() as int;
            assert(tv == (cv * p0) % m);
            lemma_eqm_add(a0, eval(c.take(i as int), xv), tv, cv * power(xv, i as nat), m);
            lemma_eqm_mod(a0 + tv, m);
            assert(c.take(i + 1) =~= c.take(i as int).push(cv));
            lemma_eval_push(c.take(i as int), cv, xv);
            lemma_eqm_mul(p0, power(xv, i as nat), xv, xv, m);
            lemma_eqm_mod(p0 * xv, m);
        }
        acc = acc.plus(term);
        pow = pow.times(x);
        i = i + 1;
    }
    proof {
        let c = vals(coeffs@);
        assert(c.take(i as int) =~= c);
        lemma_eqm_mod(eval(c, xv), m);
        lemma_eqm_small(acc.val() as int, eval(c, xv) % m, m);
    }
    acc
}

/// The numbers drawn for `k` field elements.
pub open spec fn drawn(rng: RngState, k: nat, m: nat) -> Seq<int>
    decreases k,
{
    if k == 0 {
        Seq::empty()
    } else {
        drawn(rng, (k - 1) as nat, m).push(
            (le_nat(after_draws(rng, (k - 1) as nat).bytes(64)) % m) as int,
        )
    }
}

/// The generator after `k` field elements were drawn.
pub open spec fn after_draws(rng: RngState, k: nat) -> RngState
    decreases k,
{
    if k == 0 {
        rng
    } else {
        after_draws(rng, (k - 1) as nat).skip(64)
    }
}

pub proof fn lemma_drawn_len(rng: RngState, k: nat, m: nat)
    ensures
        drawn(rng, k, m).len() == k,
    decreases k,
{
    if k > 0 {
        lemma_drawn_len(rng, (k - 1) as nat, m);
    }
}

/// The coefficients of the sharing polynomial: the secret, then drawn numbers.
pub open spec fn sharing_poly(secret: nat, t: nat, rng: RngState, m: nat) -> Seq<int> {
    seq![secret as int] + drawn(rng, (t - 1) as nat, m)
}

/// The shares of a polynomial: its values at one, two and so on up to `n`.
pub open spec fn shares_of(c: Seq<int>, n: nat, m: nat) -> Seq<(u32, nat)> {
    Seq::new(n, |i: int| ((i + 1) as u32, (eval(c, i + 1) % (m as int)) as nat))
}

/// Identifiers and numbers of a list of shares.
pub open spec fn share_vals<F: Field>(s: Seq<(u32, F)>) -> Seq<(u32, nat)> {
    Seq::new(s.len(), |i: int| (s[i].0, s[i].1.val()))
}

/// Splits `secret` into `n` shares of which any `t` determine it.
pub fn shamir_share<F: Field>(secret: F, n: usize, t: usize, rng: &mut Rng) -> (r: Vec<(u32, F)>)
    requires
        1 <= t <= n,
    ensures
        share_vals(r@) == shares_of(
            sharing_poly(secret.val(), t as nat, old(rng)@, F::order()),
            n as nat,
            F::order(),
        ),
        final(rng)@ == after_draws(old(rng)@, (t - 1) as nat),
{
    let mut coeffs: Vec<F> = Vec::with_capacity(t);
    coeffs.push(secret);
    let ghost start = rng@;
    let ghost m = F::order();
    proof {
        F::lemma_order();
        assert(vals(coeffs@) =~= seq![secret.val() as int] + drawn(start, 0, m));
    }
    let mut k: usize = 1;
    while k < t
        invariant
            1 <= k <= t,
            m == F::order(),
            vals(coeffs@) == seq![secret.val() as int] + drawn(start, (k - 1) as nat, m),
            coeffs@.len() == k,
            rng@ == after_draws(start, (k - 1) as nat),
        decreases t - k,
    {
        let ghost before = vals(coeffs@);
        let c: F = F::random(rng);
        coeffs.push(c);
        proof {
            assert(vals(coeffs@) =~= before.push(c.val() as int));
            assert(vals(coeffs@) =~= seq![secret.val() as int] + drawn(start, k as nat, m));
        }
        k = k + 1;
    }
    let ghost poly = vals(coeffs@);
    let mut shares: Vec<(u32, F)> = Vec::with_capacity(n);
    let mut i: usize = 0;
    while i < n
        invariant
            i <= n,
            m == F::order(),
            m > u64::MAX,
            poly == vals(coeffs@),
            share_vals(shares@) == shares_of(poly, i as nat, m),
            shares@.len() == i,
        decreases n - i,
    {
        let ghost before = share_vals(shares@);
        let x: F = F::of_u64((i as u64) + 1);
        let y: F = poly_eval(coeffs.as_slice(), x);
        shares.push(((i + 1) as u32, y));
        proof {
            assert(share_vals(shares@) =~= before.push(((i + 1) as u32, y.val())));
            assert(share_vals(shares@) =~= shares_of(poly, (i + 1) as nat, m));
        }
        i = i + 1;
    }
    shares
}

/// The identifiers as numbers.
pub open spec fn points(ids: Seq<u32>) -> Seq<int> {
    Seq::new(ids.len(), |i: int| ids[i] as int)
}

/// The weight of the share at index `i` in the recovery of the value at zero.
pub open spec fn weight(ids: Seq<u32>, i: int, m: nat) -> nat {
    let xs = points(ids);
    let num = others_product(xs, i) % (m as int);
    let den = others_distance(xs, i, xs[i]) % (m as int);
    (num as nat * inverse_of(den as nat, m)) % m
}

/// The weights of all shares.
pub open spec fn weights(ids: Seq<u32>, m: nat) -> Seq<int> {
    Seq::new(ids.len(), |i: int| weight(ids, i, m) as int)
}

/// No identifier occurs twice.
pub open spec fn distinct(ids: Seq<u32>) -> bool {
    forall|i: int, j: int| 0 <= i < j < ids.len() ==> ids[i] != ids[j]
}

proof fn lemma_prefix(xs: Seq<int>, k: int)
    requires
        0 <= k < xs.len(),
    ensures
        xs.take(k + 1).drop_last() == xs.take(k),
        xs.take(k + 1).last() == xs[k],
{
    assert(xs.take(k + 1).drop_last() =~= xs.take(k));
}

/// The weights with which the shares of the given identifiers recover a secret.
/// Where an identifier occurs twice, the weights of its occurrences are zero.
#[verifier::rlimit(40)]
pub fn lagrange_coeffs_at_zero<F: Field>(ids: &[u32]) -> (r: Vec<F>)
    ensures
        vals(r@) == weights(ids@, F::order()),
        distinct(ids@) ==> are_weights(vals(r@), points(ids@), F::order() as int),
{
    proof {
        F::lemma_order();
    }
    let ghost m = F::order() as int;
    let ghost xs = points(ids@);
    let mut lambdas: Vec<F> = Vec::with_capacity(ids.len());
    let mut i: usize = 0;
    while i < ids.len()
        invariant
            i <= ids@.len(),
            m == F::order(),
            m > u64::MAX,
            xs == points(ids@),
            lambdas@.len() == i,
            forall|k: int| 0 <= k < i ==> (#[trigger] lambdas@[k]).val() == weight(ids@, k, m as nat),
            forall|k: int|
                0 <= k < i && distinct(ids@) ==> crate::interpolation::is_ratio(
                    (#[trigger] lambdas@[k]).val() as int,
                    others_product(xs, k),
                    others_distance(xs, k, xs[k]),
                    m,
                ),
        decreases ids@.len() - i,
    {
        let xi: F = F::of_u64(ids[i] as u64);
        let ghost x = xi.val() as int;
        let mut num: F = F::of_u64(1);
        let mut den: F = F::of_u64(1);
        let mut j: usize = 0;
        while j < ids.len()
            invariant
                j <= ids@.len(),
                i < ids@.len(),
                m == F::order(),
                m > u64::MAX,
                xs == points(ids@),
                x == xs[i as int],
                x == xi.val(),
                0 <= num.val() < m,
                0 <= den.val() < m,
                eqm(num.val() as int, others_product(xs.take(j as int), i as int), m),
                eqm(den.val() as int, others_distance(xs.take(j as int), i as int, x), m),
                distinct(ids@) ==> den.val() != 0,
            decreases ids@.len() - j,
        {
            proof {
                lemma_prefix(xs, j as int);
            }
            let ghost n0 = num.val() as int;
            let ghost d0 = den.val() as int;
            let ghost np = others_product(xs.take(j as int), i as int);
            let ghost dp = others_distance(xs.take(j as int), i as int, x);
            if i != j {
                let xj: F = F::of_u64(ids[j] as u64);
                let diff: F = xj.minus(xi);
                num = num.times(xj);
                den = den.times(diff);
                proof {
                    let y = xs[j as int];
                    assert(y == xj.val());
                    lemma_eqm_mod(y - x, m);
                    lemma_eqm_mul(n0, np, y, y, m);
                    lemma_eqm_mod(n0 * y, m);
                    let dv = diff.val() as int;
                    lemma_eqm_mul(d0, dp, dv, y - x, m);
                    lemma_eqm_mod(d0 * dv, m);
                    if distinct(ids@) {
                        assert(ids@[i as int] != ids@[j as int]);
                        assert(-m < y - x < m && y != x);
                        assert(dv != 0) by {
                            if dv == 0 {
                                lemma_nonzero_mod(y - x, m);
                            }
                        }
                    }
                }
            } else {
                proof {
                    assert(np * 1 == np && dp * 1 == dp);
                }
            }
            j = j + 1;
        }
        let inv: F = den.inverse();
        let l: F = num.times(inv);
        proof {
            assert(xs.take(j as int) =~= xs);
            let np = others_product(xs, i as int);
            let dp = others_distance(xs, i as int, x);
            lemma_eqm_mod(np, m);
            lemma_eqm_mod(dp, m);
            lemma_eqm_small(num.val() as int, np % m, m);
            lemma_eqm_small(den.val() as int, dp % m, m);
            assert(l.val() == weight(ids@, i as int, m as nat));
            if distinct(ids@) {
                let iv = inv.val() as int;
                let dv = den.val() as int;
                let nv = num.val() as int;
                lemma_eqm_mul(dv, dp, iv, iv, m);
                assert((dv * iv) % m == 1);
                vstd::arithmetic::div_mod::lemma_small_mod(1, m as nat);
                assert(eqm(dp * iv, 1, m));
                lemma_eqm_mul(nv, np, iv, iv, m);
                lemma_eqm_mod(nv * iv, m);
                assert(is_ratio_by(l.val() as int, np, dp, m, iv));
            }
        }
        lambdas.push(l);
        i = i + 1;
    }
    proof {
        assert(vals(lambdas@) =~= weights(ids@, m as nat));
        if distinct(ids@) {
            assert forall|k: int| 0 <= k < xs.len() implies crate::interpolation::is_ratio(
                #[trigger] vals(lambdas@)[k],
                others_product(xs, k),
                others_distance(xs, k, xs[k]),
                m,
            ) by {
                assert(vals(lambdas@)[k] == lambdas@[k].val());
            }
        }
    }
    lambdas
}

pub proof fn lemma_nonzero_mod(d: int, m: int)
    requires
        m > 0,
        -m < d < m,
        d != 0,
    ensures
        d % m != 0,
{
    if d > 0 {
        vstd::arithmetic::div_mod::lemma_small_mod(d as nat, m as nat);
    } else {
        vstd::arithmetic::div_mod::lemma_small_mod((d + m) as nat, m as nat);
        vstd::arithmetic::div_mod::lemma_mod_add_multiples_vanish(d, m);
    }
}

} // verus!
