//! Modular arithmetic and interpolation with integers of any size.
use vstd::arithmetic::power::pow;
use vstd::prelude::*;

use crate::bignum::{bezout, divides_both, quotient, Int, Nat};
use crate::interpolation::eval;
use crate::modular::{eqm, lemma_eqm_add, lemma_eqm_mod, lemma_eqm_mul};

verus! {

/// `x` is the inverse of `a` modulo `m`.
pub open spec fn is_inverse(a: int, x: int, m: int) -> bool {
    0 <= x < m && (a * x) % m == 1int % m
}

/// `a` has an inverse modulo `m`.
pub open spec fn invertible(a: int, m: int) -> bool {
    exists|x: int| is_inverse(a, x, m)
}

/// A number has at most one inverse.
pub proof fn lemma_one_inverse(a: int, x: int, y: int, m: int)
    requires
        m > 0,
        is_inverse(a, x, m),
        is_inverse(a, y, m),
    ensures
        x == y,
{
    lemma_eqm_mul(a * x, 1, y, y, m);
    lemma_eqm_mul(a * y, 1, x, x, m);
    assert((a * x) * y == (a * y) * x) by (nonlinear_arith);
    crate::modular::lemma_eqm_small(x, y, m);
}

proof fn lemma_inverse_from_bezout(a: int, x: int, m: int, y: int)
    requires
        m > 0,
        bezout(a, x, m, y, 1),
    ensures
        is_inverse(a, x % m, m),
{
    lemma_eqm_mod(x, m);
    lemma_eqm_mul(a, a, x % m, x, m);
    assert(a * x == 1 + m * (-y)) by (nonlinear_arith)
        requires
            a * x + m * y == 1,
    ;
    vstd::arithmetic::div_mod::lemma_mod_multiples_vanish(-y, 1, m);
}

proof fn lemma_no_inverse(a: int, m: int, g: int)
    requires
        m > 0,
        divides_both(g, a, m),
        g != 1,
    ensures
        !invertible(a, m),
{
    if invertible(a, m) {
        let x = choose|x: int| is_inverse(a, x, m);
        let p = choose|k: int| #[trigger] (g * k) == a;
        let q = choose|k: int| #[trigger] (g * k) == m;
        if m == 1 {
            assert(g * q == 1);
            assert(g == 1) by (nonlinear_arith)
                requires
                    g * q == 1,
                    g >= 0,
            ;
        } else {
            vstd::arithmetic::div_mod::lemma_fundamental_div_mod(a * x, m);
            let t = (a * x) / m;
            assert(1int % m == 1) by {
                vstd::arithmetic::div_mod::lemma_small_mod(1, m as nat);
            }
            assert(a * x == m * t + 1);
            assert(g * (p * x - q * t) == 1) by (nonlinear_arith)
                requires
                    a * x == m * t + 1,
                    g * p == a,
                    g * q == m,
            ;
            let z = p * x - q * t;
            assert(g == 1) by (nonlinear_arith)
                requires
                    g * z == 1,
                    g >= 0,
            ;
        }
    }
}

/// The inverse of a number modulo another, if there is one.
pub fn modinv_u(a: &Nat, modulus: &Nat) -> (r: Option<Nat>)
    requires
        modulus@ > 0 || a@ != 1,
    ensures
        match r {
            Some(x) => modulus@ > 0 && is_inverse(a@ as int, x@ as int, modulus@ as int),
            None => modulus@ == 0 || !invertible(a@ as int, modulus@ as int),
        },
{
    if modulus.is_zero() {
        return None;
    }
    let ai = Int::from_nat(a);
    modinv_positive(&ai, modulus)
}

fn modinv_positive(a: &Int, modulus: &Nat) -> (r: Option<Nat>)
    requires
        modulus@ > 0,
    ensures
        match r {
            Some(x) => is_inverse(a@, x@ as int, modulus@ as int),
            None => !invertible(a@, modulus@ as int),
        },
{
    let (g, x) = a.extended_gcd(modulus);
    let one = Nat::from_u64(1);
    if !g.same(&one) {
        proof {
            lemma_no_inverse(a@, modulus@ as int, g@ as int);
        }
        return None;
    }
    proof {
        let y = choose|y: int| #[trigger] bezout(a@, x@, modulus@ as int, y, g@ as int);
        lemma_inverse_from_bezout(a@, x@, modulus@ as int, y);
    }
    Some(x.modulo(modulus))
}

/// The inverse of an integer modulo another, if there is one. It has the sign of the
/// modulus.
pub fn modinv_i(a: &Int, modulus: &Int) -> (r: Option<Int>)
    requires
        modulus@ != 0 || (a@ != 1 && a@ != -1),
    ensures
        ({
            let m = if modulus@ < 0 {
                -modulus@
            } else {
                modulus@
            };
            match r {
                Some(x) => {
                    &&& m > 0
                    &&& is_inverse(a@, x@ % m, m)
                    &&& modulus@ > 0 ==> 0 <= x@ < m
                    &&& modulus@ < 0 ==> -m < x@ <= 0
                },
                None => m == 0 || !invertible(a@, m),
            }
        }),
{
    let m = modulus.abs();
    if m.is_zero() {
        return None;
    }
    let x = match modinv_positive(a, &m) {
        Some(x) => x,
        None => {
            return None;
        },
    };
    let xi = Int::from_nat(&x);
    proof {
        vstd::arithmetic::div_mod::lemma_small_mod(x@, m@);
    }
    if modulus.is_negative() && !x.is_zero() {
        let mi = Int::from_nat(&m);
        let r = xi.minus(&mi);
        proof {
            vstd::arithmetic::div_mod::lemma_mod_add_multiples_vanish(r@, m@ as int);
        }
        Some(r)
    } else {
        Some(xi)
    }
}

/// A power with a positive or negative exponent: `r` is the power of `base`, or of its
/// inverse.
pub open spec fn is_signed_power(base: int, exp: int, m: int, r: int) -> bool {
    if exp < 0 {
        exists|inv: int| #[trigger] is_inverse(base, inv, m) && r == pow(inv, (-exp) as nat) % m
    } else {
        r == pow(base, exp as nat) % m
    }
}

/// The power modulo a number. A negative exponent needs the inverse of the base.
pub fn modpow_signed(base: &Nat, exp: &Int, modulus: &Nat) -> (r: Option<Nat>)
    requires
        modulus@ > 0 || (exp@ < 0 && base@ != 1),
    ensures
        match r {
            Some(x) => modulus@ > 0 && is_signed_power(
                base@ as int,
                exp@,
                modulus@ as int,
                x@ as int,
            ),
            None => exp@ < 0 && (modulus@ == 0 || !invertible(base@ as int, modulus@ as int)),
        },
{
    let e = exp.abs();
    if exp.is_negative() {
        match modinv_u(base, modulus) {
            Some(inv) => Some(inv.modpow(&e, modulus)),
            None => None,
        }
    } else {
        Some(base.modpow(&e, modulus))
    }
}

/// The product of the numbers from one to `n`.
pub open spec fn fact(n: nat) -> nat
    decreases n,
{
    if n == 0 {
        1
    } else {
        n * fact((n - 1) as nat)
    }
}

/// The factorial of a number.
pub fn factorial(n: usize) -> (r: Nat)
    ensures
        r@ == fact(n as nat),
{
    let mut acc = Nat::from_u64(1);
    let mut x: usize = 1;
    if n < 2 {
        proof {
            reveal_with_fuel(fact, 3);
        }
        return acc;
    }
    proof {
        reveal_with_fuel(fact, 2);
    }
    while x < n
        invariant
            1 <= x <= n,
            acc@ == fact(x as nat),
        decreases n - x,
    {
        x = x + 1;
        let f = Nat::from_u64(x as u64);
        proof {
            let (a, b) = (acc@, x as nat);
            assert(a * b == b * a) by (nonlinear_arith);
        }
        acc = acc.times(&f);
    }
    acc
}

/// The values of coefficients.
pub open spec fn nat_vals(s: Seq<Nat>) -> Seq<int> {
    Seq::new(s.len(), |i: int| s[i]@ as int)
}

/// The value of a polynomial modulo a number, constant term first.
pub fn eval_poly_mod(coeffs: &[Nat], x: &Nat, modulus: &Nat) -> (r: Nat)
    requires
        modulus@ > 0 || coeffs@.len() == 0,
    ensures
        coeffs@.len() == 0 ==> r@ == 0,
        coeffs@.len() > 0 ==> r@ == eval(nat_vals(coeffs@), x@ as int) % (modulus@ as int),
{
    let ghost c = nat_vals(coeffs@);
    let ghost m = modulus@ as int;
    let ghost xv = x@ as int;
    let mut acc = Nat::from_u64(0);
    let mut i: usize = coeffs.len();
    assert(c.skip(c.len() as int) =~= Seq::<int>::empty());
    while i > 0
        invariant
            i <= coeffs@.len(),
            c == nat_vals(coeffs@),
            m == modulus@,
            xv == x@,
            coeffs@.len() > 0 ==> m > 0,
            i == coeffs@.len() ==> acc@ == 0,
            i < coeffs@.len() ==> acc@ == eval(c.skip(i as int), xv) % m,
            i == coeffs@.len() ==> eval(c.skip(i as int), xv) == 0,
        decreases i,
    {
        i = i - 1;
        let ghost before = acc@ as int;
        let ghost e1 = eval(c.skip(i + 1), xv);
        proof {
            assert(c.skip(i as int).drop_first() =~= c.skip(i + 1));
            assert(c.skip(i as int)[0] == c[i as int]);
            if i + 1 < coeffs@.len() {
                lemma_eqm_mod(e1, m);
            }
            assert(eqm(before, e1, m));
            lemma_eqm_mul(before, e1, xv, xv, m);
            lemma_eqm_add(before * xv, e1 * xv, c[i as int], c[i as int], m);
            assert(e1 * xv == xv * e1) by (nonlinear_arith);
        }
        acc = acc.times(x).plus(&coeffs[i]).modulo(modulus);
    }
    proof {
        assert(c.skip(0) =~= c);
    }
    acc
}

/// The product of all identifiers but `id`.
pub open spec fn id_product(ids: Seq<u32>, id: u32) -> int
    decreases ids.len(),
{
    if ids.len() == 0 {
        1
    } else {
        id_product(ids.drop_last(), id) * (if ids.last() == id {
            1
        } else {
            ids.last() as int
        })
    }
}

/// The product of the differences of all other identifiers and `id`.
pub open spec fn id_distance(ids: Seq<u32>, id: u32) -> int
    decreases ids.len(),
{
    if ids.len() == 0 {
        1
    } else {
        id_distance(ids.drop_last(), id) * (if ids.last() == id {
            1
        } else {
            ids.last() - id
        })
    }
}

/// `delta` clears the denominator of the interpolation coefficient of `id`.
pub open spec fn clears(delta: int, id: u32, ids: Seq<u32>) -> bool {
    exists|k: int| #[trigger] is_lambda(k, delta, id, ids)
}

/// `k` is the interpolation coefficient of `id`, scaled by `delta`.
pub open spec fn is_lambda(k: int, delta: int, id: u32, ids: Seq<u32>) -> bool {
    k * id_distance(ids, id) == delta * id_product(ids, id)
}

pub proof fn lemma_distance_nonzero(ids: Seq<u32>, id: u32)
    ensures
        id_distance(ids, id) != 0,
    decreases ids.len(),
{
    if ids.len() > 0 {
        lemma_distance_nonzero(ids.drop_last(), id);
        let a = id_distance(ids.drop_last(), id);
        let b = if ids.last() == id {
            1
        } else {
            ids.last() - id
        };
        assert(a * b != 0) by (nonlinear_arith)
            requires
                a != 0,
                b != 0,
        ;
    }
}

pub proof fn lemma_exact_quotient(a: int, b: int, k: int)
    requires
        b != 0,
        k * b == a,
    ensures
        quotient(a, b) == k,
{
    let (aa, bb) = (if a >= 0 {
        a
    } else {
        -a
    }, if b > 0 {
        b
    } else {
        -b
    });
    let kk = if k >= 0 {
        k
    } else {
        -k
    };
    assert(kk * bb == aa) by (nonlinear_arith)
        requires
            k * b == a,
            aa == (if a >= 0 {
                a
            } else {
                -a
            }),
            bb == (if b > 0 {
                b
            } else {
                -b
            }),
            kk == (if k >= 0 {
                k
            } else {
                -k
            }),
            b != 0,
    ;
    assert(aa / bb == kk) by {
        vstd::arithmetic::div_mod::lemma_div_multiples_vanish(kk, bb);
        assert(kk * bb == bb * kk) by (nonlinear_arith);
    }
    assert(a == 0 ==> k == 0) by (nonlinear_arith)
        requires
            k * b == a,
            b != 0,
    ;
    assert(a > 0 ==> ((k > 0) == (b > 0))) by (nonlinear_arith)
        requires
            k * b == a,
            b != 0,
    ;
    assert(a < 0 ==> ((k > 0) == (b < 0))) by (nonlinear_arith)
        requires
            k * b == a,
            b != 0,
    ;
    assert(a != 0 ==> k != 0) by (nonlinear_arith)
        requires
            k * b == a,
    ;
}

fn lambda_parts(delta: &Nat, id: u32, ids: &[u32]) -> (r: (Int, Int))
    ensures
        r.0@ == delta@ * id_product(ids@, id),
        r.1@ == id_distance(ids@, id),
        r.1@ != 0,
{
    let mut num = Int::from_nat(delta);
    let mut den = Int::from_u64(1);
    let ii = Int::from_u64(id as u64);
    let mut k: usize = 0;
    while k < ids.len()
        invariant
            k <= ids@.len(),
            ii@ == id,
            num@ == delta@ * id_product(ids@.take(k as int), id),
            den@ == id_distance(ids@.take(k as int), id),
        decreases ids@.len() - k,
    {
        let j = ids[k];
        proof {
            assert(ids@.take(k + 1).drop_last() =~= ids@.take(k as int));
            assert(ids@.take(k + 1).last() == j);
            let (d, p, jj) = (delta@ as int, id_product(ids@.take(k as int), id), j as int);
            assert((d * p) * jj == d * (p * jj)) by (nonlinear_arith);
            assert(d * (p * 1) == d * p) by (nonlinear_arith);
        }
        if j != id {
            let ji = Int::from_u64(j as u64);
            let diff = ji.minus(&ii);
            num = num.times(&ji);
            den = den.times(&diff);
        }
        k = k + 1;
    }
    proof {
        assert(ids@.take(k as int) =~= ids@);
        lemma_distance_nonzero(ids@, id);
    }
    (num, den)
}

/// Whether `delta` clears the denominator of the interpolation coefficient of `id`.
pub fn clears_denominators(delta: &Nat, id: u32, ids: &[u32]) -> (r: bool)
    ensures
        r == clears(delta@ as int, id, ids@),
{
    let (num, den) = lambda_parts(delta, id, ids);
    let size = den.abs();
    let rest = num.modulo(&size);
    proof {
        let (a, b, m) = (num@, den@, size@ as int);
        if rest@ == 0 {
            let q = a / m;
            vstd::arithmetic::div_mod::lemma_fundamental_div_mod(a, m);
            let k = if b > 0 {
                q
            } else {
                -q
            };
            assert(k * b == a) by (nonlinear_arith)
                requires
                    a == m * q,
                    (b > 0 && m == b && k == q) || (b < 0 && m == -b && k == -q),
            ;
            assert(is_lambda(k, delta@ as int, id, ids@));
        }
        if clears(delta@ as int, id, ids@) {
            let k = choose|k: int| #[trigger] is_lambda(k, delta@ as int, id, ids@);
            let f = if b > 0 {
                k
            } else {
                -k
            };
            assert(a == f * m) by (nonlinear_arith)
                requires
                    k * b == a,
                    (b > 0 && m == b && f == k) || (b < 0 && m == -b && f == -k),
            ;
            vstd::arithmetic::div_mod::lemma_mod_multiples_basic(f, m);
        }
    }
    rest.is_zero()
}

/// Shoup's integer interpolation coefficient of `id`: `delta` times the product of the
/// other identifiers, divided by the product of their differences to `id`.
pub fn shoup_lambda(delta: &Nat, id: u32, ids: &[u32]) -> (r: Int)
    requires
        clears(delta@ as int, id, ids@),
    ensures
        is_lambda(r@, delta@ as int, id, ids@),
{
    let (num, den) = lambda_parts(delta, id, ids);
    proof {
        let q = choose|q: int| #[trigger] is_lambda(q, delta@ as int, id, ids@);
        lemma_exact_quotient(num@, den@, q);
    }
    num.over(&den)
}

} // verus!
