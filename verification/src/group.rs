//! Groups of prime order, and the recovery of a multiple from partial multiples.
use vstd::prelude::*;

use crate::field::{distinct, lagrange_coeffs_at_zero, points, vals, weights, Field};
use crate::interpolation::{are_weights, dot, eval, lemma_interpolation, weighted};
use crate::modular::{eqm, lemma_eqm_add, lemma_eqm_mod, lemma_eqm_mul};

verus! {

/// An element of a group whose order is that of the field `S`.
pub trait Group: Sized + Copy {
    type S: Field;

    /// The canonical encoding of the element.
    spec fn enc(self) -> Seq<u8>;

    /// Whether the bytes are the encoding of an element.
    spec fn valid(p: Seq<u8>) -> bool;

    /// The encoding of the multiple of an encoded element.
    spec fn mul_of(p: Seq<u8>, k: nat) -> Seq<u8>;

    /// The encoding of the sum of two encoded elements.
    spec fn add_of(p: Seq<u8>, q: Seq<u8>) -> Seq<u8>;

    /// The encoding of the neutral element.
    spec fn zero_enc() -> Seq<u8>;

    /// The neutral element: the zeroth multiple of every element.
    fn identity() -> (r: Self)
        ensures
            r.enc() == Self::zero_enc(),
            forall|g: Seq<u8>| Self::valid(g) ==> #[trigger] Self::mul_of(g, 0) == r.enc(),
    ;

    /// The sum: the multiples of any element add up.
    fn plus(self, other: Self) -> (r: Self)
        ensures
            r.enc() == Self::add_of(self.enc(), other.enc()),
            forall|g: Seq<u8>, a: nat, b: nat|
                Self::valid(g) && a < Self::S::order() && b < Self::S::order() && self.enc()
                    == #[trigger] Self::mul_of(g, a) && other.enc() == #[trigger] Self::mul_of(g, b)
                    ==> r.enc() == Self::mul_of(g, (a + b) % Self::S::order()),
    ;

    /// The multiple by a scalar: multiples of multiples multiply.
    fn scale(self, s: Self::S) -> (r: Self)
        ensures
            r.enc() == Self::mul_of(self.enc(), s.val()),
            Self::valid(r.enc()),
            Self::valid(self.enc()),
            s.val() < Self::S::order(),
            forall|k: nat|
                k < Self::S::order() ==> #[trigger] Self::mul_of(r.enc(), k) == Self::mul_of(
                    self.enc(),
                    (s.val() * k) % Self::S::order(),
                ),
            forall|g: Seq<u8>, a: nat|
                Self::valid(g) && a < Self::S::order() && self.enc() == #[trigger] Self::mul_of(
                    g,
                    a,
                ) ==> r.enc() == Self::mul_of(g, (a * s.val()) % Self::S::order()),
    ;
}

/// The encodings of group elements.
pub open spec fn encs<G: Group>(s: Seq<G>) -> Seq<Seq<u8>> {
    Seq::new(s.len(), |i: int| s[i].enc())
}

/// The sum of the first `k` elements, each multiplied by its weight.
pub open spec fn combined<G: Group>(ps: Seq<Seq<u8>>, lam: Seq<int>, k: int) -> Seq<u8>
    decreases k,
{
    if k <= 0 {
        G::zero_enc()
    } else {
        G::add_of(combined::<G>(ps, lam, k - 1), G::mul_of(ps[k - 1], lam[k - 1] as nat))
    }
}

/// Each element of `ps` is the multiple of `g` by the number in `ys`.
pub open spec fn are_multiples<G: Group>(ps: Seq<Seq<u8>>, g: Seq<u8>, ys: Seq<int>) -> bool {
    &&& G::valid(g)
    &&& ps.len() == ys.len()
    &&& forall|i: int|
        0 <= i < ps.len() ==> 0 <= ys[i] < G::S::order() && #[trigger] ps[i] == G::mul_of(
            g,
            ys[i] as nat,
        )
}

/// The values of the polynomial `c` at the identifiers, modulo `m`.
pub open spec fn values_at(c: Seq<int>, ids: Seq<u32>, m: nat) -> Seq<int> {
    Seq::new(ids.len(), |i: int| eval(c, ids[i] as int) % (m as int))
}

/// Each element of `ps` is the multiple of `g` by the value of the polynomial `c` at
/// the identifier in the same place.
pub open spec fn on_polynomial<G: Group>(
    ps: Seq<Seq<u8>>,
    g: Seq<u8>,
    ids: Seq<u32>,
    c: Seq<int>,
) -> bool {
    are_multiples::<G>(ps, g, values_at(c, ids, G::S::order()))
}

/// Adds up `partials`, each multiplied by its weight. Multiples of one element give
/// its multiple by the weighted sum.
pub fn combine<G: Group>(partials: &[G], lambdas: &[G::S]) -> (r: G)
    requires
        partials@.len() == lambdas@.len(),
    ensures
        r.enc() == combined::<G>(encs(partials@), vals(lambdas@), partials@.len() as int),
        forall|g: Seq<u8>, ys: Seq<int>| #[trigger]
            are_multiples::<G>(encs(partials@), g, ys) ==> r.enc() == G::mul_of(
                g,
                (dot(vals(lambdas@), ys, ys.len() as int) % (G::S::order() as int)) as nat,
            ),
{
    proof {
        G::S::lemma_order();
    }
    let ghost m = G::S::order() as int;
    let ghost ps = encs(partials@);
    let ghost lam = vals(lambdas@);
    let mut acc: G = G::identity();
    let mut i: usize = 0;
    proof {
        vstd::arithmetic::div_mod::lemma_small_mod(0, m as nat);
    }
    while i < partials.len()
        invariant
            i <= partials@.len(),
            partials@.len() == lambdas@.len(),
            m == G::S::order(),
            m > 1,
            ps == encs(partials@),
            lam == vals(lambdas@),
            acc.enc() == combined::<G>(ps, lam, i as int),
            forall|g: Seq<u8>, ys: Seq<int>| #[trigger]
                are_multiples::<G>(ps, g, ys) ==> acc.enc() == G::mul_of(
                    g,
                    (dot(lam, ys, i as int) % m) as nat,
                ),
        decreases partials@.len() - i,
    {
        let ghost before = acc.enc();
        let part: G = partials[i].scale(lambdas[i]);
        acc = acc.plus(part);
        proof {
            assert(ps[i as int] == partials@[i as int].enc());
            assert(lam[i as int] == lambdas@[i as int].val());
            assert forall|g: Seq<u8>, ys: Seq<int>| #[trigger]
                are_multiples::<G>(ps, g, ys) implies acc.enc() == G::mul_of(
                g,
                (dot(lam, ys, i + 1) % m) as nat,
            ) by {
                let y = ys[i as int];
                let l = lam[i as int];
                let d = dot(lam, ys, i as int);
                assert(ps[i as int] == G::mul_of(g, y as nat));
                lemma_eqm_mod(d, m);
                lemma_eqm_mod(l * y, m);
                let b = (l * y) % m;
                assert((y as nat) * (l as nat) == l * y) by (nonlinear_arith)
                    requires
                        y >= 0,
                        l >= 0,
                ;
                assert(part.enc() == G::mul_of(g, b as nat));
                assert(before == G::mul_of(g, (d % m) as nat));
                assert(acc.enc() == G::mul_of(g, (((d % m) as nat + b as nat) % (m as nat)) as nat));
                lemma_eqm_add(d % m, d, b, l * y, m);
            }
        }
        i = i + 1;
    }
    acc
}

proof fn lemma_dot_weighted(lam: Seq<int>, ids: Seq<u32>, c: Seq<int>, m: nat, k: int)
    requires
        m > 0,
        0 <= k <= ids.len(),
        k <= lam.len(),
    ensures
        eqm(dot(lam, values_at(c, ids, m), k), weighted(lam, points(ids), c, k), m as int),
    decreases k,
{
    if k > 0 {
        lemma_dot_weighted(lam, ids, c, m, k - 1);
        let mi = m as int;
        let y = eval(c, ids[k - 1] as int);
        lemma_eqm_mod(y, mi);
        lemma_eqm_mul(lam[k - 1], lam[k - 1], y % mi, y, mi);
        lemma_eqm_add(
            dot(lam, values_at(c, ids, m), k - 1),
            weighted(lam, points(ids), c, k - 1),
            lam[k - 1] * (y % mi),
            lam[k - 1] * y,
            mi,
        );
    }
}

/// Weighted values of a polynomial at enough distinct points give its value at zero.
pub proof fn lemma_recovery(lam: Seq<int>, ids: Seq<u32>, c: Seq<int>, m: nat)
    requires
        m > 0,
        are_weights(lam, points(ids), m as int),
        c.len() <= ids.len(),
    ensures
        dot(lam, values_at(c, ids, m), ids.len() as int) % (m as int) == eval(c, 0) % (m as int),
{
    lemma_interpolation(lam, points(ids), c, m as int);
    lemma_dot_weighted(lam, ids, c, m, ids.len() as int);
}

/// What the partial results of the given identifiers combine to.
pub open spec fn combined_at_zero<G: Group>(ids: Seq<u32>, ps: Seq<Seq<u8>>) -> Seq<u8> {
    combined::<G>(ps, weights(ids, G::S::order()), ps.len() as int)
}

/// Combines the partial results of the given identifiers. Partial multiples of one
/// element by the shares of a secret, at least as many as the sharing polynomial has
/// coefficients and from distinct identifiers, give its multiple by the secret.
pub fn combine_at_zero<G: Group>(ids: &[u32], partials: &[G]) -> (r: G)
    requires
        ids@.len() == partials@.len(),
    ensures
        r.enc() == combined_at_zero::<G>(ids@, encs(partials@)),
        forall|g: Seq<u8>, c: Seq<int>| #[trigger]
            on_polynomial::<G>(encs(partials@), g, ids@, c) && distinct(ids@) && c.len()
                <= ids@.len() ==> r.enc() == G::mul_of(
                g,
                (eval(c, 0) % (G::S::order() as int)) as nat,
            ),
{
    let lambdas: Vec<G::S> = lagrange_coeffs_at_zero::<G::S>(ids);
    assert(vals(lambdas@).len() == ids@.len());
    let r: G = combine::<G>(partials, lambdas.as_slice());
    proof {
        G::S::lemma_order();
        assert forall|g: Seq<u8>, c: Seq<int>| #[trigger]
            on_polynomial::<G>(encs(partials@), g, ids@, c) && distinct(ids@) && c.len()
                <= ids@.len() implies r.enc() == G::mul_of(
            g,
            (eval(c, 0) % (G::S::order() as int)) as nat,
        ) by {
            lemma_recovery(vals(lambdas@), ids@, c, G::S::order());
            let ys = values_at(c, ids@, G::S::order());
            assert(are_multiples::<G>(encs(partials@), g, ys));
        }
    }
    r
}

} // verus!
