//! Why partial values of the password function combine to its value.
use vstd::arithmetic::power::{lemma_pow0, lemma_pow_multiplies, pow};
use vstd::arithmetic::power2::{lemma2_to64, lemma_pow2_adds, pow2};
use vstd::prelude::*;

use crate::bignum::{be_nat, lemma_be_nat_upper, lemma_byte_powers, lemma_first_byte_counts};
use crate::field::{distinct, points};
use crate::interpolation::{
    are_weights, dot, eval, is_ratio, is_ratio_by, lemma_interpolation, others_distance,
    others_product, weighted,
};
use crate::modp_toprf::{
    combined_value, group_order, password_element, unblinded_value, weight_mod, weights_exist,
    weights_mod, ToprfParams, MODP14_PRIME,
};
use crate::modular::{eqm, lemma_eqm_add, lemma_eqm_mod, lemma_eqm_mul};
use crate::number_theory::{is_prime, safe_prime_squares};
use crate::paper_math::{id_distance, id_product, invertible, is_inverse};
use crate::shoup::inverse_mod;
use crate::shoup_group::{
    lemma_natural, lemma_one_pow, lemma_periodic, lemma_pow_congruent, lemma_power, lemma_product,
    order_divides, xpow,
};
use crate::shoup_math::lemma_same_products;

verus! {

impl ToprfParams {
    /// The generator generates a subgroup whose order divides the stated one.
    pub open spec fn proper(self) -> bool {
        order_divides(self.generator@ as int, self.order@ as int, self.modulus@ as int)
    }
}

/// The modulus of the group is an odd number of 2048 bits. If it is prime, the generator
/// raised to the order is one.
pub proof fn modp_group_is_proper()
    ensures
        pow2(2047) <= be_nat(MODP14_PRIME@) < pow2(2048),
        be_nat(MODP14_PRIME@) == 2 * group_order() + 1,
        is_prime(be_nat(MODP14_PRIME@) as int) ==> pow(4, group_order()) % (be_nat(
            MODP14_PRIME@,
        ) as int) == 1,
        is_prime(be_nat(MODP14_PRIME@) as int) ==> order_divides(
            4,
            group_order() as int,
            be_nat(MODP14_PRIME@) as int,
        ),
{
    let s = MODP14_PRIME@;
    let big = be_nat(s);
    assert(s[0] == 0xff);
    assert(s.last() == 0xff);
    lemma_first_byte_counts(s);
    lemma_be_nat_upper(s);
    lemma_byte_powers(255);
    lemma_byte_powers(256);
    lemma2_to64();
    lemma_pow2_adds(2040, 7);
    assert(big == be_nat(s.drop_last()) * 256 + 255);
    assert(big == 2 * group_order() + 1);
    if is_prime(big as int) {
        vstd::arithmetic::power2::lemma_pow2_strictly_increases(3, 2047);
        vstd::arithmetic::div_mod::lemma_small_mod(2, big);
        safe_prime_squares(2, group_order());
    }
}

/// The hash of a password lies in the subgroup.
pub proof fn password_element_in_subgroup(params: ToprfParams, password: Seq<u8>)
    requires
        params.proper(),
    ensures
        order_divides(
            password_element(params, password),
            params.order@ as int,
            params.modulus@ as int,
        ),
        0 <= password_element(params, password) < params.modulus@,
{
    let g = params.generator@ as int;
    let q = params.order@;
    let m = params.modulus@ as int;
    let e = crate::bignum::be_nat(crate::paper_hash::sha512(password)) % q;
    let h = pow(g, e) % m;
    vstd::arithmetic::div_mod::lemma_mod_bound(pow(g, e), m);
    lemma_eqm_mod(pow(g, e), m);
    lemma_pow_congruent(h, pow(g, e), q, m);
    lemma_pow_multiplies(g, e, q);
    lemma_pow_multiplies(g, q, e);
    assert(e * q == q * e) by (nonlinear_arith);
    vstd::arithmetic::div_mod::lemma_small_mod(1, m as nat);
    lemma_pow_congruent(pow(g, q), 1, e, m);
    lemma_one_pow(e);
}

proof fn lemma_weights(ids: Seq<u32>, q: int)
    requires
        q > 0,
        distinct(ids),
        weights_exist(ids, q),
    ensures
        are_weights(weights_mod(ids, q), points(ids), q),
{
    let lam = weights_mod(ids, q);
    let xs = points(ids);
    assert forall|i: int| 0 <= i < xs.len() implies is_ratio(
        #[trigger] lam[i],
        others_product(xs, i),
        others_distance(xs, i, xs[i]),
        q,
    ) by {
        lemma_same_products(ids, i);
        let num = id_product(ids, ids[i]);
        let den = id_distance(ids, ids[i]);
        assert(invertible(den % q, q));
        let inv = inverse_mod(den % q, q);
        assert(is_inverse(den % q, inv, q));
        lemma_eqm_mod(den, q);
        lemma_eqm_mul(den % q, den, inv, inv, q);
        lemma_eqm_mod(num, q);
        lemma_eqm_mul(num % q, num, inv, inv, q);
        lemma_eqm_mod((num % q) * inv, q);
        assert(lam[i] == weight_mod(ids, ids[i], q));
        assert(is_ratio_by(lam[i], num, den, q, inv));
    }
}

proof fn lemma_dot_congruent(
    lam: Seq<int>,
    shares: Seq<int>,
    ids: Seq<u32>,
    c: Seq<int>,
    q: int,
    k: int,
)
    requires
        q > 0,
        0 <= k <= ids.len(),
        forall|i: int| 0 <= i < ids.len() ==> #[trigger] shares[i] == eval(c, ids[i] as int) % q,
    ensures
        eqm(dot(lam, shares, k), weighted(lam, points(ids), c, k), q),
    decreases k,
{
    if k > 0 {
        lemma_dot_congruent(lam, shares, ids, c, q, k - 1);
        let y = eval(c, ids[k - 1] as int);
        assert(shares[k - 1] == y % q);
        lemma_eqm_mod(y, q);
        lemma_eqm_mul(lam[k - 1], lam[k - 1], y % q, y, q);
        lemma_eqm_add(
            dot(lam, shares, k - 1),
            weighted(lam, points(ids), c, k - 1),
            lam[k - 1] * (y % q),
            lam[k - 1] * y,
            q,
        );
    }
}

proof fn lemma_combined(
    h: int,
    rho: int,
    q: int,
    m: int,
    values: Seq<int>,
    shares: Seq<int>,
    lam: Seq<int>,
    k: int,
)
    requires
        order_divides(h, q, m),
        0 <= k <= values.len(),
        forall|i: int| 0 <= i < values.len() ==> #[trigger] values[i] == xpow(h, rho * shares[i], q, m),
        forall|i: int| 0 <= i < values.len() ==> #[trigger] lam[i] >= 0,
    ensures
        combined_value(values, lam, m, k) == xpow(h, rho * dot(lam, shares, k), q, m),
    decreases k,
{
    if k == 0 {
        assert(rho * 0 == 0);
        vstd::arithmetic::div_mod::lemma_small_mod(0, q as nat);
        lemma_pow0(h);
        vstd::arithmetic::div_mod::lemma_small_mod(1, m as nat);
    } else {
        lemma_combined(h, rho, q, m, values, shares, lam, k - 1);
        let s = shares[k - 1];
        let l = lam[k - 1];
        let d = dot(lam, shares, k - 1);
        assert(values[k - 1] == xpow(h, rho * s, q, m));
        lemma_power(h, rho * s, l as nat, q, m);
        lemma_product(h, rho * d, (rho * s) * l, q, m);
        assert(rho * d + (rho * s) * l == rho * (d + l * s)) by (nonlinear_arith);
    }
}

/// Partial values of at least as many distinct servers as the sharing polynomial has
/// coefficients, for a password blinded by `rho`, combine to the power of the hashed
/// password by the shared key.
pub proof fn partial_values_recover(
    params: ToprfParams,
    h: int,
    rho: int,
    c: Seq<int>,
    ids: Seq<u32>,
    values: Seq<int>,
)
    requires
        order_divides(h, params.order@ as int, params.modulus@ as int),
        rho >= 0,
        invertible(rho, params.order@ as int),
        distinct(ids),
        weights_exist(ids, params.order@ as int),
        c.len() <= ids.len(),
        values.len() == ids.len(),
        forall|i: int|
            0 <= i < ids.len() ==> #[trigger] values[i] == pow(
                pow(h, rho as nat) % (params.modulus@ as int),
                (eval(c, ids[i] as int) % (params.order@ as int)) as nat,
            ) % (params.modulus@ as int),
    ensures
        unblinded_value(params, rho, ids, values) == pow(
            h,
            (eval(c, 0) % (params.order@ as int)) as nat,
        ) % (params.modulus@ as int),
{
    let m = params.modulus@ as int;
    let q = params.order@ as int;
    let k = ids.len() as int;
    let lam = weights_mod(ids, q);
    let shares = Seq::new(ids.len(), |i: int| eval(c, ids[i] as int) % q);
    lemma_natural(h, rho as nat, q, m);
    assert forall|i: int| 0 <= i < values.len() implies #[trigger] values[i] == xpow(
        h,
        rho * shares[i],
        q,
        m,
    ) by {
        vstd::arithmetic::div_mod::lemma_mod_bound(eval(c, ids[i] as int), q);
        lemma_power(h, rho, shares[i] as nat, q, m);
    }
    assert forall|i: int| 0 <= i < values.len() implies #[trigger] lam[i] >= 0 by {
        vstd::arithmetic::div_mod::lemma_mod_bound(
            (id_product(ids, ids[i]) % q) * inverse_mod(id_distance(ids, ids[i]) % q, q),
            q,
        );
    }
    lemma_combined(h, rho, q, m, values, shares, lam, k);
    lemma_weights(ids, q);
    lemma_interpolation(lam, points(ids), c, q);
    lemma_dot_congruent(lam, shares, ids, c, q, k);
    let sum = dot(lam, shares, k);
    let key = eval(c, 0);
    assert(eqm(sum, key, q));
    let inv = inverse_mod(rho, q);
    assert(is_inverse(rho, inv, q));
    lemma_power(h, rho * sum, inv as nat, q, m);
    lemma_eqm_mul(rho * inv, 1, sum, key, q);
    assert((rho * sum) * inv == (rho * inv) * sum) by (nonlinear_arith);
    assert(1 * key == key);
    lemma_periodic(h, (rho * sum) * inv, key, q, m);
}

} // verus!
