//! What holds of the RSA-based scheme when its numbers are as they should be.
use vstd::arithmetic::power::{lemma_pow_increases, pow};
use vstd::arithmetic::power2::{lemma_pow2_pos, lemma_pow2_strictly_increases, pow2};
use vstd::prelude::*;

use crate::augsso_fixture::{first_ids, lemma_first_ids};
use crate::bignum::{
    be_bytes, be_nat, bytes_needed, lemma_be_bytes_first, lemma_be_nat_leading_zeros,
    lemma_be_nat_lower, lemma_be_nat_of_be_bytes, lemma_be_nat_upper, lemma_byte_powers,
};
use crate::field::distinct;
use crate::interpolation::eval;
use crate::modp_law::{
    modp_group_is_proper, partial_values_recover, password_element_in_subgroup,
};
use crate::modp_toprf::{
    blinding_drawn, group_order, password_element, value_hash, weights_exist, ToprfParams,
    MODP14_PRIME,
};
use crate::modular::{lemma_eqm_mod, lemma_eqm_mul};
use crate::number_theory::{
    coprime, coprime_to_both, divides, fermat, is_prime, large_prime_is_odd, lemma_euclid,
    root_is_unique, rsa_order,
};
use crate::paper_hash::{ofb_undone, server_key};
use crate::paper_math::{clears, fact, id_distance, invertible, is_inverse};
use crate::paper_protocol::{
    after_ivs, blinded, decrypted_partials, encoded, function_value, message, padded, setup_tops,
    states, tops, values_of, Failure, Fixture,
};
use crate::rng::RngState;
use crate::shoup::{
    after_below, combined_signature, drawn_below, exponent_modulus, exponent_poly,
    lemma_drawn_below_len, partial_value, signature_block, ShoupSetup,
};
use crate::shoup_law::threshold_signature_verifies;
use crate::shoup_math::factorial_clears_denominators;

verus! {

/// A number that a prime does not divide has an inverse.
pub proof fn prime_inverse(a: int, p: int)
    requires
        is_prime(p),
        !divides(p, a),
    ensures
        invertible(a, p),
{
    let b = a % p;
    lemma_eqm_mod(a, p);
    assert(!divides(p, b)) by {
        vstd::arithmetic::div_mod::lemma_mod_twice(a, p);
    }
    fermat(b as nat, p as nat);
    reveal(pow);
    if p == 2 {
        assert(b == 1);
        lemma_eqm_mul(a, b, 1, 1, p);
        assert(is_inverse(a, 1, p));
    } else {
        let u = pow(b, (p - 2) as nat);
        assert(pow(b, (p - 1) as nat) == b * u);
        let x = u % p;
        lemma_eqm_mod(u, p);
        lemma_eqm_mul(a, b, x, u, p);
        vstd::arithmetic::div_mod::lemma_small_mod(1, p as nat);
        assert(is_inverse(a, x, p));
    }
}

proof fn lemma_distance_not_divided(ids: Seq<u32>, id: u32, p: int)
    requires
        is_prime(p),
        p > u32::MAX,
    ensures
        !divides(p, id_distance(ids, id)),
    decreases ids.len(),
{
    if ids.len() == 0 {
        vstd::arithmetic::div_mod::lemma_small_mod(1, p as nat);
    } else {
        let front = id_distance(ids.drop_last(), id);
        let f = if ids.last() == id {
            1
        } else {
            ids.last() - id
        };
        lemma_distance_not_divided(ids.drop_last(), id, p);
        if divides(p, front * f) {
            lemma_euclid(p, front, f);
            crate::field::lemma_nonzero_mod(f, p);
        }
    }
}

/// Modulo a large prime all interpolation weights exist.
pub proof fn prime_weights_exist(ids: Seq<u32>, p: int)
    requires
        is_prime(p),
        p > u32::MAX,
    ensures
        weights_exist(ids, p),
{
    assert forall|k: int| 0 <= k < ids.len() implies invertible(
        id_distance(ids, #[trigger] ids[k]) % p,
        p,
    ) by {
        let d = id_distance(ids, ids[k]);
        lemma_distance_not_divided(ids, ids[k], p);
        vstd::arithmetic::div_mod::lemma_mod_twice(d, p);
        prime_inverse(d % p, p);
    }
}

/// The key that a password has under the shared key on the polynomial `ck`.
pub open spec fn password_key(params: ToprfParams, ck: Seq<int>, password: Seq<u8>) -> Seq<u8> {
    value_hash(
        password,
        pow(
            password_element(params, password),
            (eval(ck, 0) % (params.order@ as int)) as nat,
        ) % (params.modulus@ as int),
    )
}

/// The value of the password function depends on the password and the shared key alone,
/// not on the blinding factor.
pub proof fn function_value_is_fixed(
    params: ToprfParams,
    ck: Seq<int>,
    tops: Seq<nat>,
    t: nat,
    password: Seq<u8>,
    rho: nat,
)
    requires
        params.proper(),
        is_prime(params.order@ as int),
        params.order@ > u32::MAX,
        1 <= t <= u32::MAX,
        ck.len() <= t,
        t <= tops.len(),
        forall|k: int|
            0 <= k < t ==> #[trigger] tops[k] == eval(ck, k + 1) % (params.order@ as int),
        0 < rho < params.order@,
    ensures
        function_value(params, tops, t, password, rho) == Some(
            password_key(params, ck, password),
        ),
{
    let q = params.order@ as int;
    let ids = first_ids(t);
    let h = password_element(params, password);
    lemma_first_ids(t);
    prime_weights_exist(ids, q);
    vstd::arithmetic::div_mod::lemma_small_mod(rho, q as nat);
    prime_inverse(rho as int, q);
    password_element_in_subgroup(params, password);
    let values = values_of(params, tops, blinded(params, password, rho), t);
    assert forall|i: int| 0 <= i < ids.len() implies #[trigger] values[i] == pow(
        pow(h, rho) % (params.modulus@ as int),
        (eval(ck, ids[i] as int) % q) as nat,
    ) % (params.modulus@ as int) by {
        assert(tops[i] == eval(ck, i + 1) % q);
        assert(ids[i] as int == i + 1);
    }
    partial_values_recover(params, h, rho as int, ck, ids, values);
}

/// The number that a signature signs is below the modulus.
pub proof fn encoded_below_modulus(n: nat, msg: Seq<u8>)
    requires
        bytes_needed(n) >= 62,
        signature_block(msg, bytes_needed(n)).len() == bytes_needed(n),
    ensures
        encoded(n, msg) < n,
{
    let b = signature_block(msg, bytes_needed(n));
    assert(b[0] == 0);
    let zero = b.take(1);
    let rest = b.skip(1);
    assert(zero + rest =~= b);
    lemma_be_nat_leading_zeros(zero, rest);
    lemma_be_nat_upper(rest);
    lemma_be_bytes_first(n);
    lemma_be_nat_lower(be_bytes(n));
    lemma_be_nat_of_be_bytes(n);
}

proof fn lemma_exponent_has_no_divisor(d: int)
    requires
        2 <= d <= 256,
    ensures
        65537int % d != 0,
{
    let w = d as u32;
    assert(65537u32 % w != 0) by (bit_vector)
        requires
            2 <= w <= 256,
    ;
}

/// The public exponent is prime.
pub proof fn public_exponent_is_prime()
    ensures
        is_prime(65537),
{
    assert forall|d: int| 1 < d < 65537 implies #[trigger] (65537int % d) != 0 by {
        if d <= 256 {
            lemma_exponent_has_no_divisor(d);
        } else if 65537int % d == 0 {
            let k = 65537int / d;
            vstd::arithmetic::div_mod::lemma_fundamental_div_mod(65537, d);
            assert(d * k == 65537);
            assert(1 < k < 256) by (nonlinear_arith)
                requires
                    d * k == 65537,
                    256 < d < 65537,
            ;
            assert(65537int % k == 0) by {
                vstd::arithmetic::div_mod::lemma_mod_multiples_basic(d, k);
            }
            lemma_exponent_has_no_divisor(k);
        }
    }
}

/// A prime above `n` does not divide the product of the numbers up to `n`.
pub proof fn large_prime_misses_factorial(n: nat, p: int)
    requires
        is_prime(p),
        n < p,
    ensures
        !divides(p, fact(n) as int),
    decreases n,
{
    if n == 0 {
        vstd::arithmetic::div_mod::lemma_small_mod(1, p as nat);
    } else {
        let rest = fact((n - 1) as nat) as int;
        large_prime_misses_factorial((n - 1) as nat, p);
        if divides(p, n as int * rest) {
            lemma_euclid(p, n as int, rest);
            vstd::arithmetic::div_mod::lemma_small_mod(n, p as nat);
        }
    }
}

/// With fewer servers than the public exponent says, `4 * delta * delta` has an inverse
/// modulo the exponent.
pub proof fn scaling_is_undone(n_servers: nat)
    requires
        n_servers < 65537,
    ensures
        invertible((4 * fact(n_servers) * fact(n_servers)) as int % 65537, 65537),
{
    let p: int = 65537;
    let f = fact(n_servers) as int;
    public_exponent_is_prime();
    large_prime_misses_factorial(n_servers, p);
    if divides(p, 4 * f * f) {
        lemma_euclid(p, 4 * f, f);
        lemma_euclid(p, 4, f);
    }
    vstd::arithmetic::div_mod::lemma_mod_twice(4 * f * f, p);
    prime_inverse((4 * f * f) % p, p);
}

/// A setup of two different odd primes: any servers sign that are as many as the sharing
/// polynomial has coefficients, or more. The number to sign is below the modulus and neither
/// prime divides it, and there are fewer servers than the public exponent says.
pub proof fn any_servers_sign(
    s: ShoupSetup,
    n_servers: nat,
    p: nat,
    q: nat,
    c: Seq<int>,
    ids: Seq<u32>,
    rep: nat,
    values: Seq<int>,
)
    requires
        s.made_from(n_servers, p, q, c),
        is_prime(p as int),
        is_prime(q as int),
        p != q,
        p % 2 == 1,
        q % 2 == 1,
        n_servers < 65537,
        distinct(ids),
        forall|k: int| 0 <= k < ids.len() ==> 1 <= #[trigger] ids[k] <= n_servers,
        c.len() <= ids.len(),
        rep < s.public.n@,
        !divides(p as int, rep as int),
        !divides(q as int, rep as int),
        values.len() == ids.len(),
        forall|k: int|
            0 <= k < ids.len() ==> #[trigger] values[k] == partial_value(
                rep,
                s.public.delta@,
                s.shares@[ids[k] - 1].s_i@,
                s.public.n@,
            ),
    ensures
        combined_signature(
            s.public.n@ as int,
            s.public.e@ as int,
            s.public.delta@ as int,
            rep as int,
            ids,
            values,
        ) matches Some(y) && 0 <= y < s.public.n@ && pow(y, s.public.e@) % (s.public.n@ as int)
            == rep,
{
    let n = s.public.n@ as int;
    let m = exponent_modulus(p, q) as int;
    let delta = s.public.delta@ as int;
    rsa_order(rep, p, q);
    scaling_is_undone(n_servers);
    assert(n == p as int * q as int);
    assert forall|i: int| 0 <= i < ids.len() implies clears(delta, #[trigger] ids[i], ids) by {
        factorial_clears_denominators(ids, ids[i], n_servers);
    }
    assert forall|i: int| 0 <= i < ids.len() implies #[trigger] values[i] == pow(
        rep as int,
        (2 * delta * (eval(c, ids[i] as int) % m)) as nat,
    ) % n by {
        assert(1 <= ids[i] <= n_servers);
        let sh = s.shares@[ids[i] - 1].s_i@;
        assert(sh == eval(c, ids[i] as int) % m);
        assert(2 * s.public.delta@ * sh == (2 * delta * (sh as int)) as nat) by (nonlinear_arith)
            requires
                delta == s.public.delta@,
        ;
        vstd::arithmetic::div_mod::lemma_mod_bound(
            pow(rep as int, 2 * s.public.delta@ * sh),
            n,
        );
    }
    let tail = eval(c.drop_first(), 0);
    assert(0 * tail == 0);
    assert(eval(c, 0) == c[0]);
    vstd::arithmetic::div_mod::lemma_small_mod(c[0] as nat, m as nat);
    assert(4 * delta * delta == (4 * s.public.delta@ * s.public.delta@) as int);
    threshold_signature_verifies(n, 65537, m, delta, c, ids, rep as int, values);
}

/// A setup of two different primes, shared on at most `threshold` coefficients among fewer
/// servers than the public exponent says: any `threshold` of its shares sign.
pub proof fn any_threshold_signs(
    s: ShoupSetup,
    n_servers: nat,
    p: nat,
    q: nat,
    c: Seq<int>,
    threshold: nat,
)
    requires
        s.made_from(n_servers, p, q, c),
        is_prime(p as int),
        is_prime(q as int),
        p != q,
        p > 2,
        q > 2,
        n_servers < 65537,
        c.len() <= threshold,
    ensures
        s.any_shares_sign(threshold),
{
    let n = s.public.n@ as int;
    large_prime_is_odd(p as int);
    large_prime_is_odd(q as int);
    assert forall|ids: Seq<u32>, rep: nat|
        distinct(ids) && (forall|k: int|
            0 <= k < ids.len() ==> 1 <= #[trigger] ids[k] <= s.shares@.len()) && ids.len()
            >= threshold && rep < s.public.n@ && coprime(rep as int, n) implies (
    combined_signature(
        n,
        s.public.e@ as int,
        s.public.delta@ as int,
        rep as int,
        ids,
        #[trigger] s.partials(ids, rep),
    ) matches Some(y) && 0 <= y < n && pow(y, s.public.e@) % n == rep) by {
        assert(n == p as int * q as int);
        coprime_to_both(rep as int, p as int, q as int);
        any_servers_sign(s, n_servers, p, q, c, ids, rep, s.partials(ids, rep));
    }
}

/// A sound setup whose two numbers are primes: any `threshold` of its shares sign.
pub proof fn sound_setup_signs(
    s: ShoupSetup,
    n_servers: nat,
    threshold: nat,
    rng: RngState,
    after: RngState,
    p: nat,
    q: nat,
)
    requires
        s.sound_from(n_servers, threshold, rng, after, p, q),
        1 <= threshold <= n_servers < 65537,
        is_prime(p as int),
        is_prime(q as int),
    ensures
        s.any_shares_sign(threshold),
{
    let m = exponent_modulus(p, q);
    lemma_drawn_below_len(rng, (threshold - 1) as nat, m);
    any_threshold_signs(s, n_servers, p, q, exponent_poly(m, threshold, rng), threshold);
}

impl Fixture {
    /// The servers share the key of the password function on `ck`, and `t` of them can
    /// evaluate it. The group is a proper one: its generator has the stated order, which is a
    /// prime.
    pub open spec fn evaluates(self, ck: Seq<int>) -> bool {
        &&& self.top.params.proper()
        &&& is_prime(self.top.params.order@ as int)
        &&& self.top.params.order@ > u32::MAX
        &&& 1 <= self.t <= self.servers@.len()
        &&& self.t <= u32::MAX
        &&& ck.len() <= self.t
        &&& forall|k: int|
            0 <= k < self.t ==> (#[trigger] self.servers@[k])@.top == eval(ck, k + 1) % (
            self.top.params.order@ as int)
    }

    /// The servers share the key of the password function on `ck`, and every server holds the
    /// key of the password.
    pub open spec fn holds_password(self, ck: Seq<int>, password: Seq<u8>) -> bool {
        &&& self.evaluates(ck)
        &&& self.all_keys_are(password_key(self.top.params, ck, password))
    }

    /// The servers hold the shares of a setup of two different odd primes, with the signing
    /// exponent shared on `c`.
    pub open spec fn signs_by(self, n_servers: nat, p: nat, q: nat, c: Seq<int>) -> bool {
        &&& self.ttg.made_from(n_servers, p, q, c)
        &&& is_prime(p as int)
        &&& is_prime(q as int)
        &&& p != q
        &&& p % 2 == 1
        &&& q % 2 == 1
        &&& c.len() <= self.t <= n_servers < 65537
        &&& self.t <= self.servers@.len()
        &&& forall|k: int|
            0 <= k < self.t ==> (#[trigger] self.servers@[k])@.ttg == self.ttg.shares@[k].s_i@
    }

    /// The signature that the own partial signatures of the first `t` servers combine to.
    pub open spec fn own_signature_on(self, msg: Seq<u8>) -> Option<int> {
        let pk = self.ttg.public;
        combined_signature(
            pk.n@ as int,
            pk.e@ as int,
            pk.delta@ as int,
            encoded(pk.n@, msg) as int,
            first_ids(self.t as nat),
            self.own_partials_on(msg),
        )
    }
}

/// What the first `t` servers give for a password is its key, whatever the blinding factor.
pub proof fn servers_give_password_key(fx: Fixture, ck: Seq<int>, password: Seq<u8>, rho: nat)
    requires
        fx.evaluates(ck),
        0 < rho < fx.top.params.order@,
    ensures
        function_value(
            fx.top.params,
            tops(states(fx.servers@)),
            fx.t as nat,
            password,
            rho,
        ) == Some(password_key(fx.top.params, ck, password)),
{
    let all = tops(states(fx.servers@));
    assert forall|k: int| 0 <= k < fx.t implies #[trigger] all[k] == eval(ck, k + 1) % (
    fx.top.params.order@ as int) by {
        assert(all[k] == fx.servers@[k]@.top);
    }
    function_value_is_fixed(fx.top.params, ck, all, fx.t as nat, password, rho);
}

proof fn lemma_be_nat_padded(v: nat, len: nat)
    ensures
        be_nat(padded(v, len)) == v,
{
    let b = be_bytes(v);
    lemma_be_nat_of_be_bytes(v);
    if b.len() < len {
        lemma_be_nat_leading_zeros(Seq::new((len - b.len()) as nat, |i: int| 0u8), b);
    }
}

/// Where the keys of the servers are those of a function value, the client decrypts their own
/// partial signatures with it.
pub proof fn own_partials_are_decrypted(fx: Fixture, msg: Seq<u8>, h: Seq<u8>, rng: RngState)
    requires
        fx.t <= fx.servers@.len(),
        fx.keys_are(h),
    ensures
        decrypted_partials(
            fx.ttg.public,
            states(fx.servers@),
            encoded(fx.ttg.public.n@, msg),
            h,
            fx.t as nat,
            rng,
        ) == fx.own_partials_on(msg),
{
    let pk = fx.ttg.public;
    let servers = states(fx.servers@);
    let rep = encoded(pk.n@, msg);
    let got = decrypted_partials(pk, servers, rep, h, fx.t as nat, rng);
    assert forall|k: int| 0 <= k < fx.t implies #[trigger] got[k] == fx.own_partials_on(
        msg,
    )[k] by {
        let iv = after_ivs(rng, k as nat).bytes(16);
        let v = partial_value(rep, pk.delta@, servers[k].ttg, pk.n@);
        let key = server_key(h, (k + 1) as u32);
        assert(servers[k] == fx.servers@[k]@);
        assert(fx.servers@[k]@.h_i == key);
        ofb_undone(key, key, iv, padded(v, bytes_needed(pk.n@)));
        lemma_be_nat_padded(v, bytes_needed(pk.n@));
    }
    assert(got =~= fx.own_partials_on(msg));
}

/// With the right password a signature depends on the message and the servers' signing shares
/// alone, not on what the generator yields.
pub proof fn right_password_signature_is_fixed(
    fx: Fixture,
    ck: Seq<int>,
    msg: Seq<u8>,
    password: Seq<u8>,
    rng: RngState,
)
    requires
        fx.holds_password(ck, password),
        bytes_needed(fx.ttg.public.n@) >= 62,
        blinding_drawn(rng, fx.top.params.order@).0 matches Some(rho) && 0 < rho
            < fx.top.params.order@,
    ensures
        match fx.own_signature_on(msg) {
            Some(y) => fx.signing_outcome(msg, password, rng).0 == Ok::<int, Failure>(y),
            None => fx.signing_outcome(msg, password, rng).0 == Err::<int, Failure>(
                Failure::NoInverse,
            ),
        },
{
    let (rho, rng1) = blinding_drawn(rng, fx.top.params.order@);
    let h = password_key(fx.top.params, ck, password);
    servers_give_password_key(fx, ck, password, rho->Some_0);
    assert(fx.keys_are(h));
    own_partials_are_decrypted(fx, msg, h, rng1);
}

/// The own partial signatures of the first `t` servers combine to a signature that verifies.
/// Neither prime divides the number to sign.
pub proof fn own_signature_verifies(
    fx: Fixture,
    n_servers: nat,
    p: nat,
    q: nat,
    c: Seq<int>,
    msg: Seq<u8>,
)
    requires
        fx.signs_by(n_servers, p, q, c),
        bytes_needed(fx.ttg.public.n@) >= 62,
        signature_block(msg, bytes_needed(fx.ttg.public.n@)).len() == bytes_needed(
            fx.ttg.public.n@,
        ),
        !divides(p as int, encoded(fx.ttg.public.n@, msg) as int),
        !divides(q as int, encoded(fx.ttg.public.n@, msg) as int),
    ensures
        fx.own_signature_on(msg) matches Some(y) && 0 <= y < fx.ttg.public.n@ && pow(
            y,
            fx.ttg.public.e@,
        ) % (fx.ttg.public.n@ as int) == encoded(fx.ttg.public.n@, msg),
{
    let t = fx.t as nat;
    let ids = first_ids(t);
    let rep = encoded(fx.ttg.public.n@, msg);
    let values = fx.own_partials_on(msg);
    encoded_below_modulus(fx.ttg.public.n@, msg);
    lemma_first_ids(t);
    assert forall|k: int| 0 <= k < ids.len() implies 1 <= #[trigger] ids[k] <= n_servers by {
        assert(ids[k] as int == k + 1);
    }
    assert forall|k: int| 0 <= k < ids.len() implies #[trigger] values[k] == partial_value(
        rep,
        fx.ttg.public.delta@,
        fx.ttg.shares@[ids[k] - 1].s_i@,
        fx.ttg.public.n@,
    ) by {
        assert(ids[k] as int == k + 1);
        assert(fx.servers@[k]@.ttg == fx.ttg.shares@[k].s_i@);
    }
    any_servers_sign(fx.ttg, n_servers, p, q, c, ids, rep, values);
}

/// A signature of a message verifies exactly where it is the one that the servers' own partial
/// signatures combine to. Neither prime divides the number to sign.
pub proof fn only_own_signature_verifies(
    fx: Fixture,
    n_servers: nat,
    p: nat,
    q: nat,
    c: Seq<int>,
    msg: Seq<u8>,
    y: nat,
)
    requires
        fx.signs_by(n_servers, p, q, c),
        bytes_needed(fx.ttg.public.n@) >= 62,
        signature_block(msg, bytes_needed(fx.ttg.public.n@)).len() == bytes_needed(
            fx.ttg.public.n@,
        ),
        !divides(p as int, encoded(fx.ttg.public.n@, msg) as int),
        !divides(q as int, encoded(fx.ttg.public.n@, msg) as int),
        y < fx.ttg.public.n@,
    ensures
        pow(y as int, fx.ttg.public.e@) % (fx.ttg.public.n@ as int) == encoded(
            fx.ttg.public.n@,
            msg,
        ) <==> fx.own_signature_on(msg) == Some(y as int),
{
    let n = fx.ttg.public.n@ as int;
    let rep = encoded(fx.ttg.public.n@, msg);
    own_signature_verifies(fx, n_servers, p, q, c, msg);
    if pow(y as int, fx.ttg.public.e@) % n == rep {
        let z = fx.own_signature_on(msg)->Some_0;
        assert(n == p as int * q as int);
        root_is_unique(y, z as nat, 65537, c[0], rep, p, q);
    }
}

/// After registration every server holds the key of the client's password, where the numbers
/// of the group are prime.
pub proof fn registration_holds_password(fx: Fixture, n: nat, t: nat, rng: RngState)
    requires
        fx.registered(n, t, rng),
        1 <= t <= n <= u32::MAX,
        is_prime(be_nat(MODP14_PRIME@) as int),
        is_prime(group_order() as int),
        blinding_drawn(after_below(rng, t, group_order()), group_order()).0 matches Some(rho)
            && 0 < rho < group_order(),
    ensures
        fx.holds_password(drawn_below(rng, t, group_order()), fx.password@),
{
    let q = group_order();
    let ck = drawn_below(rng, t, q);
    let params = fx.top.params;
    lemma_drawn_below_len(rng, t, q);
    modp_group_is_proper();
    assert(params.proper());
    let all = setup_tops(fx.top.shares@);
    assert forall|k: int| 0 <= k < t implies #[trigger] all[k] == eval(ck, k + 1) % (
    q as int) by {
        assert(fx.top.shares@[k].value@ == eval(ck, k + 1) % (q as int));
    }
    let rho = blinding_drawn(after_below(rng, t, q), q).0->Some_0;
    function_value_is_fixed(params, ck, all, t, fx.password@, rho);
    assert forall|k: int| 0 <= k < fx.t implies (#[trigger] fx.servers@[k])@.top == eval(
        ck,
        k + 1,
    ) % (params.order@ as int) by {
        assert(all[k] == fx.top.shares@[k].value@);
    }
}

/// After registration on a setup the deployment is usable, and the first `t` servers sign with
/// the setup.
pub proof fn registration_signs(
    fx: Fixture,
    n: nat,
    t: nat,
    rng: RngState,
    p: nat,
    q: nat,
    c: Seq<int>,
)
    requires
        fx.registered(n, t, rng),
        t <= n < 65537,
        fx.ttg.made_from(n, p, q, c),
        c.len() <= t,
        is_prime(p as int),
        is_prime(q as int),
        p != q,
        p % 2 == 1,
        q % 2 == 1,
    ensures
        fx.signs_by(n, p, q, c),
        fx.usable(),
{
    let ids = first_ids(t);
    lemma_first_ids(t);
    assert forall|k: int| 0 <= k < ids.len() implies 1 <= #[trigger] ids[k] <= n by {
        assert(ids[k] as int == k + 1);
    }
    assert forall|k: int| 0 <= k < t implies clears(
        fx.ttg.public.delta@ as int,
        #[trigger] ids[k],
        ids,
    ) by {
        factorial_clears_denominators(ids, ids[k], n);
    }
    assert(p * q > 0) by (nonlinear_arith)
        requires
            p > 1,
            q > 1,
    ;
}

/// A modulus of 2048 bits has room for a signature block.
proof fn lemma_long_modulus(n: nat)
    requires
        n >= pow2(2047),
    ensures
        bytes_needed(n) >= 62,
{
    let b = be_bytes(n);
    lemma_pow2_pos(2047);
    lemma_be_nat_of_be_bytes(n);
    lemma_be_nat_upper(b);
    if b.len() < 62 {
        lemma_pow_increases(256, b.len(), 61);
        lemma_byte_powers(61);
        lemma_pow2_strictly_increases(488, 2047);
    }
}

/// After registration on a sound setup whose two numbers are primes, the deployment is usable,
/// the first `t` servers sign with the setup, and the modulus is long enough.
pub proof fn registration_on_sound_setup(
    fx: Fixture,
    n: nat,
    t: nat,
    rng: RngState,
    setup_rng: RngState,
    after: RngState,
    p: nat,
    q: nat,
)
    requires
        fx.registered(n, t, rng),
        1 <= t <= n < 65537,
        fx.ttg.sound_from(n, t, setup_rng, after, p, q),
        is_prime(p as int),
        is_prime(q as int),
    ensures
        fx.usable(),
        fx.signs_by(n, p, q, exponent_poly(exponent_modulus(p, q), t, setup_rng)),
        bytes_needed(fx.ttg.public.n@) >= 62,
{
    let m = exponent_modulus(p, q);
    lemma_drawn_below_len(setup_rng, (t - 1) as nat, m);
    registration_signs(fx, n, t, rng, p, q, exponent_poly(m, t, setup_rng));
    lemma_long_modulus(fx.ttg.public.n@);
}

/// On a sound setup of primes a registered client's password gives, for every payload, one
/// token, whatever the generator yields, and it verifies. What another password gives verifies
/// exactly where it is that token. Neither prime divides the number to sign, and the servers
/// hold the key of the password, as they do after registration where the numbers of the group
/// are prime.
pub proof fn registered_password_signs(
    fx: Fixture,
    n: nat,
    t: nat,
    rng: RngState,
    setup_rng: RngState,
    after: RngState,
    p: nat,
    q: nat,
    payload: Seq<u8>,
    rng1: RngState,
    other: Seq<u8>,
    rng2: RngState,
)
    requires
        fx.registered(n, t, rng),
        1 <= t <= n < 65537,
        fx.ttg.sound_from(n, t, setup_rng, after, p, q),
        is_prime(p as int),
        is_prime(q as int),
        fx.holds_password(drawn_below(rng, t, group_order()), fx.password@),
        blinding_drawn(rng1, group_order()).0 matches Some(rho) && 0 < rho < group_order(),
        ({
            let n = fx.ttg.public.n@;
            let msg = message(payload, fx.client_id@);
            &&& signature_block(msg, bytes_needed(n)).len() == bytes_needed(n)
            &&& !divides(p as int, encoded(n, msg) as int)
            &&& !divides(q as int, encoded(n, msg) as int)
        }),
    ensures
        ({
            let pk = fx.ttg.public;
            let own = fx.own_signature_on(message(payload, fx.client_id@));
            let rep = encoded(pk.n@, message(payload, fx.client_id@));
            &&& own matches Some(y) && 0 <= y < pk.n@ && pow(y, pk.e@) % (pk.n@ as int) == rep
            &&& fx.token_outcome(payload, fx.password@, rng1).0 == Ok::<int, Failure>(
                own->Some_0,
            )
            &&& fx.token_outcome(payload, other, rng2).0 matches Ok(z) ==> 0 <= z < pk.n@ ==> (pow(
                z,
                pk.e@,
            ) % (pk.n@ as int) == rep <==> z == own->Some_0)
        }),
{
    let c = exponent_poly(exponent_modulus(p, q), t, setup_rng);
    let msg = message(payload, fx.client_id@);
    let ck = drawn_below(rng, t, group_order());
    registration_on_sound_setup(fx, n, t, rng, setup_rng, after, p, q);
    own_signature_verifies(fx, n, p, q, c, msg);
    right_password_signature_is_fixed(fx, ck, msg, fx.password@, rng1);
    if fx.token_outcome(payload, other, rng2).0 is Ok {
        let z = fx.token_outcome(payload, other, rng2).0->Ok_0;
        if 0 <= z < fx.ttg.public.n@ {
            only_own_signature_verifies(fx, n, p, q, c, msg, z as nat);
        }
    }
}

} // verus!
