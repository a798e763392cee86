//! What a client of the RSA-based scheme does with the replies, what its updates change, how its
//! random numbers are drawn, and how numbers are written.
use vstd::arithmetic::power::pow;
use vstd::prelude::*;

use crate::augsso_fixture::first_ids;
use crate::bignum::{
    be_bytes, be_nat, below_drawn, biguint_below, bytes_needed, lemma_be_nat_of_be_bytes, quotient,
};
use crate::bytes::le_nat;
use crate::field::{after_draws, drawn, sharing_poly};
use crate::modp_toprf::{
    blinding_drawn, combined_value, first_nonzero_below, unblinded_value, value_hash, weights_exist,
    ToprfParams,
};
use crate::paper_client::{
    opened_partials, read_replies, token_from, two_fields, Replies, TokenFault,
};
use crate::paper_hash::ofb_applied;
use crate::paper_math::invertible;
use crate::paper_protocol::{
    after_ivs, decrypted_partials, encoded, function_value, reports, representative, takers,
    takes_change, tops, update_body, values_of, Failure, Fixture, ServerState,
};
use crate::rng::RngState;
use crate::shoup::{
    after_below, combined_signature, drawn_below, exponent_poly, inverse_mod, signed_power,
    CryptoError,
};
use crate::ssh_agent::exact_outcome;
use crate::wire::{field, token_response_in, WireError};

verus! {

/// Replies are read one by one, in order, up to the first that cannot be read.
pub proof fn replies_are_read_in_order(replies: Seq<Seq<u8>>, k: int)
    requires
        0 <= k <= replies.len(),
    ensures
        match read_replies(replies, k) {
            Ok(v) => v.ids.len() == k && v.values.len() == k && v.parts.len() == k && v.ivs.len()
                == k && forall|i: int|
                0 <= i < k ==> (token_response_in(#[trigger] replies[i]) matches Ok(x) && x.0
                    == v.ids[i] && x.1 as int == v.values[i] && x.2 == v.parts[i] && x.3
                    == v.ivs[i]),
            Err(e) => exists|i: int|
                0 <= i < k && token_response_in(#[trigger] replies[i]) == Err::<
                    (u32, nat, Seq<u8>, Seq<u8>),
                    WireError,
                >(e) && forall|j: int|
                    0 <= j < i ==> token_response_in(#[trigger] replies[j]) is Ok,
        },
    decreases k,
{
    if k > 0 {
        replies_are_read_in_order(replies, k - 1);
        match read_replies(replies, k - 1) {
            Err(e) => {},
            Ok(v) => match token_response_in(replies[k - 1]) {
                Err(e) => {
                    assert forall|j: int| 0 <= j < k - 1 implies token_response_in(
                        #[trigger] replies[j],
                    ) is Ok by {}
                },
                Ok(x) => {
                    let w = read_replies(replies, k)->Ok_0;
                    assert forall|i: int| 0 <= i < k implies (token_response_in(
                        #[trigger] replies[i],
                    ) matches Ok(x) && x.0 == w.ids[i] && x.1 as int == w.values[i] && x.2
                        == w.parts[i] && x.3 == w.ivs[i]) by {
                        if i < k - 1 {
                            assert(w.ids[i] == v.ids[i]);
                            assert(w.values[i] == v.values[i]);
                            assert(w.parts[i] == v.parts[i]);
                            assert(w.ivs[i] == v.ivs[i]);
                        }
                    }
                },
            },
        }
    }
}

/// Each partial signature is what the reply's part holds under the key of the server that sent
/// it, and its vector.
pub proof fn partials_open_under_their_server_key(v: Replies, h: Seq<u8>, i: int)
    requires
        0 <= i < v.ids.len(),
    ensures
        opened_partials(v, h).len() == v.ids.len(),
        opened_partials(v, h)[i] == be_nat(
            ofb_applied(
                crate::paper_hash::sha256(h + crate::decimal::decimal(v.ids[i] as nat)),
                v.ivs[i],
                v.parts[i],
            ),
        ),
{
}

/// A token is combined from what the replies hold under the value of the password, on the
/// payload and client. Replies that cannot be read, numbers without inverse, and a modulus that
/// is too short are refused in this order.
pub proof fn tokens_are_combined_from_replies(
    fx: Fixture,
    password: Seq<u8>,
    payload: Seq<u8>,
    rho: int,
    replies: Seq<Seq<u8>>,
)
    ensures
        ({
            let pk = fx.ttg.public;
            let q = fx.top.params.order@ as int;
            let got = token_from(fx, password, payload, rho, replies);
            match read_replies(replies, replies.len() as int) {
                Err(e) => got == Err::<int, TokenFault>(TokenFault::Wire(e)),
                Ok(v) => {
                    let solvable = weights_exist(v.ids, q) && invertible(rho, q);
                    let h = value_hash(
                        password,
                        unblinded_value(fx.top.params, rho, v.ids, v.values),
                    );
                    let y = combined_signature(
                        pk.n@ as int,
                        pk.e@ as int,
                        pk.delta@ as int,
                        representative(pk.n@, payload, fx.client_id@) as int,
                        v.ids,
                        opened_partials(v, h),
                    );
                    &&& !solvable ==> got == Err::<int, TokenFault>(TokenFault::NoInverse)
                    &&& solvable && bytes_needed(pk.n@) < 62 ==> got == Err::<int, TokenFault>(
                        TokenFault::Representative,
                    )
                    &&& got matches Ok(x) ==> solvable && bytes_needed(pk.n@) >= 62 && y == Some(x)
                    &&& got == Err::<int, TokenFault>(TokenFault::NoInverse) && solvable ==> y
                        is None
                },
            }
        }),
{
}

/// A value is the hash of the password with the combined answers, without the blinding factor;
/// each answer is the power of the blinded password by the server's share.
pub proof fn values_combine_the_first_servers(
    params: ToprfParams,
    shares: Seq<nat>,
    t: nat,
    password: Seq<u8>,
    rho: nat,
    k: int,
)
    requires
        0 <= k < t,
    ensures
        ({
            let m = params.modulus@ as int;
            let e = pow(crate::modp_toprf::password_element(params, password), rho) % m;
            let z = values_of(params, shares, e, t);
            &&& z.len() == t
            &&& z[k] == pow(e, shares[k]) % m
            &&& function_value(params, shares, t, password, rho) matches Some(h) ==> h
                == value_hash(password, unblinded_value(params, rho as int, first_ids(t), z))
            &&& function_value(params, shares, t, password, rho) is None <==> !(weights_exist(
                first_ids(t),
                params.order@ as int,
            ) && invertible(rho as int, params.order@ as int))
        }),
{
}

/// Answers are combined by multiplying their powers by the weights of the servers' numbers.
pub proof fn answers_are_multiplied(values: Seq<int>, lam: Seq<int>, m: int, k: int)
    requires
        0 <= k,
    ensures
        combined_value(values, lam, m, 0) == 1,
        combined_value(values, lam, m, k + 1) == (combined_value(values, lam, m, k) * (pow(
            values[k],
            lam[k] as nat,
        ) % m)) % m,
{
}

/// The number of servers that take a change counts exactly those that do: it is that of all
/// servers only where each takes its own.
pub proof fn takers_are_counted(servers: Seq<ServerState>, body: Seq<u8>, k: int)
    requires
        0 <= k <= servers.len(),
    ensures
        takers(servers, body, k) <= k,
        takers(servers, body, k) == k <==> forall|i: int|
            0 <= i < k ==> takes_change(#[trigger] servers[i], body, i),
        takers(servers, body, k) == 0 <==> forall|i: int|
            0 <= i < k ==> !takes_change(#[trigger] servers[i], body, i),
    decreases k,
{
    if k > 0 {
        takers_are_counted(servers, body, k - 1);
        assert(servers[k - 1] == servers[k - 1]);
    }
}

/// An update is planned from the value of the old password to that of the new one, with a
/// fresh factor for each, and has a change for every server.
pub proof fn updates_change_between_values(fx: Fixture, rng: RngState)
    ensures
        ({
            let params = fx.top.params;
            let all = tops(crate::paper_protocol::states(fx.servers@));
            let t = fx.t as nat;
            let (a, rng1) = blinding_drawn(rng, params.order@);
            let (b, rng2) = blinding_drawn(rng1, params.order@);
            &&& fx.update_plan(rng).0 matches Ok(body) ==> a is Some && b is Some && ({
                let old = function_value(params, all, t, fx.password@, a->Some_0);
                let new = function_value(params, all, t, fx.new_password@, b->Some_0);
                &&& old is Some
                &&& new is Some
                &&& body == update_body(old->Some_0, new->Some_0, fx.n as nat, rng2)
                &&& fx.update_plan(rng).1 == after_ivs(rng2, fx.n as nat)
            })
            &&& a is None ==> fx.update_plan(rng).0 == Err::<Seq<u8>, Failure>(
                Failure::NoBlinding,
            )
        }),
{
}

/// An update that is sent carries a signature by the old password that verifies on its body and
/// client.
pub proof fn sent_updates_verify(fx: Fixture, rng: RngState, body: Seq<u8>)
    requires
        fx.update_outcome(rng).0 == Ok::<Seq<u8>, Failure>(body),
    ensures
        fx.update_plan(rng).0 == Ok::<Seq<u8>, Failure>(body),
        fx.signing_outcome(
            body + fx.client_id@,
            fx.password@,
            fx.update_plan(rng).1,
        ).0 matches Ok(y) && pow(y, fx.ttg.public.e@) % (fx.ttg.public.n@ as int) == encoded(
            fx.ttg.public.n@,
            body + fx.client_id@,
        ),
{
}

/// What is handed out as an exact signature verifies on the message.
pub proof fn exact_signatures_verify(fx: Fixture, data: Seq<u8>, rng: RngState)
    ensures
        exact_outcome(fx, data, rng).0 matches Ok(y) ==> pow(y, fx.ttg.public.e@) % (
        fx.ttg.public.n@ as int) == encoded(fx.ttg.public.n@, data) && fx.signing_outcome(
            data,
            fx.password@,
            rng,
        ).0 == Ok::<int, Failure>(y),
        exact_outcome(fx, data, rng).1 == fx.signing_outcome(data, fx.password@, rng).1,
        fx.signing_outcome(data, fx.password@, rng).0 matches Err(f) ==> exact_outcome(
            fx,
            data,
            rng,
        ).0 == Err::<int, Failure>(f),
{
}

/// Signing draws a blinding factor and a vector for every server asked; it fails where no factor
/// is found, the modulus is too short or a number has no inverse, in this order.
pub proof fn signing_fails_in_order(fx: Fixture, msg: Seq<u8>, password: Seq<u8>, rng: RngState)
    ensures
        ({
            let pk = fx.ttg.public;
            let servers = crate::paper_protocol::states(fx.servers@);
            let (rho, rng1) = blinding_drawn(rng, fx.top.params.order@);
            let got = fx.signing_outcome(msg, password, rng);
            let value = function_value(
                fx.top.params,
                tops(servers),
                fx.t as nat,
                password,
                rho->Some_0,
            );
            &&& rho is None ==> got == (Err::<int, Failure>(Failure::NoBlinding), rng1)
            &&& rho is Some && bytes_needed(pk.n@) < 62 ==> got == (
                Err::<int, Failure>(Failure::InvalidRepresentative),
                rng1,
            )
            &&& rho is Some && bytes_needed(pk.n@) >= 62 ==> got.1 == after_ivs(
                rng1,
                fx.t as nat,
            ) && (value is None ==> got.0 == Err::<int, Failure>(Failure::NoInverse)) && (
            got.0 matches Ok(y) ==> value is Some && combined_signature(
                pk.n@ as int,
                pk.e@ as int,
                pk.delta@ as int,
                encoded(pk.n@, msg) as int,
                first_ids(fx.t as nat),
                decrypted_partials(
                    pk,
                    servers,
                    encoded(pk.n@, msg),
                    value->Some_0,
                    fx.t as nat,
                    rng1,
                ),
            ) == Some(y))
        }),
{
}

/// Each error of a signature says which step failed.
pub proof fn failures_are_told_apart(e: CryptoError, f: Failure, g: Failure)
    requires
        reports(e, f),
        reports(e, g),
    ensures
        f == g,
        f == Failure::NoBlinding <==> e is NoBlinding,
        f == Failure::NoInverse <==> e is NoInverse,
        f == Failure::InvalidThreshold <==> e is InvalidThreshold,
        f == Failure::InvalidRepresentative <==> e is InvalidRepresentative,
{
}

/// A request of two fields is its command, and each field with its length.
pub proof fn requests_have_their_layout(command: u8, a: Seq<u8>, b: Seq<u8>)
    ensures
        two_fields(command, a, b).len() == 9 + a.len() + b.len(),
        two_fields(command, a, b)[0] == command,
        two_fields(command, a, b).subrange(1, 5 + a.len() as int) == field(a),
        two_fields(command, a, b).skip(5 + a.len() as int) == field(b),
{
    let s = two_fields(command, a, b);
    assert(s.subrange(1, 5 + a.len() as int) =~= field(a));
    assert(s.skip(5 + a.len() as int) =~= field(b));
}

/// Numbers are drawn one behind the other, and a polynomial has its secret first and then the
/// numbers drawn.
pub proof fn coefficients_are_drawn_in_turn(
    rng: RngState,
    secret: nat,
    t: nat,
    m: nat,
    k: nat,
)
    requires
        t >= 1,
    ensures
        after_draws(rng, 0) == rng,
        after_draws(rng, k + 1) == after_draws(rng, k).skip(64),
        drawn(rng, k + 1, m) == drawn(rng, k, m).push(
            (le_nat(after_draws(rng, k).bytes(64)) % m) as int,
        ),
        sharing_poly(secret, t, rng, m) == seq![secret as int] + drawn(rng, (t - 1) as nat, m),
        after_below(rng, 0, m) == rng,
        after_below(rng, k + 1, m) == below_drawn(after_below(rng, k, m), m).1,
        drawn_below(rng, k + 1, m) == drawn_below(rng, k, m).push(
            below_drawn(after_below(rng, k, m), m).0 as int,
        ),
        exponent_poly(m, t, rng) == seq![inverse_mod(65537, m as int)] + drawn_below(
            rng,
            (t - 1) as nat,
            m,
        ),
        below_drawn(rng, m).0 == biguint_below(rng.seed, rng.pos, m).0,
        below_drawn(rng, m).1.seed == rng.seed,
        below_drawn(rng, m).1.pos == biguint_below(rng.seed, rng.pos, m).1,
{
}

/// A blinding factor is the first number drawn that is not zero.
pub proof fn blinding_factors_are_not_zero(rng: RngState, bound: nat, left: nat)
    ensures
        first_nonzero_below(rng, bound, left).0 matches Some(v) ==> v != 0,
        left > 0 && below_drawn(rng, bound).0 != 0 ==> first_nonzero_below(rng, bound, left) == (
            Some(below_drawn(rng, bound).0),
            below_drawn(rng, bound).1,
        ),
        left > 0 && below_drawn(rng, bound).0 == 0 ==> first_nonzero_below(rng, bound, left)
            == first_nonzero_below(below_drawn(rng, bound).1, bound, (left - 1) as nat),
        first_nonzero_below(rng, bound, 0) == (None::<nat>, rng),
    decreases left,
{
    if left > 0 && below_drawn(rng, bound).0 == 0 {
        blinding_factors_are_not_zero(below_drawn(rng, bound).1, bound, (left - 1) as nat);
    }
}

/// Random bytes depend on the seed and the position; a draw moves the position by the words
/// that it takes, and never the seed.
pub proof fn draws_move_by_whole_words(seed: Seq<u8>, rng: RngState, len: nat)
    requires
        rng.pos + len + 4 < crate::rng::PERIOD_WORDS,
    ensures
        RngState::start(seed).seed == seed,
        RngState::start(seed).pos == 0,
        rng.skip(len).seed == rng.seed,
        len <= 4 * (rng.skip(len).pos - rng.pos) < len + 4,
{
}

/// Bytes and numbers correspond: the value of bytes puts the most significant first, a number's
/// bytes have no leading zero, and as many are needed.
pub proof fn numbers_are_written_without_leading_zeros(n: nat, s: Seq<u8>, b: u8)
    ensures
        be_nat(be_bytes(n)) == n,
        n > 0 ==> be_bytes(n)[0] != 0,
        be_bytes(n).len() >= 1,
        n > 0 ==> bytes_needed(n) == be_bytes(n).len(),
        bytes_needed(0) == 0,
        be_nat(s.push(b)) == be_nat(s) * 256 + b,
        be_nat(Seq::<u8>::empty()) == 0,
    decreases n,
{
    lemma_be_nat_of_be_bytes(n);
    assert(s.push(b).drop_last() =~= s);
    if n >= 256 {
        numbers_are_written_without_leading_zeros(n / 256, s, b);
        assert(be_bytes(n)[0] == be_bytes(n / 256)[0]);
    }
}

/// Division of signed numbers rounds toward zero.
pub proof fn quotients_round_toward_zero(a: int, b: int)
    requires
        b != 0,
    ensures
        quotient(-a, b) == -quotient(a, b),
        quotient(a, -b) == -quotient(a, b),
        a >= 0 && b > 0 ==> quotient(a, b) * b <= a < (quotient(a, b) + 1) * b,
{
    if a >= 0 && b > 0 {
        vstd::arithmetic::div_mod::lemma_fundamental_div_mod(a, b);
        vstd::arithmetic::div_mod::lemma_mod_bound(a, b);
        let q = a / b;
        assert(q * b == b * q) by (nonlinear_arith);
        assert((q + 1) * b == q * b + b) by (nonlinear_arith);
    }
    if a == 0 {
        let c = if b > 0 {
            b
        } else {
            -b
        };
        vstd::arithmetic::div_mod::lemma_div_basics(c);
    }
}

/// A power with a negative exponent is that of the inverse, and exists only where there is one.
pub proof fn negative_powers_invert(base: int, e: nat, m: int)
    requires
        e > 0,
    ensures
        signed_power(base, e as int, m) == Some(pow(base, e) % m),
        invertible(base, m) ==> signed_power(base, -(e as int), m) == Some(
            pow(inverse_mod(base, m), e) % m,
        ),
        !invertible(base, m) ==> signed_power(base, -(e as int), m) is None,
{
}

} // verus!
