//! What the messages and printed lines say, and which texts are read as numbers with a point.
use vstd::prelude::*;

use crate::cli::experiment_row;
use crate::engine::{
    kinds_given, lower_parts, offline_spec, refusal_text, Engine, OfflineSpec, Refusal,
};
use crate::engine_grid::{bad_quorum_threshold, op_name, too_few_left};
use crate::float_text::{first_of_two, is_float, unsigned};
use crate::modern_agent::{modern_text, round_text, ModernError, RoundFault};
use crate::net_phases::Op;
use crate::paper_agent::{agent_text, AgentError};
use crate::provider::{phase_text, PhaseError};
use crate::quorum::quorum;
use crate::shoup::{crypto_text, CryptoError};
use crate::ssh_agent::packet_text;
use crate::stats::Stats;
use crate::text::{all_digits, join, lower, numeral, parsed, replaced, split, trim};
use crate::unified_run::{fault_text, max_unavailable, offline_error, LinkFault};
use crate::wire::{wire_text, WireError};

verus! {

/// A failed phase names the numbers of providers that there were and that it takes.
pub proof fn phase_errors_say_why(a: usize, b: usize)
    ensures
        phase_text(PhaseError::NotEnoughOnline { online: a, needed: b })
            == "not enough online providers: online="@ + numeral(a as nat) + ", needed="@
            + numeral(b as nat),
        phase_text(PhaseError::QuorumFailed { acks: a, qsp: b }) == "quorum write failed: acks="@
            + numeral(a as nat) + ", qsp="@ + numeral(b as nat),
        phase_text(PhaseError::NoCoordinator) == "no online coordinator available"@,
        phase_text(PhaseError::MissingCipherSp) == "not enough ciphersp candidates"@,
        phase_text(PhaseError::LoginServerRejected) == "login server rejected the update"@,
        phase_text(PhaseError::DecryptFailed) == "authenticated decryption failed"@,
{
}

/// A refused frame says what is missing in it; a server of the RSA-based scheme passes that on.
pub proof fn frame_errors_say_why(w: WireError)
    ensures
        wire_text(WireError::MissingLength) == "missing length"@,
        wire_text(WireError::ShortField) == "short field"@,
        wire_text(WireError::ShortResponse) == "short token response"@,
        wire_text(WireError::BadIv) == "bad IV length"@,
        wire_text(WireError::BadLength) == "bad token response length"@,
        agent_text(AgentError::Wire(w)) == wire_text(w),
        agent_text(AgentError::Empty) == "empty command"@,
        agent_text(AgentError::TrailingToken) == "trailing token request data"@,
        agent_text(AgentError::TrailingUpdate) == "trailing update data"@,
        agent_text(AgentError::Representative) == "invalid RSA representative"@,
        agent_text(AgentError::Unknown) == "unknown command"@,
        packet_text(w) == if w == WireError::MissingLength {
            "missing string length"@
        } else {
            "short string"@
        },
{
}

/// A server of the other scheme says which request it refused, and whether it could not read
/// or not answer it.
pub proof fn modern_errors_say_why()
    ensures
        modern_text(ModernError::Empty) == "empty command"@,
        modern_text(ModernError::BadToprf) == "bad TOPRF request"@,
        modern_text(ModernError::ToprfFailed) == "TOPRF response failed"@,
        modern_text(ModernError::BadToken) == "bad token request"@,
        modern_text(ModernError::TokenFailed) == "token response failed"@,
        modern_text(ModernError::BadVar) == "bad variable token request"@,
        modern_text(ModernError::VarFailed) == "variable token response failed"@,
        modern_text(ModernError::BadUpdate) == "bad update request"@,
        modern_text(ModernError::Unknown) == "unknown command"@,
        round_text(RoundFault::BadReply) == "bad TOPRF reply"@,
        round_text(RoundFault::InvalidPoint) == "invalid TOPRF point"@,
{
}

/// A failed computation of the RSA-based scheme says why, and passes on what OpenSSL said.
pub proof fn crypto_errors_say_why(s: String)
    ensures
        crypto_text(CryptoError::OpenSsl(s)) == "OpenSSL error: "@ + s@,
        crypto_text(CryptoError::InvalidThreshold) == "invalid threshold parameters"@,
        crypto_text(CryptoError::NoInverse) == "modular inverse does not exist"@,
        crypto_text(CryptoError::InvalidRepresentative) == "invalid RSA representative"@,
{
}

/// A refused argument is quoted, in the words of the engine that refused it.
pub proof fn refusals_quote_the_argument(e: Engine, s: Seq<char>)
    ensures
        refusal_text(Engine::AugSso, Refusal::Unknown(s)) == "Unknown arg: "@ + s,
        refusal_text(Engine::PasTaU, Refusal::Unknown(s)) == "Unknown flag: "@ + s,
        refusal_text(Engine::Quorum, Refusal::Unknown(s)) == "unknown argument: "@ + s
            + " (use --help)"@,
        refusal_text(e, Refusal::Missing(s)) == "missing "@ + s + " value"@,
        refusal_text(e, Refusal::Bad(s)) == "bad "@ + s,
        refusal_text(e, Refusal::UnknownKind(s)) == "unknown --kind '"@ + s
            + "'; use full-no-net, full-net, quorum-overhead, or all"@,
        refusal_text(e, Refusal::UnknownOp(s)) == "unknown --ops '"@ + s
            + "'; use reg,secupd,pwdupd, or all"@,
{
}

/// A refused threshold or number of absent providers is named with the numbers that refuse it.
pub proof fn refused_numbers_are_named(nsp: nat, tsp: nat, offline: nat)
    requires
        quorum(nsp, tsp) <= nsp,
    ensures
        bad_quorum_threshold(nsp, tsp) == "invalid ABD-style threshold for nsp="@ + numeral(nsp)
            + ": tsp="@ + numeral(tsp) + " is not allowed; require 1 <= tsp <= nsp"@,
        offline <= nsp ==> too_few_left(nsp, tsp, offline)
            == "invalid ABD-style unavailability for nsp="@ + numeral(nsp) + ", tsp="@ + numeral(
            tsp,
        ) + ", qsp="@ + numeral(quorum(nsp, tsp)) + ": offline="@ + numeral(offline)
            + " leaves only "@ + numeral((nsp - offline) as nat)
            + " online providers; maximum executable offline is "@ + numeral(
            (nsp - quorum(nsp, tsp)) as nat,
        ),
        op_name(Op::Reg) == "reg"@,
        op_name(Op::SecUpd) == "secupd"@,
        op_name(Op::PwdUpd) == "pwdupd"@,
{
}

/// A refused link value is named with its link.
pub proof fn link_faults_name_their_link(name: Seq<char>)
    ensures
        fault_text(name, LinkFault::Rtt) == name + " RTT must be finite and nonnegative"@,
        fault_text(name, LinkFault::Jitter) == name + " jitter must be finite and nonnegative"@,
        fault_text(name, LinkFault::Bandwidth) == name
            + " bandwidth must be finite and positive"@,
{
}

/// The number of absent providers is refused at the first pair of numbers whose quorum would
/// not be left, and accepted where it leaves every quorum.
pub proof fn offline_is_refused_at_the_first_pair(v: Seq<(nat, nat)>, count: nat, k: int)
    requires
        0 <= k <= v.len(),
    ensures
        match offline_error(v, count, k) {
            None => forall|i: int|
                k <= i < v.len() ==> count <= #[trigger] max_unavailable(
                    v[i].0,
                    v[i].1,
                ),
            Some(text) => exists|i: int|
                k <= i < v.len() && count > #[trigger] max_unavailable(
                    v[i].0,
                    v[i].1,
                ) && text == "--offline "@ + numeral(count) + " exceeds the admissible maximum "@
                    + numeral(max_unavailable(v[i].0, v[i].1)) + " for nsp="@
                    + numeral(v[i].0) + ", tsp="@ + numeral(v[i].1) && forall|j: int|
                    k <= j < i ==> count <= #[trigger] max_unavailable(
                        v[j].0,
                        v[j].1,
                    ),
        },
    decreases v.len() - k,
{
    if k < v.len() && count <= max_unavailable(v[k].0, v[k].1) {
        offline_is_refused_at_the_first_pair(v, count, k + 1);
    }
}

/// A line of an experiment is its head, the metric, the network where there is one, both numbers,
/// the numbers of samples and of warmup runs, the least time, the median, the 95th percentile,
/// the greatest, the mean and the deviation, with a blank between.
pub proof fn experiment_lines_have_their_fields(
    head: Seq<char>,
    metric: Seq<char>,
    net: Seq<char>,
    n: nat,
    t: nat,
    warmup: nat,
    st: Stats,
    mean: Seq<char>,
    deviation: Seq<char>,
)
    ensures
        experiment_row(head, metric, None, n, t, warmup, st, mean, deviation) == join(
            seq![
                head,
                metric,
                numeral(n),
                numeral(t),
                numeral(st.n as nat),
                numeral(warmup),
                numeral(st.min_ns as nat),
                numeral(st.p50_ns as nat),
                numeral(st.p95_ns as nat),
                numeral(st.max_ns as nat),
                mean,
                deviation,
            ],
            " "@,
        ),
        experiment_row(head, metric, Some(net), n, t, warmup, st, mean, deviation) == join(
            seq![
                head,
                metric,
                net,
                numeral(n),
                numeral(t),
                numeral(st.n as nat),
                numeral(warmup),
                numeral(st.min_ns as nat),
                numeral(st.p50_ns as nat),
                numeral(st.p95_ns as nat),
                numeral(st.max_ns as nat),
                mean,
                deviation,
            ],
            " "@,
        ),
{
    lemma_join_numbers(seq![head, metric], n, t, warmup, st, mean, deviation);
    lemma_join_numbers(seq![head, metric, net], n, t, warmup, st, mean, deviation);
    lemma_join_push(seq![head], metric);
    lemma_join_push(seq![head, metric], net);
    assert(seq![head].drop_last().len() == 0);
    assert(join(seq![head], " "@) == head);
    assert(seq![head].push(metric) =~= seq![head, metric]);
    assert(seq![head, metric].push(net) =~= seq![head, metric, net]);
    assert(seq![head, metric].push(numeral(n)).push(numeral(t)).push(numeral(st.n as nat)).push(numeral(warmup)).push(numeral(st.min_ns as nat)).push(numeral(st.p50_ns as nat)).push(numeral(st.p95_ns as nat)).push(numeral(st.max_ns as nat)).push(mean).push(deviation) =~= seq![
        head,
        metric,
        numeral(n),
        numeral(t),
        numeral(st.n as nat),
        numeral(warmup),
        numeral(st.min_ns as nat),
        numeral(st.p50_ns as nat),
        numeral(st.p95_ns as nat),
        numeral(st.max_ns as nat),
        mean,
        deviation,
    ]);
    assert(seq![head, metric, net].push(numeral(n)).push(numeral(t)).push(numeral(st.n as nat)).push(numeral(warmup)).push(numeral(st.min_ns as nat)).push(numeral(st.p50_ns as nat)).push(numeral(st.p95_ns as nat)).push(numeral(st.max_ns as nat)).push(mean).push(deviation) =~= seq![
        head,
        metric,
        net,
        numeral(n),
        numeral(t),
        numeral(st.n as nat),
        numeral(warmup),
        numeral(st.min_ns as nat),
        numeral(st.p50_ns as nat),
        numeral(st.p95_ns as nat),
        numeral(st.max_ns as nat),
        mean,
        deviation,
    ]);
}

proof fn lemma_join_push(g: Seq<Seq<char>>, x: Seq<char>)
    requires
        g.len() > 0,
    ensures
        join(g.push(x), " "@) == join(g, " "@) + " "@ + x,
{
    assert(g.push(x).drop_last() =~= g);
}

proof fn lemma_join_numbers(
    g: Seq<Seq<char>>,
    n: nat,
    t: nat,
    warmup: nat,
    st: Stats,
    mean: Seq<char>,
    deviation: Seq<char>,
)
    requires
        g.len() > 0,
    ensures
        join(g.push(numeral(n)).push(numeral(t)).push(numeral(st.n as nat)).push(numeral(warmup)).push(numeral(st.min_ns as nat)).push(numeral(st.p50_ns as nat)).push(numeral(st.p95_ns as nat)).push(numeral(st.max_ns as nat)).push(mean).push(deviation), " "@) == join(g, " "@) + " "@ + numeral(n) + " "@ + numeral(t) + " "@ + numeral(st.n as nat) + " "@ + numeral(warmup) + " "@ + numeral(st.min_ns as nat) + " "@ + numeral(st.p50_ns as nat) + " "@ + numeral(st.p95_ns as nat) + " "@ + numeral(st.max_ns as nat) + " "@ + mean + " "@ + deviation,
{
    lemma_join_push(g, numeral(n));
    let g1 = g.push(numeral(n));
    lemma_join_push(g1, numeral(t));
    let g2 = g1.push(numeral(t));
    lemma_join_push(g2, numeral(st.n as nat));
    let g3 = g2.push(numeral(st.n as nat));
    lemma_join_push(g3, numeral(warmup));
    let g4 = g3.push(numeral(warmup));
    lemma_join_push(g4, numeral(st.min_ns as nat));
    let g5 = g4.push(numeral(st.min_ns as nat));
    lemma_join_push(g5, numeral(st.p50_ns as nat));
    let g6 = g5.push(numeral(st.p50_ns as nat));
    lemma_join_push(g6, numeral(st.p95_ns as nat));
    let g7 = g6.push(numeral(st.p95_ns as nat));
    lemma_join_push(g7, numeral(st.max_ns as nat));
    let g8 = g7.push(numeral(st.max_ns as nat));
    lemma_join_push(g8, mean);
    let g9 = g8.push(mean);
    lemma_join_push(g9, deviation);
}

/// A list of names is read part by part, in order: blank parts are left out, capitals become
/// small and, where dashes are asked to go, a dash becomes an underscore.
pub proof fn name_lists_keep_their_order(p: Seq<Seq<char>>, dashes: bool, k: int)
    requires
        0 <= k < p.len(),
    ensures
        lower_parts(p, dashes, 0) == Seq::<Seq<char>>::empty(),
        trim(p[k]).len() == 0 ==> lower_parts(p, dashes, k + 1) == lower_parts(p, dashes, k),
        trim(p[k]).len() > 0 ==> lower_parts(p, dashes, k + 1) == lower_parts(p, dashes, k).push(
            if dashes {
                replaced(lower(trim(p[k])), '-', '_')
            } else {
                lower(trim(p[k]))
            },
        ),
{
}

/// The kinds that an engine is given are the parts between commas.
pub proof fn kinds_given_are_the_parts(v: Seq<char>, i: int)
    requires
        0 <= i < split(v, ',').len(),
    ensures
        kinds_given(Engine::AugSso, v).len() == split(v, ',').len(),
        kinds_given(Engine::AugSso, v)[i] == trim(split(v, ',')[i]),
        kinds_given(Engine::PasTaU, v) == lower_parts(
            split(v, ','),
            false,
            split(v, ',').len() as int,
        ),
        lower(v) != "all"@ ==> kinds_given(Engine::Quorum, v) == lower_parts(
            split(v, ','),
            true,
            split(v, ',').len() as int,
        ),
        lower(v) == "all"@ ==> kinds_given(Engine::Quorum, v) == seq![
            "full_no_net"@,
            "full_net"@,
            "quorum_overhead"@,
        ],
{
}

/// The number of absent providers is the greatest, none or a plain number; capitals and blanks
/// round it do not matter, and everything else is refused.
pub proof fn offline_values_are_read(s: Seq<char>)
    ensures
        ({
            let l = lower(trim(s));
            &&& l == "max"@ || l == "quorum_max"@ || l == "majority_max"@ ==> offline_spec(s)
                == Some(OfflineSpec::Max)
            &&& l == "none"@ || l == "zero"@ ==> offline_spec(s) == Some(OfflineSpec::Count(0))
            &&& offline_spec(s) matches Some(OfflineSpec::Count(n)) ==> l == "none"@ || l
                == "zero"@ || parsed(l, usize::MAX as nat) == Some(n as nat)
            &&& offline_spec(s) == Some(OfflineSpec::Max) ==> l == "max"@ || l == "quorum_max"@
                || l == "majority_max"@
            &&& offline_spec(s) is None ==> parsed(l, usize::MAX as nat) is None
        }),
{
    reveal_strlit("max");
    reveal_strlit("quorum_max");
    reveal_strlit("majority_max");
    reveal_strlit("none");
    reveal_strlit("zero");
    reveal_strlit("0");
    assert("max"@.len() == 3);
    assert("quorum_max"@.len() == 10);
    assert("majority_max"@.len() == 12);
    assert("none"@.len() == 4);
    assert("zero"@.len() == 4);
    assert("0"@.len() == 1);
    assert("none"@[0] != "zero"@[0]);
    reveal_with_fuel(crate::text::digits_value, 2);
    assert("0"@.drop_last().len() == 0);
    assert(all_digits("0"@));
    assert(parsed("0"@, usize::MAX as nat) == Some(0nat));
}

/// Digits with at most one point among them, at least one digit, and behind an `e` perhaps a
/// sign and digits, with a sign before all of it or not, are read as a number.
pub proof fn written_numbers_are_floats(
    sign: Seq<char>,
    whole: Seq<char>,
    part: Seq<char>,
    e: char,
    esign: Seq<char>,
    digits: Seq<char>,
)
    requires
        sign == Seq::<char>::empty() || sign == seq!['+'] || sign == seq!['-'],
        esign == Seq::<char>::empty() || esign == seq!['+'] || esign == seq!['-'],
        all_digits(whole),
        all_digits(part),
        all_digits(digits),
        whole.len() + part.len() > 0,
        e == 'e' || e == 'E',
    ensures
        is_float(sign + (whole + seq!['.'] + part)),
        whole.len() > 0 ==> is_float(sign + whole),
        digits.len() > 0 ==> is_float(
            sign + (whole + seq!['.'] + part + (seq![e] + (esign + digits))),
        ),
        whole.len() > 0 && digits.len() > 0 ==> is_float(
            sign + (whole + (seq![e] + (esign + digits))),
        ),
{
    let m = whole + seq!['.'] + part;
    let tail = seq![e] + (esign + digits);
    lemma_point(whole, part);
    assert(m + Seq::<char>::empty() =~= m);
    lemma_exponent_place(m, Seq::empty());
    lemma_unsigned(sign, m);
    assert(m.take(m.len() as int) =~= m);
    lemma_exponent(esign, digits);
    if whole.len() > 0 {
        lemma_no_point(whole, '.', '.');
        lemma_no_point(whole, 'e', 'E');
        lemma_unsigned(sign, whole);
        lemma_exponent_place(whole, tail);
        lemma_unsigned(sign, whole + tail);
        assert((whole + tail).take(whole.len() as int) =~= whole);
        assert((whole + tail).skip(whole.len() as int + 1) =~= esign + digits);
    }
    lemma_exponent_place(m, tail);
    lemma_unsigned(sign, m + tail);
    assert((m + tail).take(m.len() as int) =~= m);
    assert((m + tail).skip(m.len() as int + 1) =~= esign + digits);
}

proof fn lemma_no_point(s: Seq<char>, a: char, b: char)
    requires
        forall|i: int| 0 <= i < s.len() ==> #[trigger] s[i] != a && s[i] != b,
    ensures
        first_of_two(s, a, b) == s.len(),
    decreases s.len(),
{
    if s.len() > 0 {
        lemma_no_point(s.drop_first(), a, b);
    }
}

proof fn lemma_first(s: Seq<char>, t: Seq<char>, a: char, b: char)
    requires
        forall|i: int| 0 <= i < s.len() ==> #[trigger] s[i] != a && s[i] != b,
        t.len() > 0 ==> t[0] == a || t[0] == b,
    ensures
        first_of_two(s + t, a, b) == s.len(),
    decreases s.len(),
{
    if s.len() > 0 {
        lemma_first(s.drop_first(), t, a, b);
        assert((s + t).drop_first() =~= s.drop_first() + t);
        assert((s + t)[0] == s[0]);
    } else {
        assert(s + t =~= t);
    }
}

proof fn lemma_point(whole: Seq<char>, part: Seq<char>)
    requires
        all_digits(whole),
        all_digits(part),
        whole.len() + part.len() > 0,
    ensures
        crate::float_text::is_mantissa(whole + seq!['.'] + part),
{
    let m = whole + seq!['.'] + part;
    lemma_first(whole, seq!['.'] + part, '.', '.');
    assert(whole + (seq!['.'] + part) =~= m);
    assert(m.take(whole.len() as int) =~= whole);
    assert(m.skip(whole.len() as int + 1) =~= part);
}

proof fn lemma_exponent_place(m: Seq<char>, tail: Seq<char>)
    requires
        forall|i: int|
            0 <= i < m.len() ==> crate::text::is_digit(#[trigger] m[i]) || m[i] == '.',
        tail.len() > 0 ==> tail[0] == 'e' || tail[0] == 'E',
    ensures
        first_of_two(m + tail, 'e', 'E') == m.len(),
{
    lemma_first(m, tail, 'e', 'E');
}

proof fn lemma_unsigned(sign: Seq<char>, s: Seq<char>)
    requires
        sign == Seq::<char>::empty() || sign == seq!['+'] || sign == seq!['-'],
        s.len() > 0,
        s[0] != '+' && s[0] != '-',
    ensures
        unsigned(sign + s) == s,
{
    if sign.len() == 0 {
        assert(sign + s =~= s);
    } else {
        assert((sign + s).drop_first() =~= s);
    }
}

proof fn lemma_exponent(esign: Seq<char>, digits: Seq<char>)
    requires
        esign == Seq::<char>::empty() || esign == seq!['+'] || esign == seq!['-'],
        all_digits(digits),
    ensures
        digits.len() > 0 ==> crate::float_text::is_exponent(esign + digits),
{
    if digits.len() > 0 {
        lemma_unsigned(esign, digits);
    }
}

/// Digits with at most one point among them, and at least one digit.
pub open spec fn digits_and_point(m: Seq<char>) -> bool {
    ||| m.len() > 0 && all_digits(m)
    ||| exists|d: int|
        0 <= d < m.len() && #[trigger] m[d] == '.' && m.len() >= 2 && all_digits(m.take(d))
            && all_digits(m.skip(d + 1))
}

/// Digits behind a sign or none.
pub open spec fn signed_digits(x: Seq<char>) -> bool {
    ||| x.len() > 0 && all_digits(x)
    ||| x.len() > 1 && (x[0] == '+' || x[0] == '-') && all_digits(x.drop_first())
}

/// What is read as a number with a point is, behind its sign, one of three words or digits with
/// at most one point, alone or with an exponent of digits behind an `e`.
pub proof fn floats_are_words_or_digits(s: Seq<char>)
    requires
        is_float(s),
    ensures
        ({
            let u = unsigned(s);
            ||| lower(u) == "inf"@
            ||| lower(u) == "infinity"@
            ||| lower(u) == "nan"@
            ||| digits_and_point(u)
            ||| exists|k: int|
                0 <= k < u.len() && (#[trigger] u[k] == 'e' || u[k] == 'E') && digits_and_point(
                    u.take(k),
                ) && signed_digits(u.skip(k + 1))
        }),
        unsigned(s) == s || s.len() > 0 && (s[0] == '+' || s[0] == '-') && unsigned(s)
            == s.drop_first(),
{
    let u = unsigned(s);
    if crate::float_text::is_plain_number(u) {
        let k = first_of_two(u, 'e', 'E');
        lemma_place(u, 'e', 'E');
        let m = if k >= u.len() {
            u
        } else {
            u.take(k)
        };
        lemma_place(m, '.', '.');
        let d = first_of_two(m, '.', '.');
        if d < m.len() {
            assert(m[d] == '.');
        }
        assert(digits_and_point(m));
        if k < u.len() {
            assert(u[k] == 'e' || u[k] == 'E');
            assert(signed_digits(u.skip(k + 1)));
        }
    }
}

proof fn lemma_place(s: Seq<char>, a: char, b: char)
    ensures
        0 <= first_of_two(s, a, b) <= s.len(),
        first_of_two(s, a, b) < s.len() ==> s[first_of_two(s, a, b)] == a || s[first_of_two(
            s,
            a,
            b,
        )] == b,
    decreases s.len(),
{
    if s.len() > 0 {
        lemma_place(s.drop_first(), a, b);
    }
}

} // verus!
