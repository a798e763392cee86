//! What the network model says of times: transmission, latency, jitter, and the rounds of each
//! phase, in closed form where there is no jitter.
use vstd::prelude::*;

use crate::bytes::u64_of_le;
use crate::net_phases::{
    answers_received, augsso_phase, auth_network, bounded_tx_time, reg_network, rounds,
    rounds_from, update_network, Op, Round, AUTH_REQ1_BYTES_PER_SERVER,
    AUTH_REQ2_BYTES_PER_SERVER, AUTH_RESP1_BYTES_PER_SERVER, AUTH_RESP2_BYTES_PER_SERVER,
    REG_REQ_BYTES_PER_SERVER, REG_RESP_BYTES_PER_SERVER, UPDATE_REQ1_BYTES_PER_SERVER,
    UPDATE_REQ2_BYTES_PER_SERVER, UPDATE_RESP1_BYTES_PER_SERVER, UPDATE_RESP2_BYTES_PER_SERVER,
};
use crate::netsim::{
    after, deviation, deviation_is_bounded, deviations, drawn, fanout_done, fanout_from,
    phase_from, quorum_from, received, response, tx_time, NetProfile,
};
use crate::quorum::quorum;
use crate::rng::RngState;
use crate::stats::{ascends, in_order, lemma_in_order, lemma_in_order_is};
use crate::upspa_sp::{
    NET_UPSPA_GET_CSP_REQ_BYTES, NET_UPSPA_GET_CSP_RESP_BYTES, NET_UPSPA_PUT_CSP_REQ_BYTES,
    NET_UPSPA_PUT_CSP_RESP_BYTES, NET_UPSPA_PWDUPD_REQ_BYTES, NET_UPSPA_PWDUPD_RESP_BYTES,
    NET_UPSPA_SETUP_REQ_BYTES, NET_UPSPA_SETUP_RESP_BYTES, NET_UPSPA_TOPRF_REQ_BYTES,
    NET_UPSPA_TOPRF_RESP_BYTES, PWDUPD_MSG_BYTES,
};

verus! {

/// The larger of two times.
pub open spec fn longest(a: int, b: int) -> int {
    if a >= b {
        a
    } else {
        b
    }
}

/// The time to send a message is the least number of nanoseconds in which the bandwidth lets
/// all of its bits through.
pub proof fn sending_takes_least_time(bytes: int, bw: int)
    requires
        0 <= bytes,
        0 < bw,
        (bytes * 8 * 1_000_000_000 + bw - 1) / bw <= u64::MAX,
    ensures
        tx_time(bytes, bw) * bw >= bytes * 8 * 1_000_000_000,
        bytes > 0 ==> (tx_time(bytes, bw) - 1) * bw < bytes * 8 * 1_000_000_000,
        bytes == 0 ==> tx_time(bytes, bw) == 0,
{
    let bits = bytes * 8 * 1_000_000_000;
    let t = (bits + bw - 1) / bw;
    vstd::arithmetic::div_mod::lemma_div_pos_is_pos(bits + bw - 1, bw);
    assert(tx_time(bytes, bw) == t);
    vstd::arithmetic::div_mod::lemma_fundamental_div_mod(bits + bw - 1, bw);
    vstd::arithmetic::div_mod::lemma_mod_bound(bits + bw - 1, bw);
    assert(bw * t == t * bw) by (nonlinear_arith);
    assert((t - 1) * bw == t * bw - bw) by (nonlinear_arith);
    if bytes == 0 {
        vstd::arithmetic::div_mod::lemma_basic_div(bw - 1, bw);
    }
}

/// So does the time with a bound on the bits, where the bound is not met.
pub proof fn bounded_sending_takes_least_time(bytes: int, bw: int)
    requires
        0 <= bytes,
        0 < bw,
        bytes * 8 * 1_000_000_000 <= u64::MAX,
    ensures
        bounded_tx_time(bytes, bw) * bw >= bytes * 8 * 1_000_000_000,
        bytes > 0 ==> (bounded_tx_time(bytes, bw) - 1) * bw < bytes * 8 * 1_000_000_000,
        bytes == 0 ==> bounded_tx_time(bytes, bw) == 0,
{
    let bits = bytes * 8 * 1_000_000_000;
    let t = (bits + bw - 1) / bw;
    vstd::arithmetic::div_mod::lemma_fundamental_div_mod(bits + bw - 1, bw);
    vstd::arithmetic::div_mod::lemma_mod_bound(bits + bw - 1, bw);
    assert(bw * t == t * bw) by (nonlinear_arith);
    assert((t - 1) * bw == t * bw - bw) by (nonlinear_arith);
    if bytes == 0 {
        vstd::arithmetic::div_mod::lemma_basic_div(bw - 1, bw);
    }
}

/// A network without a limit sends at once.
pub proof fn unlimited_bandwidth_sends_at_once(bytes: int)
    ensures
        tx_time(bytes, 0) == 0,
{
}

/// Each deviation comes from its own number of the stream and lies within the jitter, and
/// every deviation within the jitter comes from some number. Without jitter there is none and
/// nothing is drawn.
pub proof fn deviations_fill_the_jitter(st: RngState, n: int, jitter: int, i: int, d: int)
    requires
        0 <= i < n,
        0 <= jitter <= i64::MAX,
        -jitter <= d <= jitter,
    ensures
        deviations(st, n, jitter).len() == n,
        -jitter <= deviations(st, n, jitter)[i] <= jitter,
        jitter > 0 ==> deviations(st, n, jitter)[i] == u64_of_le(after(st, i).bytes(8)) as int % (2
            * jitter + 1) - jitter,
        jitter > 0 ==> drawn(st, n, jitter) == after(st, n),
        jitter > 0 ==> deviation(d + jitter, jitter) == d,
        jitter == 0 ==> drawn(st, n, jitter) == st,
{
    if jitter > 0 {
        deviation_is_bounded(u64_of_le(after(st, i).bytes(8)) as int, jitter);
        deviation_is_bounded(d + jitter, jitter);
        vstd::arithmetic::div_mod::lemma_small_mod((d + jitter) as nat, (2 * jitter + 1) as nat);
    }
}

proof fn lemma_quiet(st: RngState, n: int)
    requires
        n >= 0,
    ensures
        deviations(st, n, 0).len() == n,
        forall|i: int| 0 <= i < n ==> #[trigger] deviations(st, n, 0)[i] == 0,
        drawn(st, n, 0) == st,
{
}

proof fn lemma_tx_small(bytes: int, bw: int)
    requires
        bw >= 0,
        bytes >= 0,
    ensures
        0 <= tx_time(bytes, bw) <= u64::MAX,
{
}

proof fn lemma_order_kept(s: Seq<int>)
    requires
        ascends(s),
    ensures
        in_order(s) == s,
{
    lemma_in_order_is(s, s);
}

/// Arrivals at equal distances `step` are received with the longer of the distance and the
/// time to receive one between them.
proof fn lemma_received(s: Seq<int>, first: int, step: int, tx: int, n: int)
    requires
        1 <= n <= s.len(),
        0 <= first,
        0 <= step,
        0 <= tx,
        first + tx + (n - 1) * longest(step, tx) <= u64::MAX,
        forall|i: int| 0 <= i < n ==> #[trigger] s[i] == first + i * step,
    ensures
        received(s, tx, n) == first + tx + (n - 1) * longest(step, tx),
    decreases n,
{
    let m = longest(step, tx);
    reveal_with_fuel(received, 2);
    assert(s[n - 1] == first + (n - 1) * step);
    if n > 1 {
        assert((n - 1) * m == (n - 2) * m + m) by (nonlinear_arith);
        assert((n - 1) * step == (n - 2) * step + step) by (nonlinear_arith);
        lemma_received(s, first, step, tx, n - 1);
        assert((n - 2) * step <= (n - 2) * m) by (nonlinear_arith)
            requires
                n >= 2,
                step <= m,
        ;
        assert((n - 1) * step <= (n - 1) * m) by (nonlinear_arith)
            requires
                n >= 2,
                step <= m,
        ;
        if step >= tx {
            assert(m == step);
        } else {
            assert(m == tx);
        }
    } else {
        assert(0 * step == 0 && 0 * m == 0);
    }
}

/// The time of a round without jitter: the first request is sent, travels, is dealt with,
/// answered and received, and each further answer that is awaited comes after the longer of
/// the times to send a request and to receive an answer. An answer is sent and then received.
pub open spec fn round_ns(wait_for: int, req: int, resp: int, proc: int, prof: NetProfile) -> int {
    let up = tx_time(req + prof.overhead_bytes, prof.bw_bps as int);
    let down = tx_time(resp + prof.overhead_bytes, prof.bw_bps as int);
    up + prof.one_way_ns + proc + down + prof.one_way_ns + down + (wait_for - 1) * longest(up, down)
}

proof fn lemma_arrivals(
    total: int,
    up: int,
    down: int,
    proc: int,
    one_way: int,
    s: Seq<int>,
    i: int,
    j: int,
)
    requires
        0 <= i < j < total == s.len(),
        0 <= up,
        0 <= down,
        0 <= proc,
        0 <= one_way,
        forall|k: int|
            0 <= k < total ==> #[trigger] s[k] == response(k, up, down, proc, one_way, 0, 0),
    ensures
        s[i] <= s[j],
{
    assert((i + 1) * up <= (j + 1) * up) by (nonlinear_arith)
        requires
            i < j,
            0 <= up,
    ;
    assert(s[i] == response(i, up, down, proc, one_way, 0, 0));
    assert(s[j] == response(j, up, down, proc, one_way, 0, 0));
}

proof fn lemma_round(
    total: int,
    wait_for: int,
    up: int,
    down: int,
    proc: int,
    one_way: int,
    s: Seq<int>,
)
    requires
        1 <= wait_for <= total == s.len(),
        0 <= up,
        0 <= down,
        0 <= proc,
        0 <= one_way,
        forall|k: int|
            0 <= k < total ==> #[trigger] s[k] == response(k, up, down, proc, one_way, 0, 0),
    ensures
        ({
            let want = up + one_way + proc + down + one_way + down + (wait_for - 1) * longest(
                up,
                down,
            );
            &&& want <= u64::MAX ==> received(in_order(s), down, wait_for) == want
            &&& received(in_order(s), down, wait_for) < u64::MAX ==> received(
                in_order(s),
                down,
                wait_for,
            ) >= 2 * one_way + proc
        }),
{
    assert forall|i: int, j: int| 0 <= i < j < s.len() implies s[i] <= s[j] by {
        lemma_arrivals(total, up, down, proc, one_way, s, i, j);
    }
    lemma_order_kept(s);
    let first = up + one_way + proc + down + one_way;
    let m = longest(up, down);
    let want = first + down + (wait_for - 1) * m;
    assert((wait_for - 1) * m >= 0) by (nonlinear_arith)
        requires
            wait_for >= 1,
            m >= 0,
    ;
    if want <= u64::MAX {
        assert forall|i: int| 0 <= i < wait_for implies #[trigger] s[i] == first + i * up by {
            assert(s[i] == response(i, up, down, proc, one_way, 0, 0));
            assert((i + 1) * up == i * up + up) by (nonlinear_arith);
            assert(i * up >= 0) by (nonlinear_arith)
                requires
                    i >= 0,
                    up >= 0,
            ;
            assert(i * up <= (wait_for - 1) * m) by (nonlinear_arith)
                requires
                    0 <= i <= wait_for - 1,
                    0 <= up <= m,
            ;
        }
        lemma_received(s, first, up, down, wait_for);
    }
    crate::netsim::waiting_for_more_takes_longer(s, down, 1, wait_for);
    reveal_with_fuel(received, 2);
    assert(s[0] == response(0, up, down, proc, one_way, 0, 0));
    assert(1 * up == up);
}

/// Without jitter, and below the bound of a time, a round takes its closed form, and in any
/// case no less than the way there and back; the generator stays.
pub proof fn quiet_round_takes_its_time(
    st: RngState,
    total: int,
    wait_for: int,
    req: int,
    resp: int,
    prof: NetProfile,
)
    requires
        prof.jitter_ns == 0,
        1 <= wait_for <= total,
        0 <= req,
        0 <= resp,
    ensures
        quorum_from(st, total, wait_for, req, resp, prof).1 == st,
        round_ns(wait_for, req, resp, 0, prof) <= u64::MAX ==> quorum_from(
            st,
            total,
            wait_for,
            req,
            resp,
            prof,
        ).0 == round_ns(wait_for, req, resp, 0, prof),
        quorum_from(st, total, wait_for, req, resp, prof).0 < u64::MAX ==> quorum_from(
            st,
            total,
            wait_for,
            req,
            resp,
            prof,
        ).0 >= 2 * prof.one_way_ns,
        0 <= quorum_from(st, total, wait_for, req, resp, prof).0 <= u64::MAX,
{
    let up = tx_time(req + prof.overhead_bytes, prof.bw_bps as int);
    let down = tx_time(resp + prof.overhead_bytes, prof.bw_bps as int);
    lemma_tx_small(req + prof.overhead_bytes, prof.bw_bps as int);
    lemma_tx_small(resp + prof.overhead_bytes, prof.bw_bps as int);
    lemma_quiet(st, 2 * total);
    let d = deviations(st, 2 * total, 0);
    let s = Seq::new(
        total as nat,
        |i: int| response(i, up, down, 0, prof.one_way_ns as int, d[2 * i], d[2 * i + 1]),
    );
    assert forall|k: int| 0 <= k < total implies #[trigger] s[k] == response(
        k,
        up,
        down,
        0,
        prof.one_way_ns as int,
        0,
        0,
    ) by {
        assert(d[2 * k] == 0);
        assert(d[2 * k + 1] == 0);
    }
    lemma_round(total, wait_for, up, down, 0, prof.one_way_ns as int, s);
    crate::netsim::waiting_for_more_takes_longer(in_order(s), down, 0, wait_for);
}

/// The same of a phase in which `k` servers do some work and all answer.
pub proof fn quiet_phase_takes_its_time(
    st: RngState,
    k: int,
    req: int,
    resp: int,
    proc: int,
    prof: NetProfile,
)
    requires
        prof.jitter_ns == 0,
        1 <= k,
        0 <= req,
        0 <= resp,
        0 <= proc,
    ensures
        phase_from(st, k, req, resp, proc, prof).1 == st,
        round_ns(k, req, resp, proc, prof) <= u64::MAX ==> phase_from(
            st,
            k,
            req,
            resp,
            proc,
            prof,
        ).0 == round_ns(k, req, resp, proc, prof),
        phase_from(st, k, req, resp, proc, prof).0 < u64::MAX ==> phase_from(
            st,
            k,
            req,
            resp,
            proc,
            prof,
        ).0 >= 2 * prof.one_way_ns + proc,
        0 <= phase_from(st, k, req, resp, proc, prof).0 <= u64::MAX,
{
    let up = tx_time(req + prof.overhead_bytes, prof.bw_bps as int);
    let down = tx_time(resp + prof.overhead_bytes, prof.bw_bps as int);
    lemma_tx_small(req + prof.overhead_bytes, prof.bw_bps as int);
    lemma_tx_small(resp + prof.overhead_bytes, prof.bw_bps as int);
    lemma_quiet(st, 2 * k);
    let d = deviations(st, 2 * k, 0);
    let s = Seq::new(
        k as nat,
        |i: int| response(i, up, down, proc, prof.one_way_ns as int, d[i], d[k + i]),
    );
    assert forall|i: int| 0 <= i < k implies #[trigger] s[i] == response(
        i,
        up,
        down,
        proc,
        prof.one_way_ns as int,
        0,
        0,
    ) by {
        assert(d[i] == 0);
        assert(d[k + i] == 0);
    }
    lemma_round(k, k, up, down, proc, prof.one_way_ns as int, s);
    crate::netsim::waiting_for_more_takes_longer(in_order(s), down, 0, k);
}

/// The time of messages to `k` servers that send nothing back, without jitter: all are sent,
/// and the last travels and is dealt with.
pub open spec fn fanout_ns(k: int, payload: int, proc: int, prof: NetProfile) -> int {
    k * tx_time(payload + prof.overhead_bytes, prof.bw_bps as int) + prof.one_way_ns + proc
}

proof fn lemma_fanout(n: int, tx: int, proc: int, one_way: int, d: Seq<int>)
    requires
        1 <= n <= d.len(),
        0 <= tx,
        0 <= proc,
        0 <= one_way,
        forall|i: int| 0 <= i < d.len() ==> #[trigger] d[i] == 0,
    ensures
        n * tx + one_way + proc <= u64::MAX ==> fanout_done(n, tx, proc, one_way, d) == n * tx
            + one_way + proc,
        fanout_done(n, tx, proc, one_way, d) < u64::MAX ==> fanout_done(n, tx, proc, one_way, d)
            >= one_way + proc,
        0 <= fanout_done(n, tx, proc, one_way, d) <= u64::MAX,
    decreases n,
{
    reveal_with_fuel(fanout_done, 2);
    assert(d[n - 1] == 0);
    assert(n * tx == (n - 1) * tx + tx) by (nonlinear_arith);
    assert((n - 1) * tx >= 0) by (nonlinear_arith)
        requires
            n >= 1,
            tx >= 0,
    ;
    if n > 1 {
        lemma_fanout(n - 1, tx, proc, one_way, d);
    }
}

/// Without jitter, and below the bound of a time, a fan-out takes its closed form, and in any
/// case no less than one way; the generator stays.
pub proof fn quiet_fanout_takes_its_time(
    st: RngState,
    k: int,
    payload: int,
    proc: int,
    prof: NetProfile,
)
    requires
        prof.jitter_ns == 0,
        1 <= k,
        0 <= payload,
        0 <= proc,
    ensures
        fanout_from(st, k, payload, proc, prof).1 == st,
        fanout_ns(k, payload, proc, prof) <= u64::MAX ==> fanout_from(
            st,
            k,
            payload,
            proc,
            prof,
        ).0 == fanout_ns(k, payload, proc, prof),
        fanout_from(st, k, payload, proc, prof).0 < u64::MAX ==> fanout_from(
            st,
            k,
            payload,
            proc,
            prof,
        ).0 >= prof.one_way_ns + proc,
        0 <= fanout_from(st, k, payload, proc, prof).0 <= u64::MAX,
{
    lemma_quiet(st, k);
    lemma_tx_small(payload + prof.overhead_bytes, prof.bw_bps as int);
    lemma_fanout(
        k,
        tx_time(payload + prof.overhead_bytes, prof.bw_bps as int),
        proc,
        prof.one_way_ns as int,
        deviations(st, k, 0),
    );
}

/// The times of the first `k` rounds without jitter, added up.
pub open spec fn rounds_ns(v: Seq<Round>, k: int, prof: NetProfile) -> int
    decreases k,
{
    if k <= 0 {
        0
    } else {
        rounds_ns(v, k - 1, prof) + round_ns(
            v[k - 1].wait_for as int,
            v[k - 1].req as int,
            v[k - 1].resp as int,
            0,
            prof,
        )
    }
}

/// Every round asks someone, and awaits no more answers than it asks for.
pub open spec fn all_await(v: Seq<Round>) -> bool {
    forall|i: int| 0 <= i < v.len() ==> 1 <= (#[trigger] v[i]).wait_for <= v[i].total
}

/// Without jitter, and below the bound of a time, rounds one after the other take the sum of
/// their times, and in any case no less than as many ways there and back of the given profile.
pub proof fn quiet_rounds_add_up(st: RngState, v: Seq<Round>, k: int, prof: NetProfile)
    requires
        prof.jitter_ns == 0,
        all_await(v),
        0 <= k <= v.len(),
    ensures
        rounds_from(st, v, k, prof).1 == st,
        rounds_ns(v, k, prof) <= u64::MAX ==> rounds_from(st, v, k, prof).0 == rounds_ns(
            v,
            k,
            prof,
        ),
        rounds_from(st, v, k, prof).0 < u64::MAX ==> rounds_from(st, v, k, prof).0 >= k * (2
            * prof.one_way_ns),
        0 <= rounds_from(st, v, k, prof).0 <= u64::MAX,
        0 <= rounds_ns(v, k, prof),
    decreases k,
{
    if k > 0 {
        quiet_rounds_add_up(st, v, k - 1, prof);
        let r = v[k - 1];
        let (t, mid) = rounds_from(st, v, k - 1, prof);
        quiet_round_takes_its_time(
            mid,
            r.total as int,
            r.wait_for as int,
            r.req as int,
            r.resp as int,
            prof,
        );
        let up = tx_time(r.req + prof.overhead_bytes, prof.bw_bps as int);
        let down = tx_time(r.resp + prof.overhead_bytes, prof.bw_bps as int);
        lemma_tx_small(r.req + prof.overhead_bytes, prof.bw_bps as int);
        lemma_tx_small(r.resp + prof.overhead_bytes, prof.bw_bps as int);
        assert((r.wait_for - 1) * longest(up, down) >= 0) by (nonlinear_arith)
            requires
                r.wait_for >= 1,
                longest(up, down) >= 0,
        ;
        assert(k * (2 * prof.one_way_ns) == (k - 1) * (2 * prof.one_way_ns) + 2 * prof.one_way_ns)
            by (nonlinear_arith);
    } else {
        assert(0 * (2 * prof.one_way_ns) == 0);
    }
}

/// The rounds of the phases, with how many are asked and awaited, and the bytes each way. All
/// announce the user, turn the password into a key with `tsp` providers and read the master
/// state. Registration writes to one provider, then to a quorum of those online, then to the
/// login server; a secret update reads from `tsp` providers first; a password update makes the
/// new key with `tsp` providers and writes the master state.
pub proof fn phases_have_their_rounds(nsp: usize, tsp: usize, unavailable: usize)
    requires
        unavailable <= nsp,
        nsp + tsp < usize::MAX,
    ensures
        ({
            let online = (nsp - unavailable) as usize;
            let q = ((nsp + tsp + 1) / 2) as usize;
            let one = |req: usize, resp: usize| Round { total: 1, wait_for: 1, req, resp };
            let all = |req: usize, resp: usize| Round { total: tsp, wait_for: tsp, req, resp };
            let most = |req: usize, resp: usize| Round { total: online, wait_for: q, req, resp };
            &&& rounds(Op::Reg, nsp, tsp, unavailable) == seq![
                one(32, 1),
                all(64, 32),
                one(32, 144),
                one(184, 1),
                most(184, 1),
                one(64, 1),
            ]
            &&& rounds(Op::SecUpd, nsp, tsp, unavailable) == seq![
                one(32, 1),
                all(64, 32),
                one(32, 144),
                all(32, 80),
                one(184, 1),
                most(184, 1),
                one(96, 1),
            ]
            &&& rounds(Op::PwdUpd, nsp, tsp, unavailable) == seq![
                one(32, 1),
                all(64, 32),
                one(32, 144),
                all(64, 32),
                one(248, 1),
                most(248, 1),
            ]
        }),
{
    let online = (nsp - unavailable) as usize;
    let q = ((nsp + tsp + 1) / 2) as usize;
    let one = |req: usize, resp: usize| Round { total: 1, wait_for: 1, req, resp };
    let all = |req: usize, resp: usize| Round { total: tsp, wait_for: tsp, req, resp };
    let most = |req: usize, resp: usize| Round { total: online, wait_for: q, req, resp };
    assert(rounds(Op::Reg, nsp, tsp, unavailable) =~= seq![
        one(32, 1),
        all(64, 32),
        one(32, 144),
        one(184, 1),
        most(184, 1),
        one(64, 1),
    ]);
    assert(rounds(Op::SecUpd, nsp, tsp, unavailable) =~= seq![
        one(32, 1),
        all(64, 32),
        one(32, 144),
        all(32, 80),
        one(184, 1),
        most(184, 1),
        one(96, 1),
    ]);
    assert(rounds(Op::PwdUpd, nsp, tsp, unavailable) =~= seq![
        one(32, 1),
        all(64, 32),
        one(32, 144),
        all(64, 32),
        one(248, 1),
        most(248, 1),
    ]);
}

/// Without jitter, and below the bound of a time, registration and password update take at
/// least six ways there and back of the given profile, and secret update seven; and each takes
/// the sum of its rounds.
pub proof fn quiet_phases_take_their_rounds(
    op: Op,
    nsp: usize,
    tsp: usize,
    unavailable: usize,
    prof: NetProfile,
    st: RngState,
)
    requires
        prof.jitter_ns == 0,
        1 <= tsp <= nsp,
        nsp + tsp < usize::MAX,
        unavailable <= nsp,
        quorum(nsp as nat, tsp as nat) <= nsp - unavailable,
    ensures
        ({
            let v = rounds(op, nsp, tsp, unavailable);
            let t = rounds_from(st, v, v.len() as int, prof).0;
            let m: int = if op == Op::SecUpd {
                7
            } else {
                6
            };
            &&& t < u64::MAX ==> t >= m * (2 * prof.one_way_ns)
            &&& rounds_ns(v, m, prof) <= u64::MAX ==> t == rounds_ns(v, m, prof)
        }),
{
    phases_have_their_rounds(nsp, tsp, unavailable);
    let v = rounds(op, nsp, tsp, unavailable);
    assert(v.len() == if op == Op::SecUpd {
        7int
    } else {
        6int
    });
    quiet_rounds_add_up(st, v, v.len() as int, prof);
}

/// Without jitter, and below the bound of a time, a PAS-TA-U registration takes a round with
/// the identity provider and then one message from each side to every server.
pub proof fn quiet_registration_takes_its_time(
    st: RngState,
    nsp: int,
    proc: int,
    prof: NetProfile,
)
    requires
        prof.jitter_ns == 0,
        1 <= nsp,
        0 <= proc,
    ensures
        ({
            let want = round_ns(1, 64, 32, 0, prof) + fanout_ns(nsp, 64, 0, prof) + fanout_ns(
                nsp,
                64,
                proc,
                prof,
            );
            &&& want <= u64::MAX ==> reg_network(st, nsp, proc, prof).0 == want
            &&& reg_network(st, nsp, proc, prof).0 < u64::MAX ==> reg_network(
                st,
                nsp,
                proc,
                prof,
            ).0 >= 4 * prof.one_way_ns + proc
        }),
{
    quiet_phase_takes_its_time(st, 1, 64, 32, 0, prof);
    quiet_fanout_takes_its_time(st, nsp, 64, 0, prof);
    quiet_fanout_takes_its_time(st, nsp, 64, proc, prof);
    lemma_tx_small(64 + prof.overhead_bytes, prof.bw_bps as int);
    lemma_tx_small(32 + prof.overhead_bytes, prof.bw_bps as int);
    assert(0 * longest(
        tx_time(64 + prof.overhead_bytes, prof.bw_bps as int),
        tx_time(32 + prof.overhead_bytes, prof.bw_bps as int),
    ) == 0);
    assert(nsp * tx_time(64 + prof.overhead_bytes, prof.bw_bps as int) >= 0) by (nonlinear_arith)
        requires
            nsp >= 1,
            tx_time(64 + prof.overhead_bytes, prof.bw_bps as int) >= 0,
    ;
}

/// Without jitter, and below the bound of a time, a PAS-TA-U authentication takes one round
/// with `tsp` servers: 96 bytes there and 120 back.
pub proof fn quiet_authentication_takes_its_time(
    st: RngState,
    tsp: int,
    proc: int,
    prof: NetProfile,
)
    requires
        prof.jitter_ns == 0,
        1 <= tsp,
        0 <= proc,
    ensures
        auth_network(st, tsp, proc, prof).1 == st,
        round_ns(tsp, 96, 120, proc, prof) <= u64::MAX ==> auth_network(st, tsp, proc, prof).0
            == round_ns(tsp, 96, 120, proc, prof),
        auth_network(st, tsp, proc, prof).0 < u64::MAX ==> auth_network(st, tsp, proc, prof).0 >= 2
            * prof.one_way_ns + proc,
        0 <= auth_network(st, tsp, proc, prof).0 <= u64::MAX,
{
    quiet_phase_takes_its_time(st, tsp, 96, 120, proc, prof);
}

/// Without jitter, and below the bound of a time, a PAS-TA-U password update takes two
/// authentications, a round for a token on the key changes of all servers, and the changes
/// with their token to every server.
pub proof fn quiet_update_takes_its_time(
    st: RngState,
    nsp: int,
    tsp: int,
    auth_proc: int,
    update_proc: int,
    handle_proc: int,
    prof: NetProfile,
)
    requires
        prof.jitter_ns == 0,
        1 <= tsp,
        1 <= nsp,
        0 <= auth_proc,
        0 <= update_proc,
        0 <= handle_proc,
    ensures
        ({
            let want = 2 * round_ns(tsp, 96, 120, auth_proc, prof) + round_ns(
                tsp,
                104 * nsp + 64,
                120,
                update_proc,
                prof,
            ) + fanout_ns(nsp, 104 * nsp + 80, handle_proc, prof);
            let t = update_network(
                st,
                nsp,
                tsp,
                auth_proc,
                update_proc,
                handle_proc,
                prof,
            ).0;
            &&& want <= u64::MAX ==> t == want
            &&& t < u64::MAX ==> t >= 7 * prof.one_way_ns + 2 * auth_proc + update_proc
                + handle_proc
        }),
{
    let req = 104 * nsp + 64;
    let push = 104 * nsp + 80;
    assert(nsp * 104 == 104 * nsp);
    quiet_authentication_takes_its_time(st, tsp, auth_proc, prof);
    quiet_phase_takes_its_time(st, tsp, req, 120, update_proc, prof);
    quiet_fanout_takes_its_time(st, nsp, push, handle_proc, prof);
    lemma_round_positive(tsp, 96, 120, auth_proc, prof);
    lemma_round_positive(tsp, req, 120, update_proc, prof);
    lemma_tx_small(push + prof.overhead_bytes, prof.bw_bps as int);
    assert(nsp * tx_time(push + prof.overhead_bytes, prof.bw_bps as int) >= 0) by (nonlinear_arith)
        requires
            nsp >= 1,
            tx_time(push + prof.overhead_bytes, prof.bw_bps as int) >= 0,
    ;
}

proof fn lemma_round_positive(wait_for: int, req: int, resp: int, proc: int, prof: NetProfile)
    requires
        1 <= wait_for,
        0 <= req,
        0 <= resp,
        0 <= proc,
    ensures
        round_ns(wait_for, req, resp, proc, prof) >= 2 * prof.one_way_ns + proc,
{
    let up = tx_time(req + prof.overhead_bytes, prof.bw_bps as int);
    let down = tx_time(resp + prof.overhead_bytes, prof.bw_bps as int);
    lemma_tx_small(req + prof.overhead_bytes, prof.bw_bps as int);
    lemma_tx_small(resp + prof.overhead_bytes, prof.bw_bps as int);
    assert((wait_for - 1) * longest(up, down) >= 0) by (nonlinear_arith)
        requires
            wait_for >= 1,
            longest(up, down) >= 0,
    ;
}

proof fn lemma_answers(ready: Seq<int>, first: int, step: int, tx: int, one_way: int, d: Seq<int>, n: int)
    requires
        1 <= n <= ready.len(),
        n <= d.len(),
        0 <= first,
        0 <= step,
        0 <= tx,
        0 <= one_way,
        first + one_way + tx + (n - 1) * longest(step, tx) <= u64::MAX,
        forall|i: int| 0 <= i < n ==> #[trigger] ready[i] == first + i * step,
        forall|i: int| 0 <= i < n ==> #[trigger] d[i] == 0,
    ensures
        answers_received(ready, tx, one_way, d, n) == first + one_way + tx + (n - 1) * longest(
            step,
            tx,
        ),
    decreases n,
{
    let m = longest(step, tx);
    reveal_with_fuel(answers_received, 2);
    assert(ready[n - 1] == first + (n - 1) * step);
    assert(d[n - 1] == 0);
    if n > 1 {
        assert((n - 1) * m == (n - 2) * m + m) by (nonlinear_arith);
        assert((n - 1) * step == (n - 2) * step + step) by (nonlinear_arith);
        lemma_answers(ready, first, step, tx, one_way, d, n - 1);
        assert((n - 2) * step <= (n - 2) * m) by (nonlinear_arith)
            requires
                n >= 2,
                step <= m,
        ;
        assert((n - 1) * step <= (n - 1) * m) by (nonlinear_arith)
            requires
                n >= 2,
                step <= m,
        ;
        assert((n - 1) * step >= 0) by (nonlinear_arith)
            requires
                n >= 2,
                step >= 0,
        ;
        if step >= tx {
            assert(m == step);
        } else {
            assert(m == tx);
        }
    } else {
        assert(0 * step == 0 && 0 * m == 0);
    }
}

/// The time of an AugSSO round without jitter. Here an answer is only received.
pub open spec fn augsso_ns(k: int, req: int, resp: int, proc: int, prof: NetProfile) -> int {
    let up = bounded_tx_time(req + prof.overhead_bytes, prof.bw_bps as int);
    let down = bounded_tx_time(resp + prof.overhead_bytes, prof.bw_bps as int);
    up + prof.one_way_ns + proc + prof.one_way_ns + down + (k - 1) * longest(up, down)
}

/// Without jitter, and below the bound of a time, an AugSSO round takes its closed form.
pub proof fn quiet_augsso_round_takes_its_time(
    k: int,
    req: int,
    resp: int,
    proc: int,
    prof: NetProfile,
    d: Seq<int>,
)
    requires
        1 <= k,
        prof.bw_bps > 0,
        0 <= req,
        0 <= resp,
        0 <= proc,
        d.len() == 2 * k,
        forall|i: int| 0 <= i < d.len() ==> #[trigger] d[i] == 0,
        augsso_ns(k, req, resp, proc, prof) <= u64::MAX,
    ensures
        augsso_phase(k, req, resp, proc, prof, d) == augsso_ns(k, req, resp, proc, prof),
        augsso_phase(k, req, resp, proc, prof, d) >= 2 * prof.one_way_ns + proc,
{
    let up = bounded_tx_time(req + prof.overhead_bytes, prof.bw_bps as int);
    let down = bounded_tx_time(resp + prof.overhead_bytes, prof.bw_bps as int);
    let one_way = prof.one_way_ns as int;
    lemma_bounded_positive(req + prof.overhead_bytes, prof.bw_bps as int);
    lemma_bounded_positive(resp + prof.overhead_bytes, prof.bw_bps as int);
    let m = longest(up, down);
    let first = up + one_way + proc;
    assert((k - 1) * m >= 0) by (nonlinear_arith)
        requires
            k >= 1,
            m >= 0,
    ;
    let ready = Seq::new(
        k as nat,
        |i: int|
            crate::netsim::clamp(
                crate::netsim::clamp(crate::netsim::clamp((i + 1) * up + one_way) + d[i]) + proc,
            ),
    );
    assert forall|i: int| 0 <= i < k implies #[trigger] ready[i] == first + i * up by {
        assert(d[i] == 0);
        assert((i + 1) * up == i * up + up) by (nonlinear_arith);
        assert(0 <= i * up <= (k - 1) * m) by (nonlinear_arith)
            requires
                0 <= i <= k - 1,
                0 <= up <= m,
        ;
    }
    assert forall|i: int, j: int| 0 <= i < j < ready.len() implies ready[i] <= ready[j] by {
        assert(i * up <= j * up) by (nonlinear_arith)
            requires
                i < j,
                0 <= up,
        ;
        assert(ready[i] == first + i * up);
        assert(ready[j] == first + j * up);
    }
    lemma_order_kept(ready);
    let e = d.subrange(k, 2 * k);
    assert forall|i: int| 0 <= i < k implies #[trigger] e[i] == 0 by {
        assert(e[i] == d[k + i]);
    }
    lemma_answers(ready, first, up, down, one_way, e, k);
}

proof fn lemma_bounded_positive(bytes: int, bw: int)
    requires
        0 <= bytes,
        0 < bw,
    ensures
        bounded_tx_time(bytes, bw) >= 0,
{
    vstd::arithmetic::div_mod::lemma_div_pos_is_pos(bytes * 8 * 1_000_000_000 + bw - 1, bw);
    vstd::arithmetic::div_mod::lemma_div_pos_is_pos(u64::MAX + bw - 1, bw);
}

/// The bytes of the AugSSO rounds: what is registered is a name, a share and a key; the first
/// request is the payload and the blinded password, its answer a partial value and a
/// ciphertext of a challenge and a key; the second is a challenge, its answer a token with the
/// payload. An update sends a name and two blinded passwords first.
pub proof fn augsso_rounds_have_their_bytes()
    ensures
        REG_REQ_BYTES_PER_SERVER == 32 + 32 + 32,
        REG_RESP_BYTES_PER_SERVER == 0,
        AUTH_REQ1_BYTES_PER_SERVER == 64 + 48,
        AUTH_RESP1_BYTES_PER_SERVER == 48 + (32 + 24 + 64 + 16),
        AUTH_REQ2_BYTES_PER_SERVER == 24 + 32 + 16,
        AUTH_RESP2_BYTES_PER_SERVER == 24 + (48 + 64) + 16,
        UPDATE_REQ1_BYTES_PER_SERVER == 32 + 48 + 48,
        UPDATE_RESP1_BYTES_PER_SERVER == 48 + (32 + 24 + (32 + 32 + 48) + 16),
        UPDATE_REQ2_BYTES_PER_SERVER == 24 + (32 + 32) + 16,
        UPDATE_RESP2_BYTES_PER_SERVER == 48,
{
}

/// With jitter a round still takes no less than the way there and back, where a time can hold
/// that, less the jitter on both ways.
pub proof fn round_takes_at_least_its_way(
    st: RngState,
    total: int,
    wait_for: int,
    req: int,
    resp: int,
    prof: NetProfile,
)
    requires
        prof.jitter_ns <= i64::MAX,
        1 <= wait_for <= total,
        0 <= req,
        0 <= resp,
        2 * prof.one_way_ns <= u64::MAX,
    ensures
        quorum_from(st, total, wait_for, req, resp, prof).0 >= 2 * prof.one_way_ns - 2
            * prof.jitter_ns,
{
    let up = tx_time(req + prof.overhead_bytes, prof.bw_bps as int);
    let down = tx_time(resp + prof.overhead_bytes, prof.bw_bps as int);
    lemma_tx_small(req + prof.overhead_bytes, prof.bw_bps as int);
    lemma_tx_small(resp + prof.overhead_bytes, prof.bw_bps as int);
    let j = prof.jitter_ns as int;
    let d = deviations(st, 2 * total, j);
    let s = Seq::new(
        total as nat,
        |i: int| response(i, up, down, 0, prof.one_way_ns as int, d[2 * i], d[2 * i + 1]),
    );
    lemma_in_order(s);
    let t = in_order(s);
    crate::netsim::waiting_for_more_takes_longer(t, down, 1, wait_for);
    reveal_with_fuel(received, 2);
    assert(t.len() == total);
    assert(t.contains(t[0]));
    assert(s.contains(t[0]));
    let i = s.index_of(t[0]);
    assert(s[i] == t[0]);
    deviations_fill_the_jitter(st, 2 * total, j, 2 * i, 0);
    deviations_fill_the_jitter(st, 2 * total, j, 2 * i + 1, 0);
    assert((i + 1) * up >= 0) by (nonlinear_arith)
        requires
            i >= 0,
            up >= 0,
    ;
}

/// The messages to a provider of the plain scheme hold: for the setup an account, a key, an
/// encrypted master state, a share and a number; for the password function an account and a
/// point; for a login secret its identifier, and the ciphertext; for a password update the
/// signed message; each is acknowledged by one byte or answered by what was asked for.
pub proof fn provider_messages_have_their_bytes()
    ensures
        NET_UPSPA_SETUP_REQ_BYTES == 32 + 32 + (24 + 96 + 16) + 32 + 4,
        NET_UPSPA_SETUP_RESP_BYTES == 1,
        NET_UPSPA_TOPRF_REQ_BYTES == 32 + 32,
        NET_UPSPA_TOPRF_RESP_BYTES == 32,
        NET_UPSPA_GET_CSP_REQ_BYTES == 32,
        NET_UPSPA_GET_CSP_RESP_BYTES == 24 + 40 + 16,
        NET_UPSPA_PUT_CSP_REQ_BYTES == 32 + 24 + 40 + 16,
        NET_UPSPA_PUT_CSP_RESP_BYTES == 1,
        PWDUPD_MSG_BYTES == (24 + 96 + 16) + 32 + 8 + 4,
        NET_UPSPA_PWDUPD_REQ_BYTES == 32 + PWDUPD_MSG_BYTES + 64,
        NET_UPSPA_PWDUPD_RESP_BYTES == 1,
{
}

} // verus!
