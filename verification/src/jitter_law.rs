//! What jitter does to times: which deviation goes to which message, how answers queue up behind
//! each other, and how the stream of random numbers runs through the rounds.
use vstd::prelude::*;

use crate::bytes::u64_of_le;
use crate::net_phases::{
    answers_received, augsso_phase, auth_network, bounded_tx_time, reg_network, rounds_from,
    update_network, Round,
};
use crate::netsim::{
    after, deviations, fanout_done, fanout_from, phase_from, quorum_from, received, response,
    tx_time, NetProfile,
};
use crate::network_law::deviations_fill_the_jitter;
use crate::rng::RngState;
use crate::stats::in_order;

verus! {

/// The deviation that the number at place `i` of the stream gives.
pub open spec fn shift(st: RngState, i: int, jitter: int) -> int {
    u64_of_le(after(st, i).bytes(8)) as int % (2 * jitter + 1) - jitter
}

/// The numbers of a stream are eight bytes each, one behind the other.
pub proof fn numbers_follow_each_other(st: RngState, n: int)
    requires
        n >= 0,
    ensures
        after(st, 0) == st,
        after(st, n + 1) == after(st, n).skip(8),
{
}

/// An answer arrives after the requests up to its own were sent, both ways with their
/// deviations, the work, and the sending of the answer, where a time can hold that.
pub proof fn answers_arrive_with_their_deviations(
    i: int,
    up: int,
    down: int,
    proc: int,
    way: int,
    d: int,
    e: int,
)
    requires
        0 <= i,
        0 <= up,
        0 <= down,
        0 <= proc,
        -way <= d <= way,
        -way <= e <= way,
        (i + 1) * up + 4 * way + proc + down <= u64::MAX,
    ensures
        response(i, up, down, proc, way, d, e) == (i + 1) * up + way + d + proc + down + way + e,
{
    assert((i + 1) * up >= 0) by (nonlinear_arith)
        requires
            0 <= i,
            0 <= up,
    ;
}

/// Answers are received one at a time, in the order in which they arrive: each is received when
/// it has arrived and those before it were, and takes its time.
pub proof fn answers_queue_up(arrivals: Seq<int>, tx: int, n: int)
    requires
        0 <= n < arrivals.len(),
        0 <= tx,
        received(arrivals, tx, n) + tx <= u64::MAX,
        0 <= arrivals[n] && arrivals[n] + tx <= u64::MAX,
    ensures
        received(arrivals, tx, 0) == 0,
        received(arrivals, tx, n + 1) == tx + if received(arrivals, tx, n) >= arrivals[n] {
            received(arrivals, tx, n)
        } else {
            arrivals[n]
        },
        received(arrivals, tx, n) >= 0,
{
    lemma_received_positive(arrivals, tx, n);
}

proof fn lemma_received_positive(arrivals: Seq<int>, tx: int, n: int)
    ensures
        0 <= received(arrivals, tx, n) <= u64::MAX,
    decreases n,
{
    if n > 0 {
        lemma_received_positive(arrivals, tx, n - 1);
    }
}

/// With jitter a round that waits for some of the answers takes two numbers of the stream for
/// each provider, the first for the way there and the second for the way back, and is over when
/// the earliest answers were received.
pub proof fn jittered_rounds_use_two_numbers_each(
    st: RngState,
    total: int,
    wait_for: int,
    req: int,
    resp: int,
    prof: NetProfile,
)
    requires
        0 < prof.jitter_ns <= i64::MAX,
        prof.jitter_ns <= prof.one_way_ns,
        1 <= wait_for,
        1 <= total,
        0 <= req,
        0 <= resp,
        total * tx_time(req + prof.overhead_bytes, prof.bw_bps as int) + 4 * prof.one_way_ns
            + tx_time(resp + prof.overhead_bytes, prof.bw_bps as int) <= u64::MAX,
    ensures
        ({
            let j = prof.jitter_ns as int;
            let up = tx_time(req + prof.overhead_bytes, prof.bw_bps as int);
            let down = tx_time(resp + prof.overhead_bytes, prof.bw_bps as int);
            let times = Seq::new(
                total as nat,
                |i: int|
                    (i + 1) * up + down + 2 * prof.one_way_ns + shift(st, 2 * i, j) + shift(
                        st,
                        2 * i + 1,
                        j,
                    ),
            );
            &&& quorum_from(st, total, wait_for, req, resp, prof).0 == received(
                in_order(times),
                down,
                wait_for,
            )
            &&& quorum_from(st, total, wait_for, req, resp, prof).1 == after(st, 2 * total)
        }),
{
    let j = prof.jitter_ns as int;
    let way = prof.one_way_ns as int;
    let up = tx_time(req + prof.overhead_bytes, prof.bw_bps as int);
    let down = tx_time(resp + prof.overhead_bytes, prof.bw_bps as int);
    let d = deviations(st, 2 * total, j);
    let times = Seq::new(
        total as nat,
        |i: int|
            (i + 1) * up + down + 2 * prof.one_way_ns + shift(st, 2 * i, j) + shift(
                st,
                2 * i + 1,
                j,
            ),
    );
    let s = Seq::new(
        total as nat,
        |i: int| response(i, up, down, 0, way, d[2 * i], d[2 * i + 1]),
    );
    assert forall|i: int| 0 <= i < total implies s[i] == times[i] by {
        deviations_fill_the_jitter(st, 2 * total, j, 2 * i, 0);
        deviations_fill_the_jitter(st, 2 * total, j, 2 * i + 1, 0);
        assert((i + 1) * up <= total * up) by (nonlinear_arith)
            requires
                i < total,
                0 <= up,
        ;
        answers_arrive_with_their_deviations(i, up, down, 0, way, d[2 * i], d[2 * i + 1]);
    }
    assert(s =~= times);
    deviations_fill_the_jitter(st, 2 * total, j, 0, 0);
}

/// With jitter a phase that waits for all answers takes a number of the stream for each way
/// there first, and then one for each way back.
pub proof fn jittered_phases_use_ways_there_first(
    st: RngState,
    k: int,
    req: int,
    resp: int,
    proc: int,
    prof: NetProfile,
)
    requires
        0 < prof.jitter_ns <= i64::MAX,
        prof.jitter_ns <= prof.one_way_ns,
        1 <= k,
        0 <= req,
        0 <= resp,
        0 <= proc,
        k * tx_time(req + prof.overhead_bytes, prof.bw_bps as int) + 4 * prof.one_way_ns + proc
            + tx_time(resp + prof.overhead_bytes, prof.bw_bps as int) <= u64::MAX,
    ensures
        ({
            let j = prof.jitter_ns as int;
            let up = tx_time(req + prof.overhead_bytes, prof.bw_bps as int);
            let down = tx_time(resp + prof.overhead_bytes, prof.bw_bps as int);
            let times = Seq::new(
                k as nat,
                |i: int|
                    (i + 1) * up + proc + down + 2 * prof.one_way_ns + shift(st, i, j) + shift(
                        st,
                        k + i,
                        j,
                    ),
            );
            &&& phase_from(st, k, req, resp, proc, prof).0 == received(in_order(times), down, k)
            &&& phase_from(st, k, req, resp, proc, prof).1 == after(st, 2 * k)
        }),
{
    let j = prof.jitter_ns as int;
    let way = prof.one_way_ns as int;
    let up = tx_time(req + prof.overhead_bytes, prof.bw_bps as int);
    let down = tx_time(resp + prof.overhead_bytes, prof.bw_bps as int);
    let d = deviations(st, 2 * k, j);
    let times = Seq::new(
        k as nat,
        |i: int|
            (i + 1) * up + proc + down + 2 * prof.one_way_ns + shift(st, i, j) + shift(
                st,
                k + i,
                j,
            ),
    );
    let s = Seq::new(k as nat, |i: int| response(i, up, down, proc, way, d[i], d[k + i]));
    assert forall|i: int| 0 <= i < k implies s[i] == times[i] by {
        deviations_fill_the_jitter(st, 2 * k, j, i, 0);
        deviations_fill_the_jitter(st, 2 * k, j, k + i, 0);
        assert((i + 1) * up <= k * up) by (nonlinear_arith)
            requires
                i < k,
                0 <= up,
        ;
        answers_arrive_with_their_deviations(i, up, down, proc, way, d[i], d[k + i]);
    }
    assert(s =~= times);
    deviations_fill_the_jitter(st, 2 * k, j, 0, 0);
}

/// A message to several receivers is through when the last of them has it and is done: no
/// earlier than any, and when one is. Each takes its own number of the stream.
pub proof fn jittered_fanout_ends_with_the_last(
    st: RngState,
    k: int,
    payload: int,
    proc: int,
    prof: NetProfile,
    i: int,
)
    requires
        0 < prof.jitter_ns <= i64::MAX,
        prof.jitter_ns <= prof.one_way_ns,
        0 <= i < k,
        0 <= payload,
        0 <= proc,
        k * tx_time(payload + prof.overhead_bytes, prof.bw_bps as int) + 2 * prof.one_way_ns + proc
            <= u64::MAX,
    ensures
        ({
            let j = prof.jitter_ns as int;
            let tx = tx_time(payload + prof.overhead_bytes, prof.bw_bps as int);
            let t = fanout_from(st, k, payload, proc, prof);
            &&& t.0 >= (i + 1) * tx + prof.one_way_ns + shift(st, i, j) + proc
            &&& exists|m: int|
                0 <= m < k && t.0 == (m + 1) * tx + prof.one_way_ns + #[trigger] shift(st, m, j)
                    + proc
            &&& t.1 == after(st, k)
        }),
{
    let j = prof.jitter_ns as int;
    let tx = tx_time(payload + prof.overhead_bytes, prof.bw_bps as int);
    let d = deviations(st, k, j);
    assert forall|m: int| 0 <= m < k implies #[trigger] d[m] == shift(st, m, j) && -j <= d[m] <= j by {
        deviations_fill_the_jitter(st, k, j, m, 0);
    }
    deviations_fill_the_jitter(st, k, j, 0, 0);
    let m = lemma_fanout_last(k, k, tx, proc, prof.one_way_ns as int, d, i);
    assert(d[m] == shift(st, m, j));
    assert(d[i] == shift(st, i, j));
}

proof fn lemma_fanout_last(
    n: int,
    k: int,
    tx: int,
    proc: int,
    way: int,
    d: Seq<int>,
    i: int,
) -> (m: int)
    requires
        0 <= i < n <= k,
        d.len() == k,
        0 <= tx,
        0 <= proc,
        0 <= way,
        forall|x: int| 0 <= x < k ==> -way <= #[trigger] d[x] <= way,
        k * tx + 2 * way + proc <= u64::MAX,
    ensures
        fanout_done(n, tx, proc, way, d) >= (i + 1) * tx + way + d[i] + proc,
        0 <= m < n,
        fanout_done(n, tx, proc, way, d) == (m + 1) * tx + way + d[m] + proc,
    decreases n,
{
    assert(n * tx <= k * tx) by (nonlinear_arith)
        requires
            n <= k,
            0 <= tx,
    ;
    assert(n * tx >= 0) by (nonlinear_arith)
        requires
            n >= 0,
            0 <= tx,
    ;
    assert(-way <= d[n - 1] <= way);
    let own = n * tx + way + d[n - 1] + proc;
    assert((n - 1 + 1) * tx == n * tx);
    if n == 1 {
        assert(fanout_done(0, tx, proc, way, d) == 0);
        0
    } else if i < n - 1 {
        let m = lemma_fanout_last(n - 1, k, tx, proc, way, d, i);
        if fanout_done(n - 1, tx, proc, way, d) < own {
            n - 1
        } else {
            m
        }
    } else {
        let m = lemma_fanout_last(n - 1, k, tx, proc, way, d, 0);
        if fanout_done(n - 1, tx, proc, way, d) < own {
            n - 1
        } else {
            m
        }
    }
}

/// In a phase of AugSSO the servers are done in the order of what they waited for; the answers
/// then travel with the deviations that stand behind those of the requests, in that order, and
/// are received one at a time.
pub proof fn augsso_answers_travel_in_order(
    k: int,
    req: int,
    resp: int,
    proc: int,
    prof: NetProfile,
    d: Seq<int>,
)
    requires
        1 <= k,
        d.len() == 2 * k,
        0 <= proc,
        0 <= bounded_tx_time(req + prof.overhead_bytes, prof.bw_bps as int),
        forall|i: int| 0 <= i < 2 * k ==> -prof.one_way_ns <= #[trigger] d[i] <= prof.one_way_ns,
        k * bounded_tx_time(req + prof.overhead_bytes, prof.bw_bps as int) + 2 * prof.one_way_ns
            + proc <= u64::MAX,
    ensures
        ({
            let up = bounded_tx_time(req + prof.overhead_bytes, prof.bw_bps as int);
            let down = bounded_tx_time(resp + prof.overhead_bytes, prof.bw_bps as int);
            let done = Seq::new(
                k as nat,
                |i: int| (i + 1) * up + prof.one_way_ns + d[i] + proc,
            );
            augsso_phase(k, req, resp, proc, prof, d) == answers_received(
                in_order(done),
                down,
                prof.one_way_ns as int,
                d.skip(k),
                k,
            )
        }),
{
    let up = bounded_tx_time(req + prof.overhead_bytes, prof.bw_bps as int);
    let way = prof.one_way_ns as int;
    let done = Seq::new(k as nat, |i: int| (i + 1) * up + prof.one_way_ns + d[i] + proc);
    let ready = Seq::new(
        k as nat,
        |i: int|
            crate::netsim::clamp(
                crate::netsim::clamp(crate::netsim::clamp((i + 1) * up + way) + d[i]) + proc,
            ),
    );
    assert forall|i: int| 0 <= i < k implies ready[i] == done[i] by {
        assert((i + 1) * up <= k * up) by (nonlinear_arith)
            requires
                i < k,
                0 <= up,
        ;
        assert((i + 1) * up >= 0) by (nonlinear_arith)
            requires
                0 <= i,
                0 <= up,
        ;
        assert(-way <= d[i] <= way);
    }
    assert(ready =~= done);
    assert(d.subrange(k, 2 * k) =~= d.skip(k));
}

/// An answer of AugSSO is received when it has come its way and those before it were received.
pub proof fn augsso_answers_queue_up(
    done: Seq<int>,
    tx: int,
    way: int,
    d: Seq<int>,
    n: int,
)
    requires
        0 <= n < done.len(),
        0 <= tx,
        0 <= done[n],
        -way <= d[n] <= way,
        done[n] + 2 * way + tx <= u64::MAX,
        answers_received(done, tx, way, d, n) + tx <= u64::MAX,
    ensures
        answers_received(done, tx, way, d, 0) == 0,
        answers_received(done, tx, way, d, n + 1) == tx + if answers_received(done, tx, way, d, n)
            >= done[n] + way + d[n] {
            answers_received(done, tx, way, d, n)
        } else {
            done[n] + way + d[n]
        },
{
    if n > 0 {
        assert(answers_received(done, tx, way, d, n) >= 0);
    }
}

/// The rounds of a phase follow each other: one more adds its time, and goes on with the stream
/// where the one before left it.
pub proof fn rounds_follow_each_other(st: RngState, v: Seq<Round>, k: int, prof: NetProfile)
    requires
        0 <= k < v.len(),
    ensures
        ({
            let before = rounds_from(st, v, k, prof);
            let next = quorum_from(
                before.1,
                v[k].total as int,
                v[k].wait_for as int,
                v[k].req as int,
                v[k].resp as int,
                prof,
            );
            let both = rounds_from(st, v, k + 1, prof);
            &&& rounds_from(st, v, 0, prof) == (0int, st)
            &&& both.1 == next.1
            &&& 0 <= before.0 + next.0 <= u64::MAX ==> both.0 == before.0 + next.0
            &&& before.0 + next.0 > u64::MAX ==> both.0 == u64::MAX
        }),
{
}

/// The stages of a registration and of an update of PAS-TA-U follow each other: their times add
/// up, and each goes on with the stream where the one before left it.
pub proof fn stages_follow_each_other(
    st: RngState,
    nsp: int,
    tsp: int,
    a: int,
    b: int,
    c: int,
    prof: NetProfile,
)
    ensures
        ({
            let x = phase_from(st, 1, 64, 32, 0, prof);
            let y = fanout_from(x.1, nsp, 64, 0, prof);
            let z = fanout_from(y.1, nsp, 64, a, prof);
            let got = reg_network(st, nsp, a, prof);
            &&& got.1 == z.1
            &&& x.0 >= 0 && y.0 >= 0 && z.0 >= 0 && x.0 + y.0 + z.0 <= u64::MAX ==> got.0 == x.0
                + y.0 + z.0
        }),
        auth_network(st, tsp, a, prof) == phase_from(st, tsp, 96, 120, a, prof),
        ({
            let w = phase_from(st, tsp, 96, 120, a, prof);
            let x = phase_from(w.1, tsp, 96, 120, a, prof);
            let y = phase_from(x.1, tsp, 104 * nsp + 64, 120, b, prof);
            let z = fanout_from(y.1, nsp, 104 * nsp + 80, c, prof);
            let got = update_network(st, nsp, tsp, a, b, c, prof);
            &&& got.1 == z.1
            &&& w.0 >= 0 && x.0 >= 0 && y.0 >= 0 && z.0 >= 0 && w.0 + x.0 + y.0 + z.0 <= u64::MAX
                ==> got.0 == w.0 + x.0 + y.0 + z.0
        }),
{
    assert(nsp * 104 == 104 * nsp);
    assert(32 + nsp * 104 + 32 == 104 * nsp + 64);
    assert(nsp * 104 + 32 + 48 == 104 * nsp + 80);
}

} // verus!
