//! A model of message exchanges over a network: latency, jitter and bandwidth.
use vstd::prelude::*;

use crate::bytes::u64_of_le;
use crate::rng::{Rng, RngState};
use crate::stats::{in_order, short_ints, sort_short};

verus! {

/// A network in whole nanoseconds, bits per second and bytes per message.
#[derive(Clone, Copy, Debug)]
pub struct NetProfile {
    pub name: &'static str,
    pub one_way_ns: u64,
    pub jitter_ns: u64,
    pub bw_bps: u64,
    pub overhead_bytes: usize,
}

/// The number nearest to `x` that a time can hold.
pub open spec fn clamp(x: int) -> int {
    if x < 0 {
        0
    } else if x > u64::MAX {
        u64::MAX as int
    } else {
        x
    }
}

/// The larger of two numbers.
pub open spec fn larger(a: int, b: int) -> int {
    if a < b {
        b
    } else {
        a
    }
}

/// How many nanoseconds it takes to send bytes, rounded up; no time at all where the
/// bandwidth is not limited. Only the low 64 bits of a longer time are kept.
pub open spec fn tx_time(bytes: int, bw_bps: int) -> int {
    if bw_bps == 0 {
        0
    } else {
        ((bytes * 8 * 1_000_000_000 + bw_bps - 1) / bw_bps) % 0x1_0000_0000_0000_0000
    }
}

/// How many nanoseconds it takes to send bytes.
pub fn tx_time_ns(bytes: usize, bw_bps: u64) -> (r: u64)
    ensures
        r == tx_time(bytes as int, bw_bps as int),
{
    if bw_bps == 0 {
        return 0;
    }
    let bits: u128 = bytes as u128 * 8;
    let bw: u128 = bw_bps as u128;
    assert(bits * 1_000_000_000 <= 0x1_0000_0000_0000_0000 * 8 * 1_000_000_000);
    let ns: u128 = (bits * 1_000_000_000 + bw - 1) / bw;
    (ns % 0x1_0000_0000_0000_0000) as u64
}

/// Moves a time by a signed number of nanoseconds.
pub fn add_signed_ns(base: u64, delta: i64) -> (r: u64)
    ensures
        r == clamp(base + delta),
{
    let sum: i128 = base as i128 + delta as i128;
    if sum < 0 {
        0
    } else if sum > u64::MAX as i128 {
        u64::MAX
    } else {
        sum as u64
    }
}

/// The place of a generator after `n` numbers of eight bytes.
pub open spec fn after(st: RngState, n: int) -> RngState
    decreases n,
{
    if n <= 0 {
        st
    } else {
        after(st, n - 1).skip(8)
    }
}

/// A number brought into the range of `i64` by dropping higher bits.
pub open spec fn low_bits(x: int) -> int {
    let m = x % 0x1_0000_0000_0000_0000;
    if m < 0x8000_0000_0000_0000 {
        m
    } else {
        m - 0x1_0000_0000_0000_0000
    }
}

/// The deviation from the latency that a random number stands for: one of
/// `-jitter_ns..=jitter_ns`.
pub open spec fn deviation(v: int, jitter_ns: int) -> int {
    low_bits(v % (2 * jitter_ns + 1) - jitter_ns)
}

/// The next `n` deviations. Without jitter nothing is drawn.
pub open spec fn deviations(st: RngState, n: int, jitter_ns: int) -> Seq<int> {
    Seq::new(
        n as nat,
        |i: int|
            if jitter_ns == 0 {
                0
            } else {
                deviation(u64_of_le(after(st, i).bytes(8)) as int, jitter_ns)
            },
    )
}

/// The place of a generator after `n` deviations.
pub open spec fn drawn(st: RngState, n: int, jitter_ns: int) -> RngState {
    if jitter_ns == 0 {
        st
    } else {
        after(st, n)
    }
}

/// A jitter that a signed time can hold is never exceeded.
pub proof fn deviation_is_bounded(v: int, jitter_ns: int)
    requires
        0 <= v,
        0 < jitter_ns <= i64::MAX,
    ensures
        -jitter_ns <= deviation(v, jitter_ns) <= jitter_ns,
        deviation(v, jitter_ns) == v % (2 * jitter_ns + 1) - jitter_ns,
{
    let x = v % (2 * jitter_ns + 1) - jitter_ns;
    assert(0 <= v % (2 * jitter_ns + 1) < 2 * jitter_ns + 1);
    if x < 0 {
        assert(x % 0x1_0000_0000_0000_0000 == x + 0x1_0000_0000_0000_0000);
    }
}

/// Draws one deviation.
pub fn sample_jitter(rng: &mut Rng, jitter_ns: u64) -> (r: i64)
    ensures
        r == deviations(old(rng)@, 1, jitter_ns as int)[0],
        final(rng)@ == drawn(old(rng)@, 1, jitter_ns as int),
{
    if jitter_ns == 0 {
        return 0;
    }
    let ghost st = rng@;
    proof {
        reveal_with_fuel(after, 2);
    }
    let span: u128 = jitter_ns as u128 * 2 + 1;
    let v: u128 = rng.next_u64() as u128 % span;
    let m: u128 = (v + 0x1_0000_0000_0000_0000 - jitter_ns as u128) % 0x1_0000_0000_0000_0000;
    proof {
        let x = v as int - jitter_ns as int;
        assert(m as int == x % 0x1_0000_0000_0000_0000) by {
            vstd::arithmetic::div_mod::lemma_mod_add_multiples_vanish(x, 0x1_0000_0000_0000_0000);
        }
    }
    if m < 0x8000_0000_0000_0000 {
        m as i64
    } else {
        (m as i128 - 0x1_0000_0000_0000_0000) as i64
    }
}

/// The values of deviations.
pub open spec fn signed_ints(s: Seq<i64>) -> Seq<int> {
    Seq::new(s.len(), |i: int| s[i] as int)
}

fn draw(rng: &mut Rng, n: u128, jitter_ns: u64) -> (r: Vec<i64>)
    ensures
        signed_ints(r@) == deviations(old(rng)@, n as int, jitter_ns as int),
        r@.len() == n,
        n <= usize::MAX,
        final(rng)@ == drawn(old(rng)@, n as int, jitter_ns as int),
{
    let ghost st = rng@;
    let mut v: Vec<i64> = Vec::new();
    let mut i: u128 = 0;
    while i < n
        invariant
            i <= n,
            v@.len() == i,
            rng@ == drawn(st, i as int, jitter_ns as int),
            forall|k: int|
                0 <= k < i ==> #[trigger] v@[k] == deviations(st, n as int, jitter_ns as int)[k],
        decreases n - i,
    {
        let d = sample_jitter(rng, jitter_ns);
        proof {
            reveal_with_fuel(after, 2);
            assert(d == deviations(st, n as int, jitter_ns as int)[i as int]);
        }
        v.push(d);
        i = i + 1;
    }
    let count: usize = v.len();
    assert(count == n);
    assert(signed_ints(v@) =~= deviations(st, n as int, jitter_ns as int));
    v
}

/// When the last of the first `n` responses has been received, if each is received after
/// the one before it.
pub open spec fn received(arrivals: Seq<int>, tx: int, n: int) -> int
    decreases n,
{
    if n <= 0 {
        0
    } else {
        clamp(larger(received(arrivals, tx, n - 1), arrivals[n - 1]) + tx)
    }
}

/// To wait for more responses takes no less time.
pub proof fn waiting_for_more_takes_longer(arrivals: Seq<int>, tx: int, m: int, n: int)
    requires
        0 <= m <= n,
        0 <= tx,
    ensures
        0 <= received(arrivals, tx, m) <= received(arrivals, tx, n) <= u64::MAX,
    decreases n,
{
    if n > 0 {
        if m < n {
            waiting_for_more_takes_longer(arrivals, tx, m, n - 1);
        } else {
            waiting_for_more_takes_longer(arrivals, tx, m - 1, n - 1);
        }
    }
}

/// Nothing is received before it arrives.
pub proof fn received_after_arrival(arrivals: Seq<int>, tx: int, n: int, i: int)
    requires
        0 <= i < n <= arrivals.len(),
        0 <= tx,
        forall|k: int| 0 <= k < arrivals.len() ==> 0 <= #[trigger] arrivals[k] <= u64::MAX,
    ensures
        arrivals[i] <= received(arrivals, tx, n),
{
    waiting_for_more_takes_longer(arrivals, tx, i + 1, n);
}

fn receive(sorted: &Vec<u64>, tx: u64, n: usize) -> (r: u64)
    requires
        n <= sorted@.len(),
    ensures
        r == received(short_ints(sorted@), tx as int, n as int),
{
    let mut done: u64 = 0;
    let mut i: usize = 0;
    while i < n
        invariant
            i <= n <= sorted@.len(),
            done == received(short_ints(sorted@), tx as int, i as int),
        decreases n - i,
    {
        let a = sorted[i];
        assert(short_ints(sorted@)[i as int] == a);
        if done < a {
            done = a;
        }
        done = done.saturating_add(tx);
        i = i + 1;
    }
    done
}

/// When the `i`-th of several requests, sent one after the other, reaches its server.
pub open spec fn arrival(i: int, tx: int, one_way: int, d: int) -> int {
    clamp(clamp(clamp((i + 1) * tx) + one_way) + d)
}

/// When the response to the `i`-th request reaches the client, with deviations `d` on
/// the way there and `e` on the way back.
pub open spec fn response(
    i: int,
    tx_req: int,
    tx_resp: int,
    proc: int,
    one_way: int,
    d: int,
    e: int,
) -> int {
    clamp(clamp(clamp(clamp(arrival(i, tx_req, one_way, d) + proc) + tx_resp) + one_way) + e)
}

proof fn lemma_uplink(i: int, tx: int)
    requires
        0 <= i,
        0 <= tx,
    ensures
        clamp(clamp(i * tx) + tx) == clamp((i + 1) * tx),
        clamp(i * tx) >= 0,
{
    assert((i + 1) * tx == i * tx + tx) by (nonlinear_arith);
    assert(i * tx >= 0) by (nonlinear_arith)
        requires
            0 <= i,
            0 <= tx,
    ;
}

/// The time of a phase in which `k` servers are asked one after the other and all answer.
/// The deviations are those of the requests, then those of the responses.
pub open spec fn phase_time(
    k: int,
    req: int,
    resp: int,
    proc: int,
    prof: NetProfile,
    d: Seq<int>,
) -> int {
    let tx_req = tx_time(req + prof.overhead_bytes, prof.bw_bps as int);
    let tx_resp = tx_time(resp + prof.overhead_bytes, prof.bw_bps as int);
    let arrivals = Seq::new(
        k as nat,
        |i: int| response(i, tx_req, tx_resp, proc, prof.one_way_ns as int, d[i], d[k + i]),
    );
    received(in_order(arrivals), tx_resp, k)
}

/// The time of a phase and the place of the generator after it.
pub open spec fn phase_from(
    st: RngState,
    k: int,
    req: int,
    resp: int,
    proc: int,
    prof: NetProfile,
) -> (int, RngState) {
    if k == 0 {
        (0, st)
    } else {
        let j = prof.jitter_ns as int;
        (
            phase_time(k, req, resp, proc, prof, deviations(st, 2 * k, j)),
            drawn(st, 2 * k, j),
        )
    }
}

/// Simulates a phase in which `k` servers are asked one after the other and all answer.
pub fn simulate_parallel_phase(
    k: usize,
    req_payload_bytes: usize,
    resp_payload_bytes: usize,
    proc_ns: u64,
    prof: NetProfile,
    rng: &mut Rng,
) -> (r: u64)
    requires
        req_payload_bytes + prof.overhead_bytes <= usize::MAX,
        resp_payload_bytes + prof.overhead_bytes <= usize::MAX,
    ensures
        (r as int, final(rng)@) == phase_from(
            old(rng)@,
            k as int,
            req_payload_bytes as int,
            resp_payload_bytes as int,
            proc_ns as int,
            prof,
        ),
{
    if k == 0 {
        return 0;
    }
    let tx_req = tx_time_ns(req_payload_bytes + prof.overhead_bytes, prof.bw_bps);
    let tx_resp = tx_time_ns(resp_payload_bytes + prof.overhead_bytes, prof.bw_bps);
    let d = draw(rng, 2 * (k as u128), prof.jitter_ns);
    let ghost g = signed_ints(d@);
    let mut arrivals: Vec<u64> = Vec::new();
    let mut uplink: u64 = 0;
    let mut i: usize = 0;
    while i < k
        invariant
            i <= k,
            g == signed_ints(d@),
            d@.len() == 2 * k <= usize::MAX,
            arrivals@.len() == i,
            uplink == clamp(i * tx_req),
            forall|m: int|
                0 <= m < i ==> #[trigger] arrivals@[m] == response(
                    m,
                    tx_req as int,
                    tx_resp as int,
                    proc_ns as int,
                    prof.one_way_ns as int,
                    g[m],
                    g[k + m],
                ),
        decreases k - i,
    {
        proof {
            lemma_uplink(i as int, tx_req as int);
            assert(g[i as int] == d@[i as int]);
            assert(g[k + i] == d@[k + i]);
        }
        uplink = uplink.saturating_add(tx_req);
        let at_server = add_signed_ns(uplink.saturating_add(prof.one_way_ns), d[i]);
        let ready = at_server.saturating_add(proc_ns);
        arrivals.push(
            add_signed_ns(ready.saturating_add(tx_resp).saturating_add(prof.one_way_ns), d[k + i]),
        );
        i = i + 1;
    }
    assert(short_ints(arrivals@) =~= Seq::new(
        k as nat,
        |i: int|
            response(
                i,
                tx_req as int,
                tx_resp as int,
                proc_ns as int,
                prof.one_way_ns as int,
                g[i],
                g[k + i],
            ),
    ));
    let sorted = sort_short(&arrivals);
    receive(&sorted, tx_resp, k)
}

/// When the last of `n` servers has dealt with its message, the servers being sent to one
/// after the other.
pub open spec fn fanout_done(
    n: int,
    tx: int,
    proc: int,
    one_way: int,
    d: Seq<int>,
) -> int
    decreases n,
{
    if n <= 0 {
        0
    } else {
        larger(
            fanout_done(n - 1, tx, proc, one_way, d),
            clamp(arrival(n - 1, tx, one_way, d[n - 1]) + proc),
        )
    }
}

/// The time of a fan-out to `k` servers and the place of the generator after it.
pub open spec fn fanout_from(
    st: RngState,
    k: int,
    payload: int,
    proc: int,
    prof: NetProfile,
) -> (int, RngState) {
    let j = prof.jitter_ns as int;
    let tx = tx_time(payload + prof.overhead_bytes, prof.bw_bps as int);
    if k == 0 {
        (0, st)
    } else {
        (
            fanout_done(k, tx, proc, prof.one_way_ns as int, deviations(st, k, j)),
            drawn(st, k, j),
        )
    }
}

/// Simulates messages to `k` servers that send nothing back.
pub fn simulate_one_way_fanout(
    k: usize,
    payload_bytes: usize,
    proc_ns: u64,
    prof: NetProfile,
    rng: &mut Rng,
) -> (r: u64)
    requires
        payload_bytes + prof.overhead_bytes <= usize::MAX,
    ensures
        (r as int, final(rng)@) == fanout_from(
            old(rng)@,
            k as int,
            payload_bytes as int,
            proc_ns as int,
            prof,
        ),
{
    if k == 0 {
        return 0;
    }
    let tx = tx_time_ns(payload_bytes + prof.overhead_bytes, prof.bw_bps);
    let d = draw(rng, k as u128, prof.jitter_ns);
    let ghost g = signed_ints(d@);
    let mut done: u64 = 0;
    let mut uplink: u64 = 0;
    let mut i: usize = 0;
    while i < k
        invariant
            i <= k,
            g == signed_ints(d@),
            d@.len() == k,
            uplink == clamp(i * tx),
            done == fanout_done(i as int, tx as int, proc_ns as int, prof.one_way_ns as int, g),
        decreases k - i,
    {
        proof {
            lemma_uplink(i as int, tx as int);
            assert(g[i as int] == d@[i as int]);
        }
        uplink = uplink.saturating_add(tx);
        let at_server = add_signed_ns(uplink.saturating_add(prof.one_way_ns), d[i]);
        let handled = at_server.saturating_add(proc_ns);
        if done < handled {
            done = handled;
        }
        i = i + 1;
    }
    done
}

/// The time until `wait_for` of `total` servers have answered. The deviations alternate
/// between requests and responses.
pub open spec fn quorum_time(
    total: int,
    wait_for: int,
    req: int,
    resp: int,
    prof: NetProfile,
    d: Seq<int>,
) -> int {
    let tx_req = tx_time(req + prof.overhead_bytes, prof.bw_bps as int);
    let tx_resp = tx_time(resp + prof.overhead_bytes, prof.bw_bps as int);
    let arrivals = Seq::new(
        total as nat,
        |i: int|
            response(i, tx_req, tx_resp, 0, prof.one_way_ns as int, d[2 * i], d[2 * i + 1]),
    );
    received(in_order(arrivals), tx_resp, wait_for)
}

/// The time until `wait_for` of `total` servers have answered, and the place of the
/// generator after it.
pub open spec fn quorum_from(
    st: RngState,
    total: int,
    wait_for: int,
    req: int,
    resp: int,
    prof: NetProfile,
) -> (int, RngState) {
    if total == 0 || wait_for == 0 {
        (0, st)
    } else {
        let j = prof.jitter_ns as int;
        (
            quorum_time(total, wait_for, req, resp, prof, deviations(st, 2 * total, j)),
            drawn(st, 2 * total, j),
        )
    }
}

/// Simulates a phase in which all of `total` servers are asked and `wait_for` answers are
/// awaited.
pub fn simulate_parallel_wait_k(
    total: usize,
    wait_for: usize,
    req_payload_bytes: usize,
    resp_payload_bytes: usize,
    prof: NetProfile,
    rng: &mut Rng,
) -> (r: u64)
    requires
        total == 0 || wait_for <= total,
        req_payload_bytes + prof.overhead_bytes <= usize::MAX,
        resp_payload_bytes + prof.overhead_bytes <= usize::MAX,
    ensures
        (r as int, final(rng)@) == quorum_from(
            old(rng)@,
            total as int,
            wait_for as int,
            req_payload_bytes as int,
            resp_payload_bytes as int,
            prof,
        ),
{
    if total == 0 || wait_for == 0 {
        return 0;
    }
    let tx_req = tx_time_ns(req_payload_bytes + prof.overhead_bytes, prof.bw_bps);
    let tx_resp = tx_time_ns(resp_payload_bytes + prof.overhead_bytes, prof.bw_bps);
    let d = draw(rng, 2 * (total as u128), prof.jitter_ns);
    let ghost g = signed_ints(d@);
    let mut arrivals: Vec<u64> = Vec::new();
    let mut uplink: u64 = 0;
    let mut i: usize = 0;
    while i < total
        invariant
            i <= total,
            g == signed_ints(d@),
            d@.len() == 2 * total <= usize::MAX,
            arrivals@.len() == i,
            uplink == clamp(i * tx_req),
            forall|m: int|
                0 <= m < i ==> #[trigger] arrivals@[m] == response(
                    m,
                    tx_req as int,
                    tx_resp as int,
                    0,
                    prof.one_way_ns as int,
                    g[2 * m],
                    g[2 * m + 1],
                ),
        decreases total - i,
    {
        proof {
            lemma_uplink(i as int, tx_req as int);
            assert(g[2 * i] == d@[2 * i]);
            assert(g[2 * i + 1] == d@[2 * i + 1]);
        }
        uplink = uplink.saturating_add(tx_req);
        let at_server = add_signed_ns(uplink.saturating_add(prof.one_way_ns), d[2 * i]);
        arrivals.push(
            add_signed_ns(
                at_server.saturating_add(tx_resp).saturating_add(prof.one_way_ns),
                d[2 * i + 1],
            ),
        );
        i = i + 1;
    }
    assert(short_ints(arrivals@) =~= Seq::new(
        total as nat,
        |i: int|
            response(
                i,
                tx_req as int,
                tx_resp as int,
                0,
                prof.one_way_ns as int,
                g[2 * i],
                g[2 * i + 1],
            ),
    ));
    let sorted = sort_short(&arrivals);
    receive(&sorted, tx_resp, wait_for)
}

/// Simulates a phase in which all of `k` servers are asked and all answers are awaited.
pub fn simulate_parallel_all(
    k: usize,
    req_payload_bytes: usize,
    resp_payload_bytes: usize,
    prof: NetProfile,
    rng: &mut Rng,
) -> (r: u64)
    requires
        req_payload_bytes + prof.overhead_bytes <= usize::MAX,
        resp_payload_bytes + prof.overhead_bytes <= usize::MAX,
    ensures
        (r as int, final(rng)@) == quorum_from(
            old(rng)@,
            k as int,
            k as int,
            req_payload_bytes as int,
            resp_payload_bytes as int,
            prof,
        ),
{
    simulate_parallel_wait_k(k, k, req_payload_bytes, resp_payload_bytes, prof, rng)
}

/// Simulates a request to one server and its answer.
pub fn single_round(
    req_payload_bytes: usize,
    resp_payload_bytes: usize,
    prof: NetProfile,
    rng: &mut Rng,
) -> (r: u64)
    requires
        req_payload_bytes + prof.overhead_bytes <= usize::MAX,
        resp_payload_bytes + prof.overhead_bytes <= usize::MAX,
    ensures
        (r as int, final(rng)@) == quorum_from(
            old(rng)@,
            1,
            1,
            req_payload_bytes as int,
            resp_payload_bytes as int,
            prof,
        ),
{
    simulate_parallel_all(1, req_payload_bytes, resp_payload_bytes, prof, rng)
}

/// To await a larger quorum of the same servers takes no less time.
pub proof fn larger_quorums_take_longer(
    total: int,
    few: int,
    many: int,
    req: int,
    resp: int,
    prof: NetProfile,
    d: Seq<int>,
)
    requires
        0 <= few <= many <= total,
        0 <= req,
        0 <= resp,
    ensures
        quorum_time(total, few, req, resp, prof, d) <= quorum_time(
            total,
            many,
            req,
            resp,
            prof,
            d,
        ),
{
    let tx_req = tx_time(req + prof.overhead_bytes, prof.bw_bps as int);
    let tx_resp = tx_time(resp + prof.overhead_bytes, prof.bw_bps as int);
    let arrivals = Seq::new(
        total as nat,
        |i: int|
            response(i, tx_req, tx_resp, 0, prof.one_way_ns as int, d[2 * i], d[2 * i + 1]),
    );
    waiting_for_more_takes_longer(in_order(arrivals), tx_resp, few, many);
}

} // verus!
