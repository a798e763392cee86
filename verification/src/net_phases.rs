//! The exchanges of each protocol phase over a simulated network.
use vstd::prelude::*;

use crate::aead::{NONCE_LEN, TAG_LEN};
use crate::augsso;
use crate::augsso_update::{UPDATE_CTCH_PT_LEN, UPDATE_PKE_PT_LEN};
use crate::crypto_augsso::{PKE_EPHEMERAL_PK_LEN, PKE_PK_LEN};
use crate::crypto_pastau::TTG_TOKEN_LEN;
use crate::netsim::{
    add_signed_ns, clamp, fanout_from, larger, phase_from, quorum_from, received, signed_ints,
    simulate_one_way_fanout, simulate_parallel_phase, simulate_parallel_wait_k, NetProfile,
};
use crate::pastau;
use crate::provider::{
    MSG_CIPHERID_REQ_BYTES, MSG_CIPHERID_RESP_BYTES, MSG_CIPHERSP_REQ_BYTES,
    MSG_CIPHERSP_RESP_BYTES, MSG_CIPHERSP_WRITE_REQ_BYTES, MSG_LS_REGISTER_REQ_BYTES,
    MSG_LS_UPDATE_REQ_BYTES, MSG_MASTER_WRITE_REQ_BYTES, MSG_STATUS_BYTES, MSG_TOPRF_REQ_BYTES,
    MSG_TOPRF_RESP_BYTES, MSG_UID_BYTES,
};
use crate::quorum::{quorum, quorum_size, valid_threshold};
use crate::rng::{Rng, RngState};
use crate::stats::{in_order, short_ints, sort_short};

verus! {

/// The length of a scalar.
pub const SCALAR_BYTES: usize = 32;

/// What PAS-TA-U sends to a server to authenticate.
pub const PASTAU_AUTH_REQ_BYTES: usize = pastau::UID_LEN + pastau::X_LEN + pastau::TOP_REQ_LEN;

/// What a PAS-TA-U server answers.
pub const PASTAU_AUTH_RESP_BYTES: usize = pastau::TOP_PARTIAL_LEN + (NONCE_LEN + TTG_TOKEN_LEN
    + TAG_LEN);

/// What a PAS-TA-U client sends to the identity provider to register.
pub const REG_U_TO_IP_BYTES: usize = pastau::UID_LEN + pastau::TOP_REQ_LEN;

/// What the identity provider answers.
pub const REG_IP_TO_U_BYTES: usize = pastau::TOP_REQ_LEN;

/// What the identity provider sends to each server.
pub const REG_IP_TO_SERVER_BYTES: usize = pastau::UID_LEN + SCALAR_BYTES;

/// What a PAS-TA-U client sends to each server to register.
pub const REG_U_TO_SERVER_BYTES: usize = pastau::UID_LEN + 32;

/// The length of a request for a token on the updates of `nsp` servers.
pub fn update_token_req_bytes(nsp: usize) -> (r: usize)
    requires
        nsp * pastau::UPDATE_BLOB_LEN + pastau::UID_LEN + pastau::TOP_REQ_LEN <= usize::MAX,
    ensures
        r == pastau::UID_LEN + nsp * pastau::UPDATE_BLOB_LEN + pastau::TOP_REQ_LEN,
{
    pastau::UID_LEN + nsp * pastau::UPDATE_BLOB_LEN + pastau::TOP_REQ_LEN
}

/// The length of the updates of `nsp` servers with their token.
pub fn update_push_bytes(nsp: usize) -> (r: usize)
    requires
        nsp * pastau::UPDATE_BLOB_LEN + pastau::UID_LEN + TTG_TOKEN_LEN <= usize::MAX,
    ensures
        r == nsp * pastau::UPDATE_BLOB_LEN + pastau::UID_LEN + TTG_TOKEN_LEN,
{
    nsp * pastau::UPDATE_BLOB_LEN + pastau::UID_LEN + TTG_TOKEN_LEN
}

/// The network time of a PAS-TA-U registration and the place of the generator after it.
pub open spec fn reg_network(st: RngState, nsp: int, store_proc: int, prof: NetProfile) -> (
    int,
    RngState,
) {
    let a = phase_from(st, 1, REG_U_TO_IP_BYTES as int, REG_IP_TO_U_BYTES as int, 0, prof);
    let b = fanout_from(a.1, nsp, REG_IP_TO_SERVER_BYTES as int, 0, prof);
    let c = fanout_from(b.1, nsp, REG_U_TO_SERVER_BYTES as int, store_proc, prof);
    (clamp(clamp(a.0 + b.0) + c.0), c.1)
}

/// Simulates the network of a PAS-TA-U registration.
pub fn simulate_reg_network(nsp: usize, store_proc_ns: u64, prof: NetProfile, rng: &mut Rng) -> (r:
    u64)
    requires
        prof.overhead_bytes + 64 <= usize::MAX,
    ensures
        (r as int, final(rng)@) == reg_network(
            old(rng)@,
            nsp as int,
            store_proc_ns as int,
            prof,
        ),
{
    let a = simulate_parallel_phase(1, REG_U_TO_IP_BYTES, REG_IP_TO_U_BYTES, 0, prof, rng);
    let b = simulate_one_way_fanout(nsp, REG_IP_TO_SERVER_BYTES, 0, prof, rng);
    let c = simulate_one_way_fanout(nsp, REG_U_TO_SERVER_BYTES, store_proc_ns, prof, rng);
    a.saturating_add(b).saturating_add(c)
}

/// The network time of a PAS-TA-U authentication and the place of the generator after it.
pub open spec fn auth_network(st: RngState, tsp: int, proc: int, prof: NetProfile) -> (
    int,
    RngState,
) {
    phase_from(
        st,
        tsp,
        PASTAU_AUTH_REQ_BYTES as int,
        PASTAU_AUTH_RESP_BYTES as int,
        proc,
        prof,
    )
}

/// Simulates the network of a PAS-TA-U authentication.
pub fn simulate_auth_network(
    tsp: usize,
    respond_proc_ns: u64,
    prof: NetProfile,
    rng: &mut Rng,
) -> (r: u64)
    requires
        prof.overhead_bytes + 120 <= usize::MAX,
    ensures
        (r as int, final(rng)@) == auth_network(
            old(rng)@,
            tsp as int,
            respond_proc_ns as int,
            prof,
        ),
{
    simulate_parallel_phase(
        tsp,
        PASTAU_AUTH_REQ_BYTES,
        PASTAU_AUTH_RESP_BYTES,
        respond_proc_ns,
        prof,
        rng,
    )
}

/// The network time of a PAS-TA-U password update and the place of the generator after it:
/// an authentication with the old and with the new password, a token on the updates, and
/// the updates themselves.
pub open spec fn update_network(
    st: RngState,
    nsp: int,
    tsp: int,
    auth_proc: int,
    update_proc: int,
    handle_proc: int,
    prof: NetProfile,
) -> (int, RngState) {
    let a = auth_network(st, tsp, auth_proc, prof);
    let b = auth_network(a.1, tsp, auth_proc, prof);
    let c = phase_from(
        b.1,
        tsp,
        pastau::UID_LEN + nsp * pastau::UPDATE_BLOB_LEN + pastau::TOP_REQ_LEN,
        PASTAU_AUTH_RESP_BYTES as int,
        update_proc,
        prof,
    );
    let d = fanout_from(
        c.1,
        nsp,
        nsp * pastau::UPDATE_BLOB_LEN + pastau::UID_LEN + TTG_TOKEN_LEN,
        handle_proc,
        prof,
    );
    (clamp(clamp(clamp(a.0 + b.0) + c.0) + d.0), d.1)
}

/// Simulates the network of a PAS-TA-U password update.
pub fn simulate_update_network(
    nsp: usize,
    tsp: usize,
    auth_respond_proc_ns: u64,
    update_respond_proc_ns: u64,
    update_handle_proc_ns: u64,
    prof: NetProfile,
    rng: &mut Rng,
) -> (r: u64)
    requires
        nsp * pastau::UPDATE_BLOB_LEN + 120 + prof.overhead_bytes <= usize::MAX,
    ensures
        (r as int, final(rng)@) == update_network(
            old(rng)@,
            nsp as int,
            tsp as int,
            auth_respond_proc_ns as int,
            update_respond_proc_ns as int,
            update_handle_proc_ns as int,
            prof,
        ),
{
    assert(nsp * pastau::UPDATE_BLOB_LEN >= 0) by (nonlinear_arith);
    let a = simulate_auth_network(tsp, auth_respond_proc_ns, prof, rng);
    let b = simulate_auth_network(tsp, auth_respond_proc_ns, prof, rng);
    let c = simulate_parallel_phase(
        tsp,
        update_token_req_bytes(nsp),
        PASTAU_AUTH_RESP_BYTES,
        update_respond_proc_ns,
        prof,
        rng,
    );
    let d = simulate_one_way_fanout(
        nsp,
        update_push_bytes(nsp),
        update_handle_proc_ns,
        prof,
        rng,
    );
    a.saturating_add(b).saturating_add(c).saturating_add(d)
}

/// A phase of the quorum scheme.
#[derive(Clone, Copy, Debug, PartialEq, Eq, Structural)]
pub enum Op {
    Reg,
    SecUpd,
    PwdUpd,
}

/// A request to `total` providers of which `wait_for` answers are awaited.
#[derive(Clone, Copy, Debug, PartialEq, Eq, Structural)]
pub struct Round {
    pub total: usize,
    pub wait_for: usize,
    pub req: usize,
    pub resp: usize,
}

/// A request to one provider.
pub open spec fn to_one(req: usize, resp: usize) -> Round {
    Round { total: 1, wait_for: 1, req, resp }
}

/// A request to `k` providers that all answer.
pub open spec fn to_all(k: usize, req: usize, resp: usize) -> Round {
    Round { total: k, wait_for: k, req, resp }
}

/// The rounds of a phase: the user is announced, the password is turned into a key, the
/// master state is read, and then what the phase is for.
pub open spec fn rounds(op: Op, nsp: usize, tsp: usize, unavailable: usize) -> Seq<Round> {
    let qsp = quorum(nsp as nat, tsp as nat) as usize;
    let online: usize = if nsp >= unavailable {
        (nsp - unavailable) as usize
    } else {
        0
    };
    let start = seq![
        to_one(MSG_UID_BYTES, MSG_STATUS_BYTES),
        to_all(tsp, MSG_TOPRF_REQ_BYTES, MSG_TOPRF_RESP_BYTES),
        to_one(MSG_CIPHERID_REQ_BYTES, MSG_CIPHERID_RESP_BYTES),
    ];
    let write_csp = Round {
        total: online,
        wait_for: qsp,
        req: MSG_CIPHERSP_WRITE_REQ_BYTES,
        resp: MSG_STATUS_BYTES,
    };
    let write_master = Round {
        total: online,
        wait_for: qsp,
        req: MSG_MASTER_WRITE_REQ_BYTES,
        resp: MSG_STATUS_BYTES,
    };
    match op {
        Op::Reg => start + seq![
            to_one(MSG_CIPHERSP_WRITE_REQ_BYTES, MSG_STATUS_BYTES),
            write_csp,
            to_one(MSG_LS_REGISTER_REQ_BYTES, MSG_STATUS_BYTES),
        ],
        Op::SecUpd => start + seq![
            to_all(tsp, MSG_CIPHERSP_REQ_BYTES, MSG_CIPHERSP_RESP_BYTES),
            to_one(MSG_CIPHERSP_WRITE_REQ_BYTES, MSG_STATUS_BYTES),
            write_csp,
            to_one(MSG_LS_UPDATE_REQ_BYTES, MSG_STATUS_BYTES),
        ],
        Op::PwdUpd => start + seq![
            to_all(tsp, MSG_TOPRF_REQ_BYTES, MSG_TOPRF_RESP_BYTES),
            to_one(MSG_MASTER_WRITE_REQ_BYTES, MSG_STATUS_BYTES),
            write_master,
        ],
    }
}

/// The time of the first `k` rounds, one after the other, and the place of the generator
/// after them.
pub open spec fn rounds_from(st: RngState, v: Seq<Round>, k: int, prof: NetProfile) -> (
    int,
    RngState,
)
    decreases k,
{
    if k <= 0 {
        (0, st)
    } else {
        let (t, mid) = rounds_from(st, v, k - 1, prof);
        let r = v[k - 1];
        let next = quorum_from(
            mid,
            r.total as int,
            r.wait_for as int,
            r.req as int,
            r.resp as int,
            prof,
        );
        (clamp(t + next.0), next.1)
    }
}

fn make_rounds(op: Op, nsp: usize, tsp: usize, unavailable: usize) -> (r: Vec<Round>)
    requires
        valid_threshold(nsp as nat, tsp as nat),
        nsp + tsp < usize::MAX,
    ensures
        r@ == rounds(op, nsp, tsp, unavailable),
{
    let qsp = quorum_size(nsp, tsp);
    let online: usize = if nsp >= unavailable {
        nsp - unavailable
    } else {
        0
    };
    let mut v: Vec<Round> = Vec::new();
    v.push(Round { total: 1, wait_for: 1, req: MSG_UID_BYTES, resp: MSG_STATUS_BYTES });
    v.push(
        Round { total: tsp, wait_for: tsp, req: MSG_TOPRF_REQ_BYTES, resp: MSG_TOPRF_RESP_BYTES },
    );
    v.push(
        Round { total: 1, wait_for: 1, req: MSG_CIPHERID_REQ_BYTES, resp: MSG_CIPHERID_RESP_BYTES },
    );
    let write_csp = Round {
        total: online,
        wait_for: qsp,
        req: MSG_CIPHERSP_WRITE_REQ_BYTES,
        resp: MSG_STATUS_BYTES,
    };
    let first_csp = Round {
        total: 1,
        wait_for: 1,
        req: MSG_CIPHERSP_WRITE_REQ_BYTES,
        resp: MSG_STATUS_BYTES,
    };
    match op {
        Op::Reg => {
            v.push(first_csp);
            v.push(write_csp);
            v.push(
                Round {
                    total: 1,
                    wait_for: 1,
                    req: MSG_LS_REGISTER_REQ_BYTES,
                    resp: MSG_STATUS_BYTES,
                },
            );
        },
        Op::SecUpd => {
            v.push(
                Round {
                    total: tsp,
                    wait_for: tsp,
                    req: MSG_CIPHERSP_REQ_BYTES,
                    resp: MSG_CIPHERSP_RESP_BYTES,
                },
            );
            v.push(first_csp);
            v.push(write_csp);
            v.push(
                Round {
                    total: 1,
                    wait_for: 1,
                    req: MSG_LS_UPDATE_REQ_BYTES,
                    resp: MSG_STATUS_BYTES,
                },
            );
        },
        Op::PwdUpd => {
            v.push(
                Round {
                    total: tsp,
                    wait_for: tsp,
                    req: MSG_TOPRF_REQ_BYTES,
                    resp: MSG_TOPRF_RESP_BYTES,
                },
            );
            v.push(
                Round {
                    total: 1,
                    wait_for: 1,
                    req: MSG_MASTER_WRITE_REQ_BYTES,
                    resp: MSG_STATUS_BYTES,
                },
            );
            v.push(
                Round {
                    total: online,
                    wait_for: qsp,
                    req: MSG_MASTER_WRITE_REQ_BYTES,
                    resp: MSG_STATUS_BYTES,
                },
            );
        },
    }
    assert(v@ =~= rounds(op, nsp, tsp, unavailable));
    v
}

/// Simulates the network of a phase of the quorum scheme.
pub fn net_for_phase(
    op: Op,
    nsp: usize,
    tsp: usize,
    unavailable: usize,
    prof: NetProfile,
    rng: &mut Rng,
) -> (r: u64)
    requires
        valid_threshold(nsp as nat, tsp as nat),
        nsp + tsp < usize::MAX,
        nsp <= unavailable || quorum(nsp as nat, tsp as nat) <= nsp - unavailable,
        prof.overhead_bytes + 300 <= usize::MAX,
    ensures
        ({
            let v = rounds(op, nsp, tsp, unavailable);
            (r as int, final(rng)@) == rounds_from(old(rng)@, v, v.len() as int, prof)
        }),
{
    let ghost st = rng@;
    let v = make_rounds(op, nsp, tsp, unavailable);
    let mut total: u64 = 0;
    let mut k: usize = 0;
    while k < v.len()
        invariant
            k <= v@.len(),
            valid_threshold(nsp as nat, tsp as nat),
            nsp + tsp < usize::MAX,
            nsp <= unavailable || quorum(nsp as nat, tsp as nat) <= nsp - unavailable,
            prof.overhead_bytes + 300 <= usize::MAX,
            v@ == rounds(op, nsp, tsp, unavailable),
            (total as int, rng@) == rounds_from(st, v@, k as int, prof),
        decreases v@.len() - k,
    {
        let r = v[k];
        let t = simulate_parallel_wait_k(r.total, r.wait_for, r.req, r.resp, prof, rng);
        total = total.saturating_add(t);
        k = k + 1;
    }
    total
}

/// What AugSSO sends to a server to authenticate.
pub const AUTH_REQ1_BYTES_PER_SERVER: usize = augsso::PLD_LEN + augsso::BPW_LEN;

/// What an AugSSO server answers.
pub const AUTH_RESP1_BYTES_PER_SERVER: usize = augsso::SIGMA_LEN + augsso::CTRES_LEN;

/// What AugSSO sends to a server to get a token share.
pub const AUTH_REQ2_BYTES_PER_SERVER: usize = augsso::CTCH_LEN;

/// What an AugSSO server answers to that.
pub const AUTH_RESP2_BYTES_PER_SERVER: usize = augsso::CTTKN_LEN;

/// What AugSSO sends to a server to register.
pub const REG_REQ_BYTES_PER_SERVER: usize = augsso::UID_LEN + 32 + PKE_PK_LEN;

/// A registration is not answered.
pub const REG_RESP_BYTES_PER_SERVER: usize = 0;

/// What AugSSO sends to a server to change the password.
pub const UPDATE_REQ1_BYTES_PER_SERVER: usize = augsso::UID_LEN + 2 * augsso::BPW_LEN;

/// What an AugSSO server answers to that.
pub const UPDATE_RESP1_BYTES_PER_SERVER: usize = augsso::SIGMA_LEN + PKE_EPHEMERAL_PK_LEN
    + NONCE_LEN + UPDATE_PKE_PT_LEN + TAG_LEN;

/// What AugSSO sends to a server with its new key.
pub const UPDATE_REQ2_BYTES_PER_SERVER: usize = NONCE_LEN + UPDATE_CTCH_PT_LEN + TAG_LEN;

/// What an AugSSO server answers to that.
pub const UPDATE_RESP2_BYTES_PER_SERVER: usize = augsso::SIGMA_LEN;

/// How many nanoseconds it takes to send bytes, rounded up. The number of bits times a
/// billion is capped before it is divided by the bandwidth.
pub open spec fn bounded_tx_time(bytes: int, bw_bps: int) -> int {
    (clamp(bytes * 8 * 1_000_000_000) + bw_bps - 1) / bw_bps
}

/// A network on which the time to send bytes can be counted.
pub open spec fn countable(bytes: int, bw_bps: int) -> bool {
    &&& bw_bps > 0
    &&& bytes * 8 <= u64::MAX
    &&& clamp(bytes * 8 * 1_000_000_000) + bw_bps <= u64::MAX
}

/// How many nanoseconds it takes to send bytes.
pub fn bounded_tx_time_ns(bytes: usize, bw_bps: u64) -> (r: u64)
    requires
        countable(bytes as int, bw_bps as int),
    ensures
        r == bounded_tx_time(bytes as int, bw_bps as int),
{
    let product: u128 = bytes as u128 * 8 * 1_000_000_000;
    let num: u64 = if product > u64::MAX as u128 {
        u64::MAX
    } else {
        product as u64
    };
    (num + bw_bps - 1) / bw_bps
}

/// When the last of the first `n` answers has been received. Each leaves its server at its
/// time in order and is on its way with its own deviation.
pub open spec fn answers_received(
    ready: Seq<int>,
    tx: int,
    one_way: int,
    d: Seq<int>,
    n: int,
) -> int
    decreases n,
{
    if n <= 0 {
        0
    } else {
        clamp(
            larger(
                answers_received(ready, tx, one_way, d, n - 1),
                clamp(clamp(ready[n - 1] + one_way) + d[n - 1]),
            ) + tx,
        )
    }
}

/// The time of an AugSSO phase with `k` servers, with given deviations for the requests and
/// then for the answers in the order in which they leave.
pub open spec fn augsso_phase(
    k: int,
    req: int,
    resp: int,
    proc: int,
    prof: NetProfile,
    d: Seq<int>,
) -> int {
    let tx_req = bounded_tx_time(req + prof.overhead_bytes, prof.bw_bps as int);
    let tx_resp = bounded_tx_time(resp + prof.overhead_bytes, prof.bw_bps as int);
    let one_way = prof.one_way_ns as int;
    let ready = Seq::new(
        k as nat,
        |i: int| clamp(clamp(clamp((i + 1) * tx_req + one_way) + d[i]) + proc),
    );
    answers_received(in_order(ready), tx_resp, one_way, d.subrange(k, 2 * k), k)
}

/// The times of an AugSSO phase with `k` servers can be counted. Without servers there is
/// nothing to count.
pub open spec fn phase_countable(k: int, req: int, resp: int, prof: NetProfile) -> bool {
    k == 0 || {
        &&& req + prof.overhead_bytes <= usize::MAX
        &&& resp + prof.overhead_bytes <= usize::MAX
        &&& countable(req + prof.overhead_bytes, prof.bw_bps as int)
        &&& countable(resp + prof.overhead_bytes, prof.bw_bps as int)
        &&& k * bounded_tx_time(req + prof.overhead_bytes, prof.bw_bps as int) <= u64::MAX
    }
}

fn is_countable(bytes: u128, bw_bps: u64) -> (r: bool)
    requires
        bytes <= usize::MAX,
    ensures
        r == countable(bytes as int, bw_bps as int),
{
    let product: u128 = bytes * 8 * 1_000_000_000;
    let num: u128 = if product > u64::MAX as u128 {
        u64::MAX as u128
    } else {
        product
    };
    bw_bps > 0 && bytes * 8 <= u64::MAX as u128 && num + bw_bps as u128 <= u64::MAX as u128
}

/// Whether the times of an AugSSO phase with `k` servers can be counted.
pub fn is_phase_countable(k: usize, req: usize, resp: usize, prof: NetProfile) -> (r: bool)
    ensures
        r == phase_countable(k as int, req as int, resp as int, prof),
{
    if k == 0 {
        return true;
    }
    let a: u128 = req as u128 + prof.overhead_bytes as u128;
    let b: u128 = resp as u128 + prof.overhead_bytes as u128;
    if a > usize::MAX as u128 || b > usize::MAX as u128 || !is_countable(a, prof.bw_bps)
        || !is_countable(b, prof.bw_bps) {
        return false;
    }
    let tx = bounded_tx_time_ns(a as usize, prof.bw_bps);
    assert(0 <= k * tx <= u64::MAX * u64::MAX) by (nonlinear_arith)
        requires
            0 <= k <= u64::MAX,
            0 <= tx <= u64::MAX,
    ;
    k as u128 * tx as u128 <= u64::MAX as u128
}

/// Simulates an AugSSO phase with `k` servers. The deviations from the latency are given.
pub fn simulate_augsso_phase(
    k: usize,
    req_bytes_per_server: usize,
    resp_bytes_per_server: usize,
    server_proc_ns_p50: u64,
    prof: NetProfile,
    jitter: &Vec<i64>,
) -> (r: u64)
    requires
        jitter@.len() == 2 * k,
        phase_countable(
            k as int,
            req_bytes_per_server as int,
            resp_bytes_per_server as int,
            prof,
        ),
    ensures
        r == augsso_phase(
            k as int,
            req_bytes_per_server as int,
            resp_bytes_per_server as int,
            server_proc_ns_p50 as int,
            prof,
            signed_ints(jitter@),
        ),
{
    if k == 0 {
        return 0;
    }
    let tx_req = bounded_tx_time_ns(req_bytes_per_server + prof.overhead_bytes, prof.bw_bps);
    let tx_resp = bounded_tx_time_ns(resp_bytes_per_server + prof.overhead_bytes, prof.bw_bps);
    let count: usize = jitter.len();
    let ghost g = signed_ints(jitter@);
    let ghost one_way = prof.one_way_ns as int;
    let mut ready: Vec<u64> = Vec::new();
    let mut i: usize = 0;
    while i < k
        invariant
            i <= k,
            g == signed_ints(jitter@),
            one_way == prof.one_way_ns,
            jitter@.len() == 2 * k,
            k * tx_req <= u64::MAX,
            ready@.len() == i,
            forall|m: int|
                0 <= m < i ==> #[trigger] ready@[m] == clamp(
                    clamp(clamp((m + 1) * tx_req + one_way) + g[m]) + server_proc_ns_p50,
                ),
        decreases k - i,
    {
        assert((i + 1) * tx_req <= k * tx_req && (i + 1) * tx_req >= 0) by (nonlinear_arith)
            requires
                i + 1 <= k,
                tx_req >= 0,
                i >= 0,
        ;
        assert(g[i as int] == jitter@[i as int]);
        let send_done: u64 = ((i as u128 + 1) * tx_req as u128) as u64;
        let arrive = add_signed_ns(send_done.saturating_add(prof.one_way_ns), jitter[i]);
        ready.push(arrive.saturating_add(server_proc_ns_p50));
        i = i + 1;
    }
    assert(short_ints(ready@) =~= Seq::new(
        k as nat,
        |i: int| clamp(clamp(clamp((i + 1) * tx_req + one_way) + g[i]) + server_proc_ns_p50),
    ));
    let sorted = sort_short(&ready);
    let ghost s = in_order(short_ints(ready@));
    let ghost e = g.subrange(k as int, 2 * k);
    let mut received: u64 = 0;
    let mut n: usize = 0;
    while n < k
        invariant
            n <= k,
            g == signed_ints(jitter@),
            e == g.subrange(k as int, 2 * k),
            one_way == prof.one_way_ns,
            jitter@.len() == 2 * k,
            count == jitter@.len(),
            sorted@.len() == k,
            s == short_ints(sorted@),
            received == answers_received(s, tx_resp as int, one_way, e, n as int),
        decreases k - n,
    {
        assert(s[n as int] == sorted@[n as int]);
        assert(e[n as int] == jitter@[k + n]);
        assert(k + n < count);
        let first_bit = add_signed_ns(sorted[n].saturating_add(prof.one_way_ns), jitter[k + n]);
        if received < first_bit {
            received = first_bit;
        }
        received = received.saturating_add(tx_resp);
        n = n + 1;
    }
    received
}

/// Simulates the network of an AugSSO registration: one round with all servers.
pub fn augsso_reg_network(nsp: usize, proc: u64, prof: NetProfile, jitter: &Vec<i64>) -> (r: u128)
    requires
        jitter@.len() == 2 * nsp,
        phase_countable(
            nsp as int,
            REG_REQ_BYTES_PER_SERVER as int,
            REG_RESP_BYTES_PER_SERVER as int,
            prof,
        ),
    ensures
        r == augsso_phase(
            nsp as int,
            REG_REQ_BYTES_PER_SERVER as int,
            REG_RESP_BYTES_PER_SERVER as int,
            proc as int,
            prof,
            signed_ints(jitter@),
        ),
{
    simulate_augsso_phase(
        nsp,
        REG_REQ_BYTES_PER_SERVER,
        REG_RESP_BYTES_PER_SERVER,
        proc,
        prof,
        jitter,
    ) as u128
}

/// Simulates the network of an AugSSO authentication: two rounds with a threshold of servers,
/// one after the other.
pub fn augsso_auth_network(
    tsp: usize,
    proc1: u64,
    proc2: u64,
    prof: NetProfile,
    jitter1: &Vec<i64>,
    jitter2: &Vec<i64>,
) -> (r: u128)
    requires
        jitter1@.len() == 2 * tsp,
        jitter2@.len() == 2 * tsp,
        phase_countable(
            tsp as int,
            AUTH_REQ1_BYTES_PER_SERVER as int,
            AUTH_RESP1_BYTES_PER_SERVER as int,
            prof,
        ),
        phase_countable(
            tsp as int,
            AUTH_REQ2_BYTES_PER_SERVER as int,
            AUTH_RESP2_BYTES_PER_SERVER as int,
            prof,
        ),
    ensures
        r == augsso_phase(
            tsp as int,
            AUTH_REQ1_BYTES_PER_SERVER as int,
            AUTH_RESP1_BYTES_PER_SERVER as int,
            proc1 as int,
            prof,
            signed_ints(jitter1@),
        ) + augsso_phase(
            tsp as int,
            AUTH_REQ2_BYTES_PER_SERVER as int,
            AUTH_RESP2_BYTES_PER_SERVER as int,
            proc2 as int,
            prof,
            signed_ints(jitter2@),
        ),
{
    let a = simulate_augsso_phase(
        tsp,
        AUTH_REQ1_BYTES_PER_SERVER,
        AUTH_RESP1_BYTES_PER_SERVER,
        proc1,
        prof,
        jitter1,
    );
    let b = simulate_augsso_phase(
        tsp,
        AUTH_REQ2_BYTES_PER_SERVER,
        AUTH_RESP2_BYTES_PER_SERVER,
        proc2,
        prof,
        jitter2,
    );
    a as u128 + b as u128
}

/// Simulates the network of an AugSSO password update: two rounds with all servers, one after
/// the other.
pub fn augsso_update_network(
    nsp: usize,
    proc1: u64,
    proc2: u64,
    prof: NetProfile,
    jitter1: &Vec<i64>,
    jitter2: &Vec<i64>,
) -> (r: u128)
    requires
        jitter1@.len() == 2 * nsp,
        jitter2@.len() == 2 * nsp,
        phase_countable(
            nsp as int,
            UPDATE_REQ1_BYTES_PER_SERVER as int,
            UPDATE_RESP1_BYTES_PER_SERVER as int,
            prof,
        ),
        phase_countable(
            nsp as int,
            UPDATE_REQ2_BYTES_PER_SERVER as int,
            UPDATE_RESP2_BYTES_PER_SERVER as int,
            prof,
        ),
    ensures
        r == augsso_phase(
            nsp as int,
            UPDATE_REQ1_BYTES_PER_SERVER as int,
            UPDATE_RESP1_BYTES_PER_SERVER as int,
            proc1 as int,
            prof,
            signed_ints(jitter1@),
        ) + augsso_phase(
            nsp as int,
            UPDATE_REQ2_BYTES_PER_SERVER as int,
            UPDATE_RESP2_BYTES_PER_SERVER as int,
            proc2 as int,
            prof,
            signed_ints(jitter2@),
        ),
{
    let a = simulate_augsso_phase(
        nsp,
        UPDATE_REQ1_BYTES_PER_SERVER,
        UPDATE_RESP1_BYTES_PER_SERVER,
        proc1,
        prof,
        jitter1,
    );
    let b = simulate_augsso_phase(
        nsp,
        UPDATE_REQ2_BYTES_PER_SERVER,
        UPDATE_RESP2_BYTES_PER_SERVER,
        proc2,
        prof,
        jitter2,
    );
    a as u128 + b as u128
}

/// The time of a server in a protocol of two rounds, from its medians in each.
pub fn both_rounds(first: u64, second: u64) -> (r: u64)
    ensures
        r == clamp(first + second),
{
    first.saturating_add(second)
}

} // verus!
