//! The simulated network.
use spa_bench::net_phases::{
    augsso_auth_network, augsso_reg_network, augsso_update_network, both_rounds,
    bounded_tx_time_ns, is_phase_countable, net_for_phase, simulate_auth_network,
    simulate_augsso_phase, simulate_reg_network, simulate_update_network, update_push_bytes,
    update_token_req_bytes, Op, AUTH_REQ1_BYTES_PER_SERVER, AUTH_REQ2_BYTES_PER_SERVER,
    AUTH_RESP1_BYTES_PER_SERVER, AUTH_RESP2_BYTES_PER_SERVER, PASTAU_AUTH_RESP_BYTES,
    REG_REQ_BYTES_PER_SERVER, REG_RESP_BYTES_PER_SERVER, UPDATE_REQ1_BYTES_PER_SERVER,
    UPDATE_REQ2_BYTES_PER_SERVER, UPDATE_RESP1_BYTES_PER_SERVER, UPDATE_RESP2_BYTES_PER_SERVER,
};
use spa_bench::netsim::{
    add_signed_ns, sample_jitter, simulate_one_way_fanout, simulate_parallel_all,
    simulate_parallel_phase, simulate_parallel_wait_k, single_round, tx_time_ns, NetProfile,
};
use spa_bench::rng::Rng;

fn quiet() -> NetProfile {
    NetProfile {
        name: "lan",
        one_way_ns: 1000,
        jitter_ns: 0,
        bw_bps: 8_000_000_000,
        overhead_bytes: 10,
    }
}

#[test]
fn transmission_takes_whole_nanoseconds() {
    assert_eq!(tx_time_ns(1, 8_000_000_000), 1);
    assert_eq!(tx_time_ns(1, 1_000_000_000), 8);
    assert_eq!(tx_time_ns(1, 3_000_000_000), 3);
    assert_eq!(tx_time_ns(5, 0), 0);
    assert_eq!(bounded_tx_time_ns(1, 3_000_000_000), 3);
    assert_eq!(bounded_tx_time_ns(1 << 31, 1_000_000), 17_179_869_184_000);
}

#[test]
fn times_stop_at_their_bounds() {
    assert_eq!(add_signed_ns(5, 3), 8);
    assert_eq!(add_signed_ns(5, -7), 0);
    assert_eq!(add_signed_ns(u64::MAX, 1), u64::MAX);
    assert_eq!(add_signed_ns(u64::MAX, i64::MIN), u64::MAX / 2);
}

#[test]
fn jitter_stays_in_its_bounds() {
    let mut rng = Rng::from_seed([1; 32]);
    for _ in 0..200 {
        let j = sample_jitter(&mut rng, 3);
        assert!((-3..=3).contains(&j));
    }
    let before = rng.place();
    assert_eq!(sample_jitter(&mut rng, 0), 0);
    assert_eq!(rng.place(), before);
    let mut a = Rng::from_seed([2; 32]);
    let mut b = Rng::from_seed([2; 32]);
    let want = (a.next_u64() as u128 % 101) as i64 - 50;
    assert_eq!(sample_jitter(&mut b, 50), want);
}

#[test]
fn one_exchange_adds_up() {
    let mut rng = Rng::from_seed([3; 32]);
    // 100 + 10 bytes at one nanosecond each, both ways, the answer twice.
    let t = simulate_parallel_phase(1, 100, 40, 7, quiet(), &mut rng);
    assert_eq!(t, 110 + 1000 + 7 + 50 + 1000 + 50);
    assert_eq!(single_round(100, 40, quiet(), &mut rng), 110 + 1000 + 50 + 1000 + 50);
    assert_eq!(simulate_parallel_phase(0, 1, 1, 1, quiet(), &mut rng), 0);
}

#[test]
fn answers_queue_at_the_client() {
    let mut rng = Rng::from_seed([4; 32]);
    let all = simulate_parallel_all(3, 0, 90, quiet(), &mut rng);
    // Requests leave after 10, 20 and 30; answers of 100 queue behind the first.
    assert_eq!(all, 10 + 1000 + 100 + 1000 + 300);
    let two = simulate_parallel_wait_k(3, 2, 0, 90, quiet(), &mut rng);
    assert_eq!(two, 10 + 1000 + 100 + 1000 + 200);
    assert!(two < all);
    assert_eq!(simulate_parallel_wait_k(3, 0, 0, 90, quiet(), &mut rng), 0);
}

#[test]
fn messages_fan_out() {
    let mut rng = Rng::from_seed([5; 32]);
    assert_eq!(simulate_one_way_fanout(4, 90, 5, quiet(), &mut rng), 400 + 1000 + 5);
    assert_eq!(simulate_one_way_fanout(0, 90, 5, quiet(), &mut rng), 0);
}

#[test]
fn pastau_phases_add_up() {
    let mut rng = Rng::from_seed([6; 32]);
    let prof = quiet();
    let reg = simulate_reg_network(2, 3, prof, &mut rng);
    assert_eq!(reg, (74 + 1000 + 42 + 1000 + 42) + (2 * 74 + 1000) + (2 * 74 + 1000 + 3));
    let auth = simulate_auth_network(1, 9, prof, &mut rng);
    assert_eq!(PASTAU_AUTH_RESP_BYTES, 120);
    assert_eq!(auth, 106 + 1000 + 9 + 130 + 1000 + 130);
    assert_eq!(update_token_req_bytes(2), 272);
    assert_eq!(update_push_bytes(2), 288);
    let update = simulate_update_network(2, 1, 9, 4, 5, prof, &mut rng);
    assert_eq!(
        update,
        2 * auth + (282 + 1000 + 4 + 130 + 1000 + 130) + (2 * 298 + 1000 + 5)
    );
}

#[test]
fn augsso_phases_add_up() {
    let prof = quiet();
    assert_eq!(AUTH_REQ1_BYTES_PER_SERVER, 112);
    assert_eq!(UPDATE_RESP1_BYTES_PER_SERVER, 232);
    let t = simulate_augsso_phase(2, 90, 40, 5, prof, &vec![0; 4]);
    assert_eq!(t, (200 + 1000 + 5) + 1000 + 50);
    let t = simulate_augsso_phase(1, 90, 40, 5, prof, &vec![-20, 30]);
    assert_eq!(t, 100 + 1000 - 20 + 5 + 1000 + 30 + 50);
    assert_eq!(simulate_augsso_phase(0, 90, 40, 5, prof, &vec![]), 0);
}

#[test]
fn quorum_phases_add_their_rounds() {
    let mut rng = Rng::from_seed([7; 32]);
    let prof = NetProfile { one_way_ns: 0, overhead_bytes: 0, ..quiet() };
    // One provider: each round takes the request and twice the answer.
    let reg = net_for_phase(Op::Reg, 1, 1, 0, prof, &mut rng);
    assert_eq!(reg, (32 + 2) + (64 + 64) + (32 + 288) + (184 + 2) * 2 + (64 + 2));
    let pwd = net_for_phase(Op::PwdUpd, 1, 1, 0, prof, &mut rng);
    assert_eq!(pwd, (32 + 2) + (64 + 64) + (32 + 288) + (64 + 64) + (248 + 2) * 2);
    let sec = net_for_phase(Op::SecUpd, 1, 1, 0, prof, &mut rng);
    assert_eq!(
        sec,
        (32 + 2) + (64 + 64) + (32 + 288) + (32 + 160) + (184 + 2) * 2 + (96 + 2)
    );
}

#[test]
fn the_same_stream_gives_the_same_times() {
    let prof = NetProfile { jitter_ns: 400, ..quiet() };
    let mut a = Rng::from_seed([8; 32]);
    let mut b = Rng::from_seed([8; 32]);
    let x = net_for_phase(Op::Reg, 5, 3, 1, prof, &mut a);
    assert_eq!(x, net_for_phase(Op::Reg, 5, 3, 1, prof, &mut b));
    assert_eq!(a.place(), b.place());
}

#[test]
fn augsso_networks_add_their_rounds() {
    let prof = quiet();
    let none = vec![0i64; 4];
    let round = |req: usize, resp: usize, proc: u64| {
        simulate_augsso_phase(2, req, resp, proc, prof, &none) as u128
    };
    assert_eq!(
        augsso_reg_network(2, 7, prof, &none),
        round(REG_REQ_BYTES_PER_SERVER, REG_RESP_BYTES_PER_SERVER, 7)
    );
    assert_eq!(
        augsso_auth_network(2, 7, 9, prof, &none, &none),
        round(AUTH_REQ1_BYTES_PER_SERVER, AUTH_RESP1_BYTES_PER_SERVER, 7)
            + round(AUTH_REQ2_BYTES_PER_SERVER, AUTH_RESP2_BYTES_PER_SERVER, 9)
    );
    assert_eq!(
        augsso_update_network(2, 7, 9, prof, &none, &none),
        round(UPDATE_REQ1_BYTES_PER_SERVER, UPDATE_RESP1_BYTES_PER_SERVER, 7)
            + round(UPDATE_REQ2_BYTES_PER_SERVER, UPDATE_RESP2_BYTES_PER_SERVER, 9)
    );
    // Two requests of 106 bytes at a byte per nanosecond, then two answers of 10 bytes.
    assert_eq!(augsso_reg_network(2, 7, prof, &none), 2 * 106 + 1000 + 7 + 1000 + 10);
    assert_eq!(augsso_reg_network(0, 7, prof, &vec![]), 0);
    assert_eq!(both_rounds(3, 4), 7);
    assert_eq!(both_rounds(u64::MAX, 4), u64::MAX);
    assert!(is_phase_countable(2, 90, 40, prof));
    assert!(is_phase_countable(0, usize::MAX, 40, prof));
    assert!(!is_phase_countable(1, usize::MAX, 40, prof));
    assert!(!is_phase_countable(usize::MAX, 90, 40, prof));
    assert!(!is_phase_countable(1, 90, 40, NetProfile { bw_bps: 0, ..prof }));
}
