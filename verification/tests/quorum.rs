//! The quorum scheme: writes, phases and recovery.
use ed25519_dalek::Signer;
use spa_bench::aead::{xchacha_encrypt_detached_with_nonce, CtBlob};
use spa_bench::net_phases::Op;
use spa_bench::provider::{
    hash_suid_shared, hash_vinfo, seed_for, uid_hash, LoginServer, PhaseError,
};
use spa_bench::quorum::{
    majority_quorum, max_executable_unavailable, max_quorum_unavailable, quorum_size,
};
use spa_bench::quorum_bench::{
    after_attempt, make_system_for_op, run_phase, stale_provider, Next, Overhead, Pending,
};
use spa_bench::ristretto::{Point, Scalar};
use spa_bench::rng::Rng;
use spa_bench::toprf::{
    hash_to_point, oprf_finalize, random_scalar, toprf_client_eval_from_partials, toprf_gen,
};
use spa_bench::field::{lagrange_coeffs_at_zero, Field};
use spa_bench::group::Group;
use spa_bench::upspa_abd::System;
use spa_bench::upspa_sp::{compress_point, UpSpaProvider, PWDUPD_MSG_BYTES};

#[test]
fn quorum_arithmetic() {
    assert_eq!(majority_quorum(5), 3);
    assert_eq!(majority_quorum(4), 3);
    assert_eq!(quorum_size(20, 11), 16);
    assert_eq!(quorum_size(1, 1), 1);
    assert_eq!(max_quorum_unavailable(20, 11), 4);
    assert_eq!(max_executable_unavailable(20, 11), 4);
}

fn system(tag: u8) -> System {
    System::new(4, 2, [tag; 32])
}

#[test]
fn a_fresh_account_has_all_providers_online() {
    let sys = system(1);
    assert_eq!(sys.qsp, 3);
    assert_eq!(sys.online_count(), 4);
    assert_eq!(sys.coordinator_index(), Some(0));
    assert!(sys.any_suid().is_none());
}

#[test]
fn registration_reaches_a_quorum() {
    let mut sys = system(2);
    sys.set_rotating_unavailable(1, 0);
    let mut rng = Rng::from_seed([2u8; 32]);
    sys.phase_registration(&mut rng).unwrap();
    assert_eq!(sys.providers.iter().filter(|p| p.csp_db.len() == 1).count(), 3);
    assert_eq!(sys.providers[0].csp_db.len(), 0);
    assert!(sys.phase_registration(&mut rng).is_err());
}

#[test]
fn too_few_providers_stop_a_phase() {
    let mut sys = system(3);
    sys.set_rotating_unavailable(2, 1);
    let mut rng = Rng::from_seed([3u8; 32]);
    let e = sys.phase_registration(&mut rng).unwrap_err();
    assert_eq!(e.message(), "not enough online providers: online=2, needed=3");
    sys.set_rotating_unavailable(4, 0);
    assert_eq!(sys.phase_registration(&mut rng).unwrap_err(), PhaseError::NoCoordinator);
    assert_eq!(PhaseError::NoCoordinator.message(), "no online coordinator available");
}

#[test]
fn errors_have_messages() {
    assert_eq!(PhaseError::MissingCipherSp.message(), "not enough ciphersp candidates");
    assert_eq!(
        PhaseError::QuorumFailed { acks: 2, qsp: 16 }.message(),
        "quorum write failed: acks=2, qsp=16"
    );
    assert_eq!(PhaseError::LoginServerRejected.message(), "login server rejected the update");
    assert_eq!(PhaseError::DecryptFailed.message(), "authenticated decryption failed");
}

#[test]
fn secrets_are_replaced_with_the_next_counter() {
    let mut sys = system(4);
    let mut rng = Rng::from_seed([4u8; 32]);
    assert_eq!(
        sys.phase_secret_update(&mut rng).unwrap_err(),
        PhaseError::MissingCipherSp
    );
    sys.force_registered_all(&mut rng).unwrap();
    let suid = sys.any_suid().unwrap();
    sys.phase_secret_update(&mut rng).unwrap();
    let counters: Vec<u64> =
        sys.providers.iter().map(|p| p.csp_db.get(&suid).unwrap().ctr).collect();
    assert_eq!(counters, vec![1, 1, 1, 0]);
}

#[test]
fn passwords_are_updated_once() {
    let mut sys = system(5);
    let mut rng = Rng::from_seed([5u8; 32]);
    sys.phase_password_update(&mut rng).unwrap();
    let counters: Vec<u64> = sys.providers.iter().map(|p| p.master.ctrid).collect();
    assert_eq!(counters, vec![1, 1, 1, 0]);
    assert_eq!(sys.phase_password_update(&mut rng).unwrap_err(), PhaseError::DecryptFailed);
}

#[test]
fn a_stale_provider_recovers_the_newest_state() {
    let mut sys = system(6);
    let mut rng = Rng::from_seed([6u8; 32]);
    sys.set_rotating_unavailable(1, 0);
    sys.phase_password_update(&mut rng).unwrap();
    assert_eq!(sys.providers[0].master.ctrid, 0);
    assert_eq!(sys.recover_master_for_provider(0).unwrap(), 3);
    assert_eq!(sys.providers[0].master.ctrid, 1);
    assert!(sys.providers[0].online);
}

#[test]
fn a_stale_provider_recovers_the_newest_secret() {
    let mut sys = system(7);
    let mut rng = Rng::from_seed([7u8; 32]);
    sys.set_rotating_unavailable(1, 3);
    let (suid, blob, ctr) = sys.make_synthetic_csp_payload(&mut rng, 0);
    let sig = sys.sign_csp_write(&suid, &blob, ctr);
    assert_eq!(sys.qwrite_csp_register(suid, blob, ctr, &sig).unwrap(), 3);
    assert!(sys.providers[3].csp_db.get(&suid).is_none());
    assert_eq!(sys.recover_csp_for_provider(3, suid).unwrap(), 3);
    assert_eq!(sys.providers[3].csp_db.get(&suid).unwrap().ctr, 0);
}

#[test]
fn forged_writes_are_refused() {
    let mut sys = system(8);
    let mut rng = Rng::from_seed([8u8; 32]);
    let (suid, blob, ctr) = sys.make_synthetic_csp_payload(&mut rng, 0);
    let mut sig = sys.sign_csp_write(&suid, &blob, ctr);
    sig[0] ^= 1;
    assert_eq!(
        sys.qwrite_csp_register(suid, blob, ctr, &sig).unwrap_err(),
        PhaseError::QuorumFailed { acks: 0, qsp: 3 }
    );
    let good = sys.sign_csp_write(&suid, &blob, ctr);
    let key = ed25519_dalek::SigningKey::from_bytes(&sys.user_ssk);
    assert_eq!(key.verifying_key().to_bytes(), sys.providers[0].svk);
    assert!(sys.qwrite_csp_register(suid, blob, ctr, &good).is_ok());
}

#[test]
fn bare_quorum_operations_succeed() {
    let mut rng = Rng::from_seed([9u8; 32]);
    assert!(system(9).quorum_overhead_csp_register(&mut rng).is_ok());
    assert!(system(10).quorum_overhead_csp_update(&mut rng).is_ok());
    assert!(system(11).quorum_overhead_master_update(&mut rng).is_ok());
}

#[test]
fn measured_phases_run() {
    for op in [Op::Reg, Op::SecUpd, Op::PwdUpd] {
        let mut sys = make_system_for_op(op, 3, 2, 5).unwrap();
        let mut rng = Rng::from_seed(seed_for(b"run", 3, 2, 5));
        assert!(run_phase(&mut sys, op, &mut rng).is_ok());
    }
}

#[test]
fn attempts_are_limited() {
    assert_eq!(after_attempt(true, 255), Next::Record);
    assert_eq!(after_attempt(false, 254), Next::Retry);
    assert_eq!(after_attempt(false, 255), Next::GiveUp);
}

#[test]
fn login_servers_hold_one_value() {
    let mut ls = LoginServer::new();
    assert!(!ls.update([1; 32], [2; 32]));
    assert!(ls.register([1; 32]));
    assert!(!ls.register([3; 32]));
    assert!(!ls.update([9; 32], [2; 32]));
    assert!(ls.update([1; 32], [2; 32]));
}

#[test]
fn identifiers_depend_on_their_parts() {
    assert_ne!(hash_suid_shared(&[1; 32], b"a"), hash_suid_shared(&[1; 32], b"b"));
    assert_ne!(hash_vinfo(&[1; 32], b"a"), hash_suid_shared(&[1; 32], b"a"));
    assert_ne!(uid_hash(b"a"), uid_hash(b"b"));
    let seed = seed_for(b"t", 1, 2, 3);
    let mut h = blake3::Hasher::new();
    h.update(b"t");
    h.update(&1u64.to_le_bytes());
    h.update(&2u64.to_le_bytes());
    h.update(&3u64.to_le_bytes());
    assert_eq!(seed, *h.finalize().as_bytes());
}

#[test]
fn any_threshold_of_partial_values_gives_the_function() {
    let mut rng = Rng::from_seed([12u8; 32]);
    let (key, shares) = toprf_gen(4, 2, &mut rng);
    let point = hash_to_point(b"pw");
    let want = oprf_finalize(b"pw", &point.scale(key));
    let rho = random_scalar(&mut rng);
    let blinded = point.scale(rho);
    for pick in [[0usize, 1], [3, 1]] {
        let ids = [shares[pick[0]].0, shares[pick[1]].0];
        let partials = [blinded.scale(shares[pick[0]].1), blinded.scale(shares[pick[1]].1)];
        let lambdas: Vec<Scalar> = lagrange_coeffs_at_zero(&ids);
        assert_eq!(toprf_client_eval_from_partials(b"pw", rho, &partials, &lambdas), want);
    }
}

#[test]
fn points_are_those_of_the_group() {
    let two = Scalar::of_u64(2);
    let point = hash_to_point(b"x");
    let bytes = point.compress();
    let dalek = curve25519_dalek::ristretto::CompressedRistretto(bytes).decompress().unwrap();
    assert_eq!((dalek + dalek).compress().to_bytes(), point.scale(two).compress());
    assert_eq!(point.plus(point).compress(), point.scale(two).compress());
    assert!(Point::decompress(&[0xff; 32]).is_none());
    assert_eq!(Point::decompress(&bytes).unwrap().compress(), bytes);
    assert_eq!(Point::identity().plus(point).compress(), bytes);
}

#[test]
fn scalars_are_those_of_the_field() {
    let a = Scalar::of_u64(7);
    let b = Scalar::of_u64(5);
    let dalek = curve25519_dalek::scalar::Scalar::from(7u64);
    let dalek_b = curve25519_dalek::scalar::Scalar::from(5u64);
    assert_eq!(a.times(b).to_bytes(), (dalek * dalek_b).to_bytes());
    assert_eq!(b.minus(a).to_bytes(), (dalek_b - dalek).to_bytes());
    assert_eq!(a.plus(b).to_bytes(), (dalek + dalek_b).to_bytes());
    assert_eq!(a.inverse().to_bytes(), dalek.invert().to_bytes());
    let wide = [0xabu8; 64];
    assert_eq!(
        Scalar::from_bytes_mod_order_wide(&wide).to_bytes(),
        curve25519_dalek::scalar::Scalar::from_bytes_mod_order_wide(&wide).to_bytes()
    );
    assert_eq!(
        Scalar::from_bytes_mod_order([0xff; 32]).to_bytes(),
        curve25519_dalek::scalar::Scalar::from_bytes_mod_order([0xff; 32]).to_bytes()
    );
}

fn blob() -> CtBlob<96> {
    xchacha_encrypt_detached_with_nonce(&[1; 32], &[], &[2; 96], &[3; 24])
}

#[test]
fn providers_take_signed_updates_in_order() {
    let key = ed25519_dalek::SigningKey::from_bytes(&[7; 32]);
    let share = Scalar::of_u64(3);
    let mut sp = UpSpaProvider::try_new(1, share, key.verifying_key().to_bytes(), blob()).unwrap();
    let mut msg = vec![0u8; PWDUPD_MSG_BYTES];
    msg[168..176].copy_from_slice(&5u64.to_le_bytes());
    msg[176..180].copy_from_slice(&1u32.to_le_bytes());
    let sig = key.sign(&msg).to_bytes();
    assert!(sp.apply_password_update(&msg, &sig));
    msg[168..176].copy_from_slice(&4u64.to_le_bytes());
    let older = key.sign(&msg).to_bytes();
    assert!(!sp.apply_password_update(&msg, &older));
    assert!(!sp.apply_password_update(&msg, &sig));
    assert!(!sp.apply_password_update(&msg[..10], &sig));
}

#[test]
fn providers_keep_login_secrets() {
    let key = ed25519_dalek::SigningKey::from_bytes(&[7; 32]);
    let share = Scalar::of_u64(3);
    let mut sp = UpSpaProvider::try_new(1, share, key.verifying_key().to_bytes(), blob()).unwrap();
    let secret = xchacha_encrypt_detached_with_nonce(&[1; 32], &[], &[4; 40], &[3; 24]);
    assert!(sp.get_ciphersp(&[1; 32]).is_none());
    sp.put_ciphersp([1; 32], secret);
    assert_eq!(sp.get_ciphersp(&[1; 32]).unwrap().ct, secret.ct);
    assert!(sp.get_ciphersp(&[2; 32]).is_none());
    let point = hash_to_point(b"pw");
    assert_eq!(
        sp.try_toprf_send_eval(&compress_point(&point)).unwrap(),
        point.scale(share).compress()
    );
    assert!(sp.try_toprf_send_eval(&[0xff; 32]).is_none());
    let mut no_point = [0u8; 32];
    no_point[0] = 2;
    assert!(UpSpaProvider::try_new(1, share, no_point, blob()).is_none());
}

#[test]
fn any_two_quorums_share_the_threshold() {
    for n in 1usize..=6 {
        for t in 1..=n {
            let q = quorum_size(n, t) as u32;
            for a in 0u32..1 << n {
                for b in 0u32..1 << n {
                    if a.count_ones() >= q && b.count_ones() >= q {
                        assert!((a & b).count_ones() as usize >= t);
                    }
                }
            }
        }
    }
}

#[test]
fn providers_take_only_newer_writes() {
    let mut sys = system(13);
    let mut rng = Rng::from_seed([13u8; 32]);
    let (suid, blob, _) = sys.make_synthetic_csp_payload(&mut rng, 0);
    let sig = |sys: &System, ctr: u64| sys.sign_csp_write(&suid, &blob, ctr);
    let (s0, s1, s2) = (sig(&sys, 0), sig(&sys, 1), sig(&sys, 2));
    let p = &mut sys.providers[0];
    assert!(!p.accept_csp_update(suid, blob, 1, &s1));
    assert!(p.accept_csp_register(suid, blob, 0, &s0));
    assert!(!p.accept_csp_register(suid, blob, 0, &s0));
    assert!(p.accept_csp_update(suid, blob, 2, &s2));
    assert!(!p.accept_csp_update(suid, blob, 1, &s1));
    assert!(!p.accept_csp_update(suid, blob, 3, &s2));
    assert_eq!(p.csp_db.get(&suid).unwrap().ctr, 2);
}

#[test]
fn the_newest_master_state_is_copied_to_all() {
    let mut sys = system(14);
    let mut rng = Rng::from_seed([14u8; 32]);
    sys.phase_password_update(&mut rng).unwrap();
    sys.force_sync_latest_master_to_all();
    assert!(sys.providers.iter().all(|p| p.master.ctrid == 1));
}

#[test]
fn writes_without_a_quorum_online_are_refused() {
    let mut sys = system(15);
    let mut rng = Rng::from_seed([15u8; 32]);
    let (blob, ctrid, sig) = sys.make_valid_master_update_payload(&mut rng).unwrap();
    sys.set_rotating_unavailable(2, 0);
    assert_eq!(
        sys.qwrite_master(blob, ctrid, &sig).unwrap_err(),
        PhaseError::NotEnoughOnline { online: 2, needed: 3 }
    );
    assert_eq!(
        sys.recover_master_for_provider(0).unwrap_err(),
        PhaseError::NotEnoughOnline { online: 2, needed: 3 }
    );
}

#[test]
fn a_registered_account_updates_with_any_quorum() {
    for offset in 0..4 {
        let mut sys = system(40);
        let mut rng = Rng::from_seed([40u8; 32]);
        sys.force_registered_all(&mut rng).unwrap();
        let suid = sys.any_suid().unwrap();
        let first = sys.providers[0].csp_db.get(&suid).unwrap().ciphersp;
        for p in &sys.providers {
            let rec = p.csp_db.get(&suid).unwrap();
            assert_eq!(p.csp_db.len(), 1);
            assert_eq!(rec.ctr, 0);
            assert!(rec.active);
            assert_eq!(rec.ciphersp.ct, first.ct);
        }
        sys.set_rotating_unavailable(1, offset);
        sys.phase_secret_update(&mut rng).unwrap();
    }
}

#[test]
fn bare_quorum_operations_write_and_recover() {
    for op in [Op::Reg, Op::SecUpd, Op::PwdUpd] {
        for iter in [0usize, 5] {
            let mut work = Overhead::prepare(op, 4, 2, 1, iter).unwrap();
            let stale = stale_provider(4, 1, iter).unwrap();
            assert_eq!(stale, iter % 4);
            assert!(!work.sys.providers[stale].online);
            assert_eq!(work.sys.online_count(), 3);
            assert_eq!(work.write(), Ok(3));
            work.bring_back(stale);
            assert!(work.sys.providers[stale].online);
            assert_eq!(work.recover(stale), Ok(3));
            let other = (stale + 1) % 4;
            match work.pending {
                Pending::Register { suid, ctr, .. } => {
                    assert_eq!((op, ctr), (Op::Reg, 0));
                    assert_eq!(work.sys.providers[stale].csp_db.get(&suid).unwrap().ctr, 0);
                }
                Pending::Update { suid, ctr, .. } => {
                    assert_eq!((op, ctr), (Op::SecUpd, 1));
                    assert_eq!(work.sys.providers[stale].csp_db.get(&suid).unwrap().ctr, 1);
                }
                Pending::Master { ctrid, .. } => {
                    assert_eq!((op, ctrid), (Op::PwdUpd, 1));
                    assert_eq!(work.sys.providers[stale].master.ctrid, 1);
                }
            }
            assert_eq!(
                work.sys.providers[stale].master.ctrid,
                work.sys.providers[other].master.ctrid
            );
        }
    }
    assert_eq!(stale_provider(4, 0, 5), None);
    let mut work = Overhead::prepare(Op::Reg, 4, 2, 2, 0).unwrap();
    assert_eq!(work.write(), Err(PhaseError::NotEnoughOnline { online: 2, needed: 3 }));
}
