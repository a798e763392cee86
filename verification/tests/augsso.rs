//! Authentication and password update of AugSSO.
use spa_bench::aead::xchacha_encrypt_detached_with_nonce;
use spa_bench::augsso_auth::{client_phase1, request_with_r, respond1_with_rand};
use spa_bench::augsso_fixture::{
    authenticate, first_round, make_fixture, make_iter_data, second_round, seed_for,
};
use spa_bench::augsso_prims::{all_aug_prims, AugPrim, AugPrimOut, AugPrims};
use spa_bench::augsso_steps::{first_round_drawn, second_round_drawn};
use spa_bench::augsso_token::{client_finalize, respond2_with_nonce, verify_token};
use spa_bench::augsso_update::{make_password_update_iter_data, update_password};
use spa_bench::augsso_work::{all_aug_sps, AugSp, AugSpOut, AugWork, Purpose};
use spa_bench::crypto_augsso::{
    hash_g1_and_bytes_to_32, hash_scalar_to_32, hash_to_g1, hash_to_scalar_nonzero, pke_dec, pke_deserialize, pke_enc, pke_kg, pke_serialize,
    random_scalar_nonzero,
};
use spa_bench::rng::Rng;

#[test]
fn roundtrip_auth_and_verify_token() {
    let n = 5;
    let t = 3;
    let fx = make_fixture(n, t).unwrap();

    let mut rng_it = Rng::from_seed(seed_for(b"augsso/test/it", n, t));
    let mut rng_cli = Rng::from_seed(seed_for(b"augsso/test/cli", n, t));

    let it = make_iter_data(&fx, &mut rng_it).unwrap();
    let (st, req) = request_with_r(&fx.password, fx.pld, &fx.t_set, it.r);

    let mut resps1 = Vec::with_capacity(t);
    let mut sess = Vec::with_capacity(t);
    for j in 0..t {
        let (r1, s1) = respond1_with_rand(&fx.servers[j], &req, &it.r1[j]).expect("respond1");
        resps1.push(r1);
        sess.push(s1);
    }

    let phase1 = client_phase1(
        &st,
        &req,
        &resps1,
        &fx.pk_shares,
        Some(&it.ctch_nonces),
        &mut rng_cli,
    )
    .expect("client_phase1");

    let mut resps2 = Vec::with_capacity(t);
    for j in 0..t {
        let sid = (j + 1) as u32;
        let ctch = phase1
            .ct_ch
            .iter()
            .find(|(id, _)| *id == sid)
            .expect("ctch")
            .1
            .clone();
        let r2 = respond2_with_nonce(&fx.servers[j], &sess[j], &ctch, &it.cttkn_nonces[j])
            .expect("respond2");
        resps2.push(r2);
    }

    let tok =
        client_finalize(&st, &phase1, &resps2, &fx.gamma_pub_shares).expect("client_finalize");
    assert!(verify_token(&fx.gamma_pk, &tok));
}

#[test]
fn a_token_is_for_its_payload_only() {
    let fx = make_fixture(2, 1).unwrap();
    let mut rng = Rng::from_seed([1u8; 32]);
    let it = make_iter_data(&fx, &mut rng).unwrap();
    let mut tok = authenticate(&fx, &it, &mut rng).expect("token");
    assert!(verify_token(&fx.gamma_pk, &tok));
    tok.pld[0] ^= 1;
    assert!(!verify_token(&fx.gamma_pk, &tok));
}

#[test]
fn a_wrong_password_gets_no_token() {
    let fx = make_fixture(2, 2).unwrap();
    let mut rng = Rng::from_seed([2u8; 32]);
    let it = make_iter_data(&fx, &mut rng).unwrap();
    let (st, req) = request_with_r(b"guess", fx.pld, &fx.t_set, it.r);
    let (resps, _) = first_round(&fx, &req, &it).unwrap();
    assert!(client_phase1(&st, &req, &resps, &fx.pk_shares, Some(&it.ctch_nonces), &mut rng).is_none());
}

#[test]
fn rounds_with_drawn_values_give_a_token() {
    let fx = make_fixture(3, 2).unwrap();
    let mut rng = Rng::from_seed([3u8; 32]);
    let it = make_iter_data(&fx, &mut rng).unwrap();
    let (st, req) = request_with_r(&fx.password, fx.pld, &fx.t_set, it.r);
    let mut srv = Rng::from_seed([4u8; 32]);
    let (resps, sess) = first_round_drawn(&fx, &req, &mut srv).unwrap();
    let phase1 = client_phase1(&st, &req, &resps, &fx.pk_shares, None, &mut rng).unwrap();
    let resps2 = second_round_drawn(&fx, &sess, &phase1.ct_ch, &mut srv).unwrap();
    let tok = client_finalize(&st, &phase1, &resps2, &fx.gamma_pub_shares).unwrap();
    assert!(verify_token(&fx.gamma_pk, &tok));
    assert!(second_round(&fx, &sess, &Vec::new(), &it).is_none());
}

#[test]
fn a_changed_challenge_is_refused() {
    let fx = make_fixture(2, 1).unwrap();
    let mut rng = Rng::from_seed([5u8; 32]);
    let it = make_iter_data(&fx, &mut rng).unwrap();
    let (_, req) = request_with_r(&fx.password, fx.pld, &fx.t_set, it.r);
    let (_, sess) = respond1_with_rand(&fx.servers[0], &req, &it.r1[0]).unwrap();
    let good = xchacha_encrypt_detached_with_nonce(&sess.ek, &[], &sess.ch, &[9u8; 24]);
    assert!(respond2_with_nonce(&fx.servers[0], &sess, &good, &[8u8; 24]).is_some());
    let other = xchacha_encrypt_detached_with_nonce(&sess.ek, &[], &[0u8; 32], &[9u8; 24]);
    assert!(respond2_with_nonce(&fx.servers[0], &sess, &other, &[8u8; 24]).is_none());
}

#[test]
fn the_new_password_counts_after_an_update() {
    let mut fx = make_fixture(2, 2).unwrap();
    let mut rng = Rng::from_seed([6u8; 32]);
    let upd = make_password_update_iter_data(&fx, &mut rng).unwrap();
    assert!(update_password(&mut fx, b"next", &upd, &mut rng).is_some());
    let it = make_iter_data(&fx, &mut rng).unwrap();
    let old = b"correct horse battery staple";
    let (st, req) = request_with_r(old, fx.pld, &fx.t_set, it.r);
    let (resps, _) = first_round(&fx, &req, &it).unwrap();
    assert!(client_phase1(&st, &req, &resps, &fx.pk_shares, None, &mut rng).is_none());
    let (st, req) = request_with_r(b"next", fx.pld, &fx.t_set, it.r);
    let (resps, _) = first_round(&fx, &req, &it).unwrap();
    assert!(client_phase1(&st, &req, &resps, &fx.pk_shares, None, &mut rng).is_some());
}

#[test]
fn public_key_encryption_opens_for_the_holder() {
    let mut rng = Rng::from_seed([7u8; 32]);
    let keys = pke_kg(&[1u8; 32]);
    let ct = pke_enc::<5>(&keys.pk, b"context", b"hello", &mut rng);
    assert_eq!(pke_dec(&keys.sk, b"context", &ct).unwrap(), *b"hello");
    assert!(pke_dec(&keys.sk, b"other", &ct).is_err());
    assert!(pke_dec(&pke_kg(&[2u8; 32]).sk, b"context", &ct).is_err());
    let flat = pke_serialize(&ct);
    assert_eq!(flat.len(), 77);
    let back = pke_deserialize::<5>(&flat).unwrap();
    assert_eq!(pke_dec(&keys.sk, b"context", &back).unwrap(), *b"hello");
    assert!(pke_deserialize::<5>(&flat[1..]).is_none());
    assert_eq!(pke_serialize(&back), flat);
}

#[test]
fn public_keys_are_those_of_the_curve() {
    let keys = pke_kg(&[3u8; 32]);
    let secret = x25519_dalek::StaticSecret::from(keys.sk);
    assert_eq!(x25519_dalek::PublicKey::from(&secret).to_bytes(), keys.pk);
}

#[test]
fn scalars_are_not_zero() {
    let mut rng = Rng::from_seed([8u8; 32]);
    assert!(!random_scalar_nonzero(&mut rng).unwrap().is_zero());
    assert!(!hash_to_scalar_nonzero(b"d", b"m").is_zero());
}

#[test]
fn measured_primitives_give_their_results() {
    let fx = make_fixture(3, 2).unwrap();
    let mut prims = AugPrims::prepare(&fx, 3, 2);
    let names: Vec<&str> = all_aug_prims().into_iter().map(|p| p.name()).collect();
    assert_eq!(names.len(), 12);
    assert_eq!(names[0], "hash_to_g1_pw");
    assert_eq!(names[11], "aead_decrypt_112");
    assert!(matches!(prims.run(AugPrim::Open32, true), AugPrimOut::Opened32(Ok(m)) if m == [4u8; 32]));
    assert!(matches!(prims.run(AugPrim::Open112, false), AugPrimOut::Opened112(Ok(m)) if m == [7u8; 112]));
    assert!(matches!(prims.run(AugPrim::Decrypt, false), AugPrimOut::Decrypted(Ok(m)) if m == [9u8; 64]));
    assert!(matches!(prims.run(AugPrim::Pairing, false), AugPrimOut::Truth(false)));
    assert!(matches!(prims.run(AugPrim::Lagrange, false), AugPrimOut::Scalars(v) if v.len() == 2));
}

#[test]
fn measured_server_work_succeeds() {
    let fx = make_fixture(3, 2).unwrap();
    let mut work = AugWork::prepare(&fx, Purpose::Report, 3, 2).unwrap();
    let names: Vec<&str> = all_aug_sps().into_iter().map(|p| p.name()).collect();
    assert_eq!(
        names,
        vec!["reg_store", "auth_db_get", "auth_respond1", "auth_respond2", "update_respond1", "update_respond2"]
    );
    for timed in [false, true] {
        assert!(matches!(work.run(&fx.servers[0], AugSp::Store, timed), AugSpOut::Stored));
        assert!(matches!(work.run(&fx.servers[0], AugSp::Lookup, timed), AugSpOut::Found(true)));
        assert!(matches!(work.run(&fx.servers[0], AugSp::Respond1, timed), AugSpOut::First(Some(_))));
        assert!(matches!(work.run(&fx.servers[0], AugSp::Respond2, timed), AugSpOut::Second(Some(_))));
        assert!(matches!(
            work.run(&fx.servers[0], AugSp::UpdateRespond1, timed),
            AugSpOut::UpdateFirst(Some(_))
        ));
        assert!(matches!(
            work.run(&fx.servers[0], AugSp::UpdateRespond2, timed),
            AugSpOut::UpdateSecond(Some(_))
        ));
    }
    assert!(work.target.has_record(fx.c));
}

#[test]
fn hashes_bind_their_inputs() {
    let s = hash_to_scalar_nonzero(b"d", b"m");
    let p = hash_to_g1(b"d", b"m");
    let mut h = blake3::Hasher::new();
    h.update(b"d");
    h.update(&s.to_bytes());
    assert_eq!(hash_scalar_to_32(b"d", &s), *h.finalize().as_bytes());
    let mut h = blake3::Hasher::new();
    h.update(b"d");
    h.update(&spa_bench::bls::g1_to_bytes(&p));
    h.update(b"x");
    assert_eq!(hash_g1_and_bytes_to_32(b"d", &p, b"x"), *h.finalize().as_bytes());
}

#[test]
fn measured_server_work_draws_its_values_in_order() {
    let fx = make_fixture(3, 2).unwrap();
    let mut work = AugWork::prepare(&fx, Purpose::Report, 3, 2).unwrap();
    let mut twin = AugWork::prepare(&fx, Purpose::Report, 3, 2).unwrap();
    let sess = match work.run(&fx.servers[0], AugSp::Respond1, true) {
        AugSpOut::First(Some((_, sess))) => sess,
        _ => panic!("no response"),
    };
    assert_eq!(sess.ek, twin.rng1.take_array::<32>());
    assert_eq!(sess.ch, twin.rng1.take_array::<32>());
    twin.rng1.take_array::<32>();
    twin.rng1.take_array::<24>();
    assert_eq!(work.rng1.take_array::<8>(), twin.rng1.take_array::<8>());
    let nonce = match work.run(&fx.servers[0], AugSp::Respond2, true) {
        AugSpOut::Second(Some(resp)) => resp.ct_tkn.nonce,
        _ => panic!("no response"),
    };
    assert_eq!(nonce, twin.rng2.take_array::<24>());
    assert_eq!(work.rng2.take_array::<8>(), twin.rng2.take_array::<8>());
    work.run(&fx.servers[0], AugSp::UpdateRespond1, false);
    assert_eq!(work.upd_rng.take_array::<8>(), twin.upd_rng.take_array::<8>());
}

#[test]
fn second_answers_use_their_own_nonces() {
    let fx = make_fixture(3, 2).unwrap();
    let mut rng = Rng::from_seed([61u8; 32]);
    let it = make_iter_data(&fx, &mut rng).unwrap();
    let (st, req) = request_with_r(&fx.password, fx.pld, &fx.t_set, it.r);
    let (resps, sess) = first_round(&fx, &req, &it).unwrap();
    let phase1 =
        client_phase1(&st, &req, &resps, &fx.pk_shares, Some(&it.ctch_nonces), &mut rng).unwrap();
    let resps2 = second_round(&fx, &sess, &phase1.ct_ch, &it).unwrap();
    assert_eq!(resps2.len(), 2);
    for (resp, nonce) in resps2.iter().zip(&it.cttkn_nonces) {
        assert_eq!(resp.ct_tkn.nonce, *nonce);
    }
}

#[test]
fn a_refused_round_leaves_the_generator_where_it_stopped() {
    let fx = make_fixture(3, 2).unwrap();
    let mut rng = Rng::from_seed([62u8; 32]);
    let it = make_iter_data(&fx, &mut rng).unwrap();
    let mut pld = fx.pld;
    for b in pld.iter_mut() {
        *b ^= 0xff;
    }
    let (_, req) = request_with_r(&fx.password, pld, &fx.t_set, it.r);
    let mut srv = Rng::from_seed([63u8; 32]);
    let mut fresh = Rng::from_seed([63u8; 32]);
    assert!(first_round_drawn(&fx, &req, &mut srv).is_none());
    assert_eq!(srv.take_array::<8>(), fresh.take_array::<8>());
    let (_, req) = request_with_r(&fx.password, fx.pld, &fx.t_set, it.r);
    let (_, sess) = first_round(&fx, &req, &it).unwrap();
    assert!(second_round_drawn(&fx, &sess, &Vec::new(), &mut srv).is_none());
    assert_eq!(srv.take_array::<8>(), fresh.take_array::<8>());
}

#[test]
fn an_update_with_the_wrong_password_changes_nothing() {
    let mut fx = make_fixture(3, 2).unwrap();
    let mut rng = Rng::from_seed([64u8; 32]);
    let upd = make_password_update_iter_data(&fx, &mut rng).unwrap();
    let right = fx.password.clone();
    fx.password = b"guess".to_vec();
    assert!(update_password(&mut fx, b"next", &upd, &mut rng).is_none());
    assert_eq!(fx.password, b"guess".to_vec());
    fx.password = right;
    let it = make_iter_data(&fx, &mut rng).unwrap();
    assert!(authenticate(&fx, &it, &mut rng).is_some());
}
