//! Hashes, ciphers, random streams and the pairing groups.
use rand_core::{RngCore, SeedableRng};
use sha2::Digest;
use spa_bench::aead::{
    xchacha_decrypt_detached, xchacha_encrypt_detached, xchacha_encrypt_detached_with_nonce,
};
use spa_bench::bls::{
    g1_from_bytes, g1_to_bytes, g2_from_bytes, g2_to_bytes, pairing_check_g1_g2,
    pairing_check_sig, Scalar, G1, G2,
};
use spa_bench::crypto_augsso::{combine_g1_at_zero, combine_g2_at_zero, hash_to_g1};
use spa_bench::decimal::decimal_bytes;
use spa_bench::field::{lagrange_coeffs_at_zero, poly_eval, shamir_share, Field};
use spa_bench::group::Group;
use spa_bench::hash::{blake3_32, blake3_xof_64, hash_tagged, wide_hash};
use spa_bench::paper_hash::{aes128_ofb_apply, derive_hi};
use spa_bench::rng::Rng;
use spa_bench::sampling::Sampler;
use spa_bench::stats::{
    baseline_row_text, compute_stats, compute_stats_inclusive, median_ns, quorum_row_text,
};
use spa_bench::store::Store;

#[test]
fn streams_are_those_of_the_generator() {
    let mut ours = Rng::from_seed([5; 32]);
    let mut theirs = rand_chacha::ChaCha20Rng::from_seed([5; 32]);
    let mut buf = [0u8; 37];
    theirs.fill_bytes(&mut buf);
    assert_eq!(ours.take(37), buf.to_vec());
    assert_eq!(ours.next_u64(), theirs.next_u64());
    let mut small = [0u8; 3];
    theirs.fill_bytes(&mut small);
    assert_eq!(ours.take_array::<3>(), small);
    assert_eq!(ours.place().1, 13);
}

#[test]
fn hashes_are_those_of_the_function() {
    let want = blake3::hash(b"ab");
    assert_eq!(blake3_32(b"a", &[b"b"]), *want.as_bytes());
    let mut h = blake3::Hasher::new();
    h.update(b"abc");
    let mut wide = [0u8; 64];
    h.finalize_xof().fill(&mut wide);
    assert_eq!(blake3_xof_64(b"a", &[b"b", b"c"]), wide);
    assert_eq!(wide_hash(b"a", b"bc"), wide);
    assert_eq!(hash_tagged("a", b"b"), *want.as_bytes());
}

#[test]
fn ciphertexts_open_only_as_sealed() {
    let ct = xchacha_encrypt_detached_with_nonce(&[1; 32], b"aad", b"plain", &[2; 24]);
    assert_ne!(&ct.ct, b"plain");
    assert_eq!(xchacha_decrypt_detached(&[1; 32], b"aad", &ct).unwrap(), *b"plain");
    assert!(xchacha_decrypt_detached(&[2; 32], b"aad", &ct).is_err());
    assert!(xchacha_decrypt_detached(&[1; 32], b"", &ct).is_err());
    let mut bad = ct;
    bad.tag[0] ^= 1;
    assert!(xchacha_decrypt_detached(&[1; 32], b"aad", &bad).is_err());
    let mut rng = Rng::from_seed([3; 32]);
    let mut same = Rng::from_seed([3; 32]);
    let drawn = xchacha_encrypt_detached(&[1; 32], b"", b"x", &mut rng);
    assert_eq!(drawn.nonce, same.take_array::<24>());
}

#[test]
fn keystreams_undo_themselves() {
    let mut data = b"some bytes that are not a block".to_vec();
    aes128_ofb_apply(&[4; 32], &[5; 16], &mut data);
    assert_ne!(data, b"some bytes that are not a block".to_vec());
    aes128_ofb_apply(&[4; 32], &[5; 16], &mut data);
    assert_eq!(data, b"some bytes that are not a block".to_vec());
    let mut zeros = [0u8; 16];
    aes128_ofb_apply(&[0; 32], &[0; 16], &mut zeros);
    assert_eq!(
        zeros,
        [0x66, 0xe9, 0x4b, 0xd4, 0xef, 0x8a, 0x2c, 0x3b, 0x88, 0x4c, 0xfa, 0x59, 0xca, 0x34, 0x2b, 0x2e]
    );
}

#[test]
fn server_keys_are_hashes() {
    let mut h = sha2::Sha256::new();
    h.update([6u8; 32]);
    h.update(b"12");
    let want: [u8; 32] = h.finalize().into();
    assert_eq!(derive_hi(&[6; 32], 12), want);
    assert_eq!(decimal_bytes(0), b"0".to_vec());
    assert_eq!(decimal_bytes(1234567890123), b"1234567890123".to_vec());
}

#[test]
fn pairings_check_signatures() {
    let s = Scalar::of_u64(11);
    let h = hash_to_g1(b"d", b"m");
    let sig = h.scale(s);
    let pk = G2::generator_times(s);
    assert!(pairing_check_sig(&h, &sig, &pk));
    assert!(!pairing_check_sig(&h, &h, &pk));
    assert!(pairing_check_g1_g2(&sig, &h, &pk));
    assert!(!pairing_check_g1_g2(&h, &sig, &pk));
}

#[test]
fn group_elements_are_read_back() {
    let p = G1::generator_times(Scalar::of_u64(3));
    let q = G2::generator_times(Scalar::of_u64(3));
    assert_eq!(g1_to_bytes(&g1_from_bytes(&g1_to_bytes(&p)).unwrap()), g1_to_bytes(&p));
    assert_eq!(g2_to_bytes(&g2_from_bytes(&g2_to_bytes(&q)).unwrap()), g2_to_bytes(&q));
    assert!(g1_from_bytes(&[0xff; 48]).is_none());
    assert!(g2_from_bytes(&[0xff; 96]).is_none());
    let theirs = bls12_381::G1Affine::from(
        bls12_381::G1Projective::generator() * bls12_381::Scalar::from(3u64),
    );
    assert_eq!(g1_to_bytes(&p), theirs.to_compressed());
    let theirs = bls12_381::G2Affine::from(
        bls12_381::G2Projective::generator() * bls12_381::Scalar::from(3u64),
    );
    assert_eq!(g2_to_bytes(&q), theirs.to_compressed());
    let one = G1::generator_times(Scalar::of_u64(1));
    assert_eq!(g1_to_bytes(&one.plus(one).plus(one)), g1_to_bytes(&p));
    assert_eq!(g1_to_bytes(&G1::identity().plus(p)), g1_to_bytes(&p));
    assert_eq!(g2_to_bytes(&G2::identity().plus(q)), g2_to_bytes(&q));
    let one = G2::generator_times(Scalar::of_u64(1));
    assert_eq!(g2_to_bytes(&one.plus(one).plus(one)), g2_to_bytes(&q));
}

#[test]
fn scalars_of_the_pairing_groups() {
    let a = Scalar::of_u64(9);
    let b = Scalar::of_u64(4);
    let ta = bls12_381::Scalar::from(9u64);
    let tb = bls12_381::Scalar::from(4u64);
    assert_eq!(a.plus(b).to_bytes(), (ta + tb).to_bytes());
    assert_eq!(b.minus(a).to_bytes(), (tb - ta).to_bytes());
    assert_eq!(a.times(b).to_bytes(), (ta * tb).to_bytes());
    assert_eq!(a.inverse().to_bytes(), ta.invert().unwrap().to_bytes());
    assert_eq!(
        Scalar::from_bytes_wide(&[0xcd; 64]).to_bytes(),
        bls12_381::Scalar::from_bytes_wide(&[0xcd; 64]).to_bytes()
    );
    assert!(Scalar::from_bytes(&[0xff; 32]).is_none());
    assert_eq!(Scalar::from_bytes(&a.to_bytes()).unwrap().to_bytes(), a.to_bytes());
    assert!(!a.is_zero());
    assert!(a.minus(a).is_zero());
}

#[test]
fn shares_recombine() {
    let mut rng = Rng::from_seed([9; 32]);
    let secret = Scalar::of_u64(1234);
    let shares = shamir_share(secret, 5, 3, &mut rng);
    let ids = [2u32, 5, 1];
    let lambdas: Vec<Scalar> = lagrange_coeffs_at_zero(&ids);
    let mut sum = Scalar::of_u64(0);
    for (k, id) in ids.iter().enumerate() {
        sum = sum.plus(lambdas[k].times(shares[*id as usize - 1].1));
    }
    assert_eq!(sum.to_bytes(), secret.to_bytes());
    let h = hash_to_g1(b"d", b"m");
    let partials: Vec<G1> = ids.iter().map(|id| h.scale(shares[*id as usize - 1].1)).collect();
    assert_eq!(g1_to_bytes(&combine_g1_at_zero(&ids, &partials)), g1_to_bytes(&h.scale(secret)));
    let keys: Vec<G2> =
        ids.iter().map(|id| G2::generator_times(shares[*id as usize - 1].1)).collect();
    assert_eq!(
        g2_to_bytes(&combine_g2_at_zero(&ids, &keys)),
        g2_to_bytes(&G2::generator_times(secret))
    );
    let coeffs = [Scalar::of_u64(1), Scalar::of_u64(2), Scalar::of_u64(3)];
    assert_eq!(poly_eval(&coeffs, Scalar::of_u64(2)).to_bytes(), Scalar::of_u64(17).to_bytes());
}

#[test]
fn order_statistics() {
    let xs = vec![5u128, 1, 4, 2, 3];
    let (st, sorted) = compute_stats(&xs);
    assert_eq!(sorted, vec![1, 2, 3, 4, 5]);
    assert_eq!((st.n, st.min_ns, st.p50_ns, st.p95_ns, st.max_ns), (5, 1, 3, 5, 5));
    let (st, _) = compute_stats_inclusive(&xs);
    assert_eq!(st.p95_ns, 4);
    let hundred: Vec<u128> = (0..100).rev().collect();
    assert_eq!(compute_stats(&hundred).0.p95_ns, 95);
    assert_eq!(compute_stats_inclusive(&hundred).0.p95_ns, 94);
    assert_eq!(median_ns(&vec![9, 3, 7, 1]), 7);
    assert_eq!(median_ns(&vec![4]), 4);
}

#[test]
fn rows_report_statistics() {
    let (st, _) = compute_stats(&vec![3, 1]);
    assert_eq!(
        baseline_row_text("augsso", "net", "reg_lan", true, 5, 3, 7, &st, "2.000", "1.414"),
        "augsso net reg_lan 1 5 3 2 7 1 3 3 3 2.000 1.414"
    );
    assert_eq!(
        quorum_row_text("full_net", "reg", "lan", 20, 11, 4, 7, &st, "2.000", "1.414"),
        "upspa_abd full_net reg lan 20 11 16 4 2 7 1 3 3 3 2.000 1.414"
    );
}

#[test]
fn only_times_after_the_warmup_count() {
    let mut s = Sampler::new(2, 3);
    let mut next = 10u128;
    while s.needs_more() {
        s = s.record(next);
        next += 1;
    }
    assert_eq!(*s.times(), vec![12, 13, 14]);
    assert!(!Sampler::new(0, 0).needs_more());
}

#[test]
fn stores_keep_one_record_for_a_key() {
    let mut s: Store<u32> = Store::new();
    s.insert([1; 32], 5);
    s.insert([2; 32], 6);
    s.insert([1; 32], 7);
    assert_eq!(s.len(), 2);
    assert_eq!(s.get(&[1; 32]), Some(&7));
    *s.get_mut(&[2; 32]).unwrap() = 9;
    assert_eq!(s.copy().get(&[2; 32]), Some(&9));
    assert_eq!(s.key_at(0), [1; 32]);
    assert!(!s.contains_key(&[3; 32]));
}

#[test]
fn keystreams_depend_on_half_the_key_and_the_place() {
    // AES-128 in output feedback mode on the first block of a published vector.
    let key = [
        0x2b, 0x7e, 0x15, 0x16, 0x28, 0xae, 0xd2, 0xa6, 0xab, 0xf7, 0x15, 0x88, 0x09, 0xcf, 0x4f, 0x3c,
    ];
    let mut a = [7u8; 32];
    let mut b = [9u8; 32];
    a[..16].copy_from_slice(&key);
    b[..16].copy_from_slice(&key);
    let mut iv = [0u8; 16];
    for i in 0..16 {
        iv[i] = i as u8;
    }
    let plain = [
        0x6b, 0xc1, 0xbe, 0xe2, 0x2e, 0x40, 0x9f, 0x96, 0xe9, 0x3d, 0x7e, 0x11, 0x73, 0x93, 0x17, 0x2a,
    ];
    let mut data = plain;
    aes128_ofb_apply(&a, &iv, &mut data);
    assert_eq!(
        data,
        [
            0x3b, 0x3f, 0xd9, 0x2e, 0xb7, 0x2d, 0xad, 0x20, 0x33, 0x34, 0x49, 0xf8, 0xe8, 0x3c, 0xfb, 0x4a,
        ]
    );
    let mut short = plain[..5].to_vec();
    aes128_ofb_apply(&a, &iv, &mut short);
    assert_eq!(short, data[..5].to_vec());
    aes128_ofb_apply(&b, &iv, &mut data);
    assert_eq!(data, plain);
    b[0] ^= 1;
    aes128_ofb_apply(&a, &iv, &mut data);
    aes128_ofb_apply(&b, &iv, &mut data);
    assert_ne!(data, plain);
}
