//! The RSA-based scheme: numbers, signatures, tokens, servers and the SSH agent.
use num_bigint::{BigUint, RandBigInt};
use rand_core::SeedableRng;
use spa_bench::bignum::{Int, Nat};
use spa_bench::cli::{arg, arg_usize, experiment_row_text, read_samples, SampleFault};
use spa_bench::modp_toprf::{
    lagrange_at_zero_mod, toprf_combine, toprf_encode, toprf_eval, toprf_params, toprf_setup,
};
use spa_bench::paper_agent::{
    make_client_seed, make_server_seed, AgentError, PaperAgent, CMD_RESET, CMD_SHUTDOWN,
};
use spa_bench::paper_client::{
    all_took, finish_round, finish_token, toprf_frame, token_frame, update_frame, TokenFault,
};
use spa_bench::paper_math::{
    clears_denominators, eval_poly_mod, factorial, modinv_i, modinv_u, modpow_signed, shoup_lambda,
};
use spa_bench::paper_protocol::{
    build_body, password_update, setup_fixture_with_ttg, token_generation, verify_token, Fixture,
};
use spa_bench::rng::Rng;
use spa_bench::shoup::{
    emsa_pkcs1_v1_5_sha256, prime_request, shoup_combine, shoup_part_eval, shoup_setup_from_draw,
    shoup_setup_from_primes, shoup_verify, CryptoError, ShoupSetup,
};
use spa_bench::ssh_agent::{
    mpint, public_key_blob, say_packet, SshAgent, SshRequest, SSH_AGENTC_SIGN_REQUEST,
};
use spa_bench::stats::compute_stats;
use spa_bench::wire::{
    decode_token_response, encode_token_response, field_from, put_bytes, take_bytes, WireError,
};

const P: &str = "e21a3163c2809af03da039c2b325e8c7cb924fc5b2c2124f8f365f43de690697";
const Q: &str = "8e14b87c694ae8f5169bab349fbd2edf9dbd52797dcccb47ff70514df975ec9b";

fn prime(hex: &str) -> Nat {
    Nat::from_bytes_be(&BigUint::parse_bytes(hex.as_bytes(), 16).unwrap().to_bytes_be())
}

fn setup(n: usize, t: usize) -> ShoupSetup {
    let mut rng = Rng::from_seed([1; 32]);
    shoup_setup_from_primes(n, t, &prime(P), &prime(Q), &mut rng).unwrap()
}

fn fixture(n: usize, t: usize) -> Fixture {
    let mut rng = Rng::from_seed([31; 32]);
    let fx = setup_fixture_with_ttg(n, t, setup(n, t), &mut rng).unwrap();
    assert!(fx.is_usable());
    fx
}

fn number(x: u64) -> Nat {
    Nat::from_u64(x)
}

fn value(n: &Nat) -> u64 {
    n.to_bytes_be().iter().fold(0, |a, b| a * 256 + *b as u64)
}

#[test]
fn numbers_compute() {
    let a = number(1_000_003);
    let b = number(77);
    assert_eq!(value(&a.plus(&b)), 1_000_080);
    assert_eq!(value(&a.minus(&b)), 999_926);
    assert_eq!(value(&a.times(&b)), 77_000_231);
    assert_eq!(value(&a.modulo(&b)), 1_000_003 % 77);
    assert_eq!(value(&a.half()), 500_001);
    assert_eq!(value(&number(3).modpow(&number(5), &number(100))), 43);
    assert_eq!(number(0).to_bytes_be(), vec![0]);
    assert_eq!(Nat::from_bytes_be(&[0, 0, 5]).to_bytes_be(), vec![5]);
    assert_eq!(number(256).byte_len(), 2);
    assert_eq!(number(0).byte_len(), 0);
    assert!(number(0).is_zero());
    let minus = Int::from_u64(3).minus(&Int::from_u64(10));
    assert!(minus.is_negative());
    assert_eq!(value(&minus.abs()), 7);
    assert_eq!(value(&minus.times(&Int::from_u64(2)).modulo(&number(5))), 1);
    assert_eq!(value(&minus.over(&Int::from_u64(2)).abs()), 3);
    let (g, x) = Int::from_u64(240).extended_gcd(&number(46));
    assert_eq!(value(&g), 2);
    assert_eq!(value(&Int::from_u64(240).times(&x).modulo(&number(46))), 2);
}

#[test]
fn numbers_are_drawn_below_a_bound() {
    let mut rng = Rng::from_seed([2; 32]);
    let bound = number(1000);
    let mut theirs = rand_chacha::ChaCha20Rng::from_seed([2; 32]);
    for _ in 0..20 {
        let n = Nat::random_below(&bound, &mut rng);
        assert!(value(&n) < 1000);
        let want = theirs.gen_biguint_below(&BigUint::from(1000u32));
        assert_eq!(n.to_bytes_be(), want.to_bytes_be());
    }
}

#[test]
fn inverses_and_powers() {
    assert_eq!(value(&modinv_u(&number(3), &number(11)).unwrap()), 4);
    assert!(modinv_u(&number(4), &number(8)).is_none());
    let r = modinv_i(&Int::from_u64(3), &Int::from_u64(11)).unwrap();
    assert_eq!(value(&r.abs()), 4);
    let minus_one = Int::from_u64(0).minus(&Int::from_u64(1));
    assert_eq!(value(&modpow_signed(&number(3), &minus_one, &number(11)).unwrap()), 4);
    assert_eq!(value(&modpow_signed(&number(3), &Int::from_u64(2), &number(11)).unwrap()), 9);
    assert!(modpow_signed(&number(4), &minus_one, &number(8)).is_none());
    assert_eq!(value(&factorial(5)), 120);
    assert_eq!(value(&factorial(0)), 1);
    let coeffs = [number(1), number(2), number(3)];
    assert_eq!(value(&eval_poly_mod(&coeffs, &number(2), &number(10))), 7);
}

#[test]
fn factorials_clear_denominators() {
    let delta = factorial(3);
    assert!(clears_denominators(&delta, 1, &[1, 2, 3]));
    assert!(!clears_denominators(&number(1), 1, &[1, 4]));
    // 6 * 2 * 3 / ((2 - 1) * (3 - 1))
    assert_eq!(value(&shoup_lambda(&delta, 1, &[1, 2, 3]).abs()), 18);
    let second = shoup_lambda(&delta, 2, &[1, 2, 3]);
    assert!(second.is_negative());
    assert_eq!(value(&second.abs()), 18);
}

#[test]
fn enough_shares_sign() {
    let s = setup(4, 3);
    let rep = emsa_pkcs1_v1_5_sha256(b"message", s.public.n.byte_len()).unwrap();
    let all: Vec<_> = s.shares.iter().map(|sh| shoup_part_eval(&s.public, sh, &rep)).collect();
    let mut it = all.into_iter();
    let (a, b, c, d) =
        (it.next().unwrap(), it.next().unwrap(), it.next().unwrap(), it.next().unwrap());
    let sig = shoup_combine(&s.public, &rep, &[d, a, c]).unwrap();
    assert!(shoup_verify(&s.public, &rep, &sig));
    let other = emsa_pkcs1_v1_5_sha256(b"other", s.public.n.byte_len()).unwrap();
    assert!(!shoup_verify(&s.public, &other, &sig));
    for ids in [[1usize, 2, 3], [2, 3, 4], [4, 2, 1]] {
        let parts: Vec<_> =
            ids.iter().map(|&i| shoup_part_eval(&s.public, &s.shares[i - 1], &rep)).collect();
        assert!(shoup_combine(&s.public, &rep, &parts).unwrap().same(&sig));
    }
    let few = shoup_combine(&s.public, &rep, &[b]).unwrap();
    assert!(!shoup_verify(&s.public, &rep, &few));
    assert!(matches!(
        emsa_pkcs1_v1_5_sha256(b"m", 61),
        Err(CryptoError::InvalidRepresentative)
    ));
}

#[test]
fn setups_refuse_bad_thresholds() {
    let mut rng = Rng::from_seed([3; 32]);
    assert!(matches!(
        spa_bench::shoup::shoup_setup(2, 3, &mut rng),
        Err(CryptoError::InvalidThreshold)
    ));
    assert!(matches!(toprf_setup(2, 0, &mut rng), Err(CryptoError::InvalidThreshold)));
    assert_eq!(CryptoError::InvalidThreshold.message(), "invalid threshold parameters");
    assert_eq!(CryptoError::NoInverse.message(), "modular inverse does not exist");
    assert_eq!(CryptoError::InvalidRepresentative.message(), "invalid RSA representative");
    assert_eq!(CryptoError::OpenSsl("x".to_string()).message(), "OpenSSL error: x");
}

#[test]
fn the_password_function_does_not_depend_on_the_servers() {
    let mut rng = Rng::from_seed([4; 32]);
    let s = toprf_setup(3, 2, &mut rng).unwrap();
    let mut seen = Vec::new();
    for ids in [[1u32, 2], [3, 1]] {
        let (enc, rho) = toprf_encode(&s.params, b"pw", &mut rng).unwrap();
        let parts: Vec<Nat> = ids
            .iter()
            .map(|i| toprf_eval(&s.params, &s.shares[*i as usize - 1], &enc))
            .collect();
        seen.push(toprf_combine(&s.params, b"pw", &rho, &ids, &parts).unwrap());
    }
    assert_eq!(seen[0], seen[1]);
    let weights = lagrange_at_zero_mod(&[1, 2], &number(7)).unwrap();
    assert_eq!(value(&weights[0]), 2);
    assert_eq!(value(&weights[1]), 6);
    assert!(lagrange_at_zero_mod(&[1, 3], &number(2)).is_err());
    let group = toprf_params();
    assert_eq!(group.modulus.byte_len(), 256);
    assert!(group.modulus.to_bytes_be()[0] >= 128);
    assert!(group.generator.modpow(&group.order, &group.modulus).same(&number(1)));
}

#[test]
fn tokens_verify_for_their_payload() {
    let fx = fixture(3, 2);
    let mut rng = Rng::from_seed([5; 32]);
    let sig = token_generation(&fx, &fx.payload, &fx.password, &mut rng).unwrap();
    assert!(verify_token(&fx, &fx.payload, &sig).unwrap());
    assert!(!verify_token(&fx, b"other", &sig).unwrap());
    let wrong = token_generation(&fx, &fx.payload, b"guess", &mut rng).unwrap();
    assert!(!verify_token(&fx, &fx.payload, &wrong).unwrap());
}

#[test]
fn password_updates_reach_all_servers() {
    let mut fx = fixture(3, 2);
    let mut rng = Rng::from_seed([6; 32]);
    let done = password_update(&mut fx, &mut rng).unwrap();
    assert_eq!(done.payload_len, 240);
    assert_eq!(done.updated, 3);
    assert_eq!(fx.password, fx.new_password);
    let sig = token_generation(&fx, &fx.payload, &fx.password, &mut rng).unwrap();
    assert!(verify_token(&fx, &fx.payload, &sig).unwrap());
    let old = token_generation(&fx, &fx.payload, b"correct horse battery staple", &mut rng).unwrap();
    assert!(!verify_token(&fx, &fx.payload, &old).unwrap());
}

fn agents(n: usize, t: usize) -> Vec<PaperAgent> {
    (0..n).map(|i| PaperAgent::new(fixture(n, t), i)).collect()
}

fn ask(agents: &mut [PaperAgent], frame: &[u8]) -> Vec<Vec<u8>> {
    agents.iter_mut().map(|a| a.handle(frame).unwrap().bytes).collect()
}

#[test]
fn servers_behind_connections_make_tokens() {
    let fx = fixture(3, 2);
    let mut servers = agents(3, 2);
    let mut rng = Rng::from_seed(make_client_seed(3, 2, b"paper!!!"));
    let (enc, rho) = toprf_encode(&fx.top.params, &fx.password, &mut rng).unwrap();
    let replies = ask(&mut servers[..2], &token_frame(&enc, &fx.payload));
    let sig = finish_token(&fx, &fx.password, &fx.payload, &rho, &replies).unwrap();
    assert!(verify_token(&fx, &fx.payload, &sig).unwrap());
    let cut = vec![replies[0].clone(), replies[1][..20].to_vec()];
    assert!(matches!(
        finish_token(&fx, &fx.password, &fx.payload, &rho, &cut),
        Err(TokenFault::Wire(_))
    ));
    let mut far = replies.clone();
    far[1][..4].copy_from_slice(&[0, 0, 0, 99]);
    assert!(matches!(
        finish_token(&fx, &fx.password, &fx.payload, &rho, &far),
        Err(TokenFault::Denominators)
    ));
}

#[test]
fn servers_behind_connections_take_updates() {
    let fx = fixture(2, 2);
    let mut servers = agents(2, 2);
    let mut rng = Rng::from_seed([7; 32]);
    let mut round = |servers: &mut Vec<PaperAgent>, pw: &[u8]| {
        let (enc, rho) = toprf_encode(&fx.top.params, pw, &mut rng).unwrap();
        let replies = ask(servers, &toprf_frame(&enc));
        finish_round(&fx.top.params, pw, &rho, &replies).unwrap()
    };
    let old = round(&mut servers, &fx.password);
    let new = round(&mut servers, &fx.new_password);
    let mut rng = Rng::from_seed([8; 32]);
    let body = build_body(&old, &new, 2, &mut rng);
    let (enc, rho) = toprf_encode(&fx.top.params, &fx.password, &mut rng).unwrap();
    let replies = ask(&mut servers, &token_frame(&enc, &body));
    let sig = finish_token(&fx, &fx.password, &body, &rho, &replies).unwrap();
    let frame = update_frame(&sig, &body);
    let acks = ask(&mut servers, &frame);
    assert!(all_took(&acks));
    assert_eq!(servers[1].server.h_i, spa_bench::paper_hash::derive_hi(&new, 2));
    assert!(!all_took(&ask(&mut servers, &frame)));
    assert!(all_took(&ask(&mut servers, &[CMD_RESET])));
    assert_eq!(servers[1].server.h_i, fx.servers[1].h_i);
    assert!(servers[0].handle(&[CMD_SHUTDOWN]).unwrap().stop);
}

#[test]
fn servers_refuse_bad_requests() {
    let mut servers = agents(1, 1);
    let a = &mut servers[0];
    assert_eq!(a.handle(&[]).unwrap_err(), AgentError::Empty);
    assert_eq!(a.handle(&[9]).unwrap_err().message(), "unknown command");
    assert_eq!(a.handle(&[2, 0]).unwrap_err().message(), "missing length");
    assert_eq!(a.handle(&[3, 0, 0, 0, 9]).unwrap_err().message(), "short field");
    let mut frame = token_frame(&number(5), b"p");
    frame.push(0);
    assert_eq!(a.handle(&frame).unwrap_err().message(), "trailing token request data");
    let mut frame = update_frame(&number(5), b"p");
    assert_eq!(a.handle(&frame).unwrap().bytes, vec![0]);
    frame.push(0);
    assert_eq!(a.handle(&frame).unwrap_err().message(), "trailing update data");
}

#[test]
fn fields_are_read_back() {
    let mut out = vec![7];
    put_bytes(&mut out, b"abc");
    assert_eq!(out, vec![7, 0, 0, 0, 3, b'a', b'b', b'c']);
    assert_eq!(field_from(&out, 1), Ok((b"abc".to_vec(), 8)));
    assert_eq!(field_from(&out, 5), Err(WireError::MissingLength));
    assert_eq!(field_from(&out[..7], 1), Err(WireError::ShortField));
    out.push(9);
    let mut input = &out[1..];
    assert_eq!(take_bytes(&mut input), Ok(&b"abc"[..]));
    assert_eq!(input, [9]);
    assert_eq!(take_bytes(&mut input), Err(WireError::MissingLength));
    assert_eq!(input, [9]);
    let mut input = &out[1..7];
    assert_eq!(take_bytes(&mut input), Err(WireError::ShortField));
    assert_eq!(input, b"ab");
}

#[test]
fn token_responses_are_read_back() {
    let resp = spa_bench::paper_protocol::TokenResponse {
        id: 258,
        z_i: number(70000),
        encrypted_partial: vec![1, 2, 3],
        iv: [9; 16],
    };
    let bytes = encode_token_response(&resp);
    let back = decode_token_response(&bytes).unwrap();
    assert_eq!(back.id, 258);
    assert_eq!(value(&back.z_i), 70000);
    assert_eq!(back.encrypted_partial, vec![1, 2, 3]);
    assert_eq!(back.iv, [9; 16]);
    assert_eq!(decode_token_response(&bytes[..3]).unwrap_err(), WireError::ShortResponse);
    assert_eq!(
        decode_token_response(&bytes[..bytes.len() - 1]).unwrap_err().message(),
        "bad IV length"
    );
}

#[test]
fn seeds_have_their_places() {
    let s = make_server_seed(1, 2, 3);
    assert_eq!((s[0], s[8], s[16], s[24]), (1, 2, 3, 0));
    let c = make_client_seed(2, 3, b"paper!!!");
    assert_eq!((c[0], c[8]), (2, 3));
    assert_eq!(&c[16..24], b"paper!!!");
}

fn ssh_request(key: &[u8], data: &[u8], flags: u32) -> Vec<u8> {
    let mut p = vec![SSH_AGENTC_SIGN_REQUEST];
    put_bytes(&mut p, key);
    put_bytes(&mut p, data);
    p.extend_from_slice(&flags.to_be_bytes());
    p
}

#[test]
fn the_agent_signs_for_its_key() {
    let mut agent = SshAgent::new(fixture(2, 2), 1, 2);
    let key = agent.key_blob.clone();
    assert_eq!(&key[..11], b"\x00\x00\x00\x07ssh-rsa");
    let request = agent.request(&ssh_request(&key, b"data", 2));
    let data = match request {
        SshRequest::Sign(d) => d,
        _ => panic!("no signature asked for"),
    };
    assert_eq!(data, b"data".to_vec());
    let sig = agent.sign(&data).unwrap();
    let rep = emsa_pkcs1_v1_5_sha256(&data, agent.fx.ttg.public.n.byte_len()).unwrap();
    assert!(shoup_verify(&agent.fx.ttg.public, &rep, &sig));
    let answer = agent.signature_answer(&sig);
    assert_eq!(answer[0], 14);
    assert_eq!(answer.len(), 1 + 4 + 4 + 12 + 4 + 64);
}

#[test]
fn the_agent_refuses_other_requests() {
    let agent = SshAgent::new(fixture(1, 1), 0, 1);
    let key = agent.key_blob.clone();
    let refused = |p: &[u8]| matches!(agent.request(p), SshRequest::Answer(a) if a == vec![5]);
    assert!(refused(&[]));
    assert!(refused(&[99]));
    assert!(refused(&ssh_request(b"other", b"data", 2)));
    assert!(refused(&ssh_request(&key, b"data", 4)));
    let mut long = ssh_request(&key, b"data", 2);
    long.push(0);
    assert!(refused(&long));
    assert!(matches!(
        agent.request(&[SSH_AGENTC_SIGN_REQUEST, 0]),
        SshRequest::Broken(WireError::MissingLength)
    ));
    assert_eq!(say_packet(WireError::MissingLength), "missing string length");
    assert_eq!(say_packet(WireError::ShortField), "short string");
    match agent.request(&[11]) {
        SshRequest::Answer(a) => {
            assert_eq!(&a[..5], &[12, 0, 0, 0, 1]);
            assert!(a.ends_with(b"PAS-TA-U Shoup RSA-2048"));
        }
        _ => panic!("no list of keys"),
    }
}

#[test]
fn the_agent_measures_after_its_warmup() {
    let mut agent = SshAgent::new(fixture(1, 1), 1, 2);
    assert!(!agent.record(10));
    assert!(!agent.record(11));
    assert!(agent.record(12));
    assert!(!agent.record(13));
    assert_eq!(agent.durations, vec![11, 12]);
    assert_eq!(agent.sign_count, 4);
}

#[test]
fn numbers_of_keys_have_a_clear_first_bit() {
    assert_eq!(mpint(&number(0x80)), vec![0, 0x80]);
    assert_eq!(mpint(&number(0x7f)), vec![0x7f]);
    let s = setup(1, 1);
    let blob = public_key_blob(&s);
    assert_eq!(&blob[11..18], &[0, 0, 0, 3, 1, 0, 1]);
}

#[test]
fn arguments_are_found_by_name() {
    let args: Vec<String> =
        ["x", "--n", "5", "--t", "two", "--n", "6", "--last"].iter().map(|s| s.to_string()).collect();
    assert_eq!(arg(&args, "--n"), Some("5".to_string()));
    assert_eq!(arg(&args, "--last"), None);
    assert_eq!(arg_usize(&args, "--n", 3), 5);
    assert_eq!(arg_usize(&args, "--t", 2), 2);
    assert_eq!(arg_usize(&args, "--id", 1), 1);
}

#[test]
fn experiments_are_reported() {
    let (st, _) = compute_stats(&vec![4, 2]);
    assert_eq!(
        experiment_row_text("paper_style exp2", "token", Some("lan4"), 3, 2, 9, &st, "3.000", "1.414"),
        "paper_style exp2 token lan4 3 2 2 9 2 4 4 4 3.000 1.414"
    );
    assert_eq!(
        experiment_row_text("paper_style exp1", "ttg_verify", None, 3, 2, 9, &st, "3.000", "1.414"),
        "paper_style exp1 ttg_verify 3 2 2 9 2 4 4 4 3.000 1.414"
    );
}

#[test]
fn sample_files_are_read() {
    assert_eq!(read_samples("10\r\n 20 \n", 2), Ok(vec![10, 20]));
    assert_eq!(read_samples("10\n20", 2), Ok(vec![10, 20]));
    assert_eq!(read_samples("10\n", 2), Err(SampleFault::Count(1)));
    assert_eq!(read_samples("10\n\n20\n", 3), Err(SampleFault::Line(1)));
    assert_eq!(read_samples("", 0), Ok(vec![]));
    assert_eq!(
        read_samples("340282366920938463463374607431768211455", 1),
        Ok(vec![u128::MAX])
    );
    assert_eq!(
        read_samples("340282366920938463463374607431768211456", 1),
        Err(SampleFault::Line(0))
    );
}

#[test]
fn tokens_do_not_depend_on_chance() {
    let fx = fixture(3, 2);
    let a = token_generation(&fx, b"p", &fx.password, &mut Rng::from_seed([51; 32])).unwrap();
    let b = token_generation(&fx, b"p", &fx.password, &mut Rng::from_seed([52; 32])).unwrap();
    assert!(a.same(&b));
    assert!(verify_token(&fx, b"p", &a).unwrap());
    let other = token_generation(&fx, b"p", b"guess", &mut Rng::from_seed([51; 32])).unwrap();
    assert!(!other.same(&a));
    assert!(!verify_token(&fx, b"p", &other).unwrap());
}

#[test]
fn servers_know_the_places_of_their_shares() {
    let fx = fixture(3, 2);
    for (i, s) in fx.servers.iter().enumerate() {
        assert_eq!(s.id as usize, i + 1);
        assert_eq!(s.top_share.id, s.id);
        assert_eq!(s.ttg_share.id, s.id);
    }
}

fn whole(x: &BigUint) -> Nat {
    Nat::from_bytes_be(&x.to_bytes_be())
}

#[test]
fn keys_have_2048_bits() {
    assert_eq!(prime_request(), (1024, true));
    let one = BigUint::from(1u32);
    let top = &one << 1024;
    let p = whole(&(&top - 105u32));
    let q = whole(&(&top - 179u32));
    let draw = |p: &Nat, q: &Nat| {
        shoup_setup_from_draw(3, 2, p, q, &mut Rng::from_seed([71; 32]))
    };
    let s = draw(&p, &q).unwrap();
    assert_eq!(s.public.n.byte_len(), 256);
    assert!(s.public.n.fills_bytes(256));
    assert_eq!(value(&s.public.e), 65537);
    assert_eq!(value(&s.public.delta), 6);
    assert_eq!(s.shares.iter().map(|sh| sh.id).collect::<Vec<_>>(), vec![1, 2, 3]);
    let rep = emsa_pkcs1_v1_5_sha256(b"message", 256).unwrap();
    for ids in [[1usize, 2], [3, 1], [2, 3]] {
        let parts: Vec<_> =
            ids.iter().map(|&i| shoup_part_eval(&s.public, &s.shares[i - 1], &rep)).collect();
        let sig = shoup_combine(&s.public, &rep, &parts).unwrap();
        assert!(shoup_verify(&s.public, &rep, &sig));
    }
    // The same number twice, one too long, one too short, and a product too short.
    assert!(draw(&p, &p).is_none());
    assert!(draw(&whole(&(&top + 643u32)), &q).is_none());
    assert!(draw(&p, &whole(&((&one << 1023) - 1u32))).is_none());
    assert!(draw(&prime(P), &prime(Q)).is_none());
    let low = &one << 1023;
    assert!(draw(&whole(&(&low + 1155u32)), &whole(&(&low + 1u32))).is_none());
    // The public exponent has no inverse.
    let near = &top - 105u32 - ((&top - 106u32) % 131_074u32);
    assert!(draw(&whole(&near), &q).is_none());
}

#[test]
fn sizes_are_counted_in_bytes() {
    assert!(number(128).fills_bytes(1));
    assert!(number(255).fills_bytes(1));
    assert!(!number(127).fills_bytes(1));
    assert!(!number(256).fills_bytes(1));
    assert!(!number(0).fills_bytes(1));
    assert!(number(0x8000).fills_bytes(2));
    assert!(!number(0x7fff).fills_bytes(2));
    assert!(!number(0x10000).fills_bytes(2));
}
