//! Tokens and password updates of PAS-TA-U.
use spa_bench::modern_agent::{
    finish_round, read_responses, request_frame, update_frame, ModernAgent, ModernError,
    RoundFault, CMD_RESET, CMD_SHUTDOWN, CMD_TOKEN, CMD_TOKEN_VAR, CMD_TOPRF,
};
use spa_bench::pastau::{
    finalize, request, respond, respond_toprf_only, respond_var_payload, verify,
    verify_var_payload, ClientId, PastauServer,
};
use spa_bench::pastau_fixture::{authenticate, make_fixture, make_iter_data, update_password};
use spa_bench::pastau_prims::{
    all_pas_grid_prims, all_pas_prims, PasGrid, PasGridOut, PasGridPrim, PasPrim, PasPrimOut,
    PasPrims,
};
use spa_bench::pastau_steps::{derive_h_from_responses, make_update_iter_data};
use spa_bench::pastau_update::{password_update_client, password_update_handle};
use spa_bench::pastau_wire::build_update_wire;
use spa_bench::pastau_work::{all_pas_sps, PasSp, PasSpOut, PasWork};
use spa_bench::augsso_work::Purpose;
use spa_bench::rng::Rng;
use spa_bench::wire::{decode_response, encode_response, WireError, RESPONSE_LEN};

#[test]
fn enough_servers_make_a_token() {
    let fx = make_fixture(3, 2);
    let mut rng = Rng::from_seed([1u8; 32]);
    let it = make_iter_data(&fx, &mut rng);
    let tk = authenticate(&fx, &it).expect("token");
    assert!(verify(&fx.vk, fx.c, fx.x, &tk));
    let mut other = fx.x;
    other[0] ^= 1;
    assert!(!verify(&fx.vk, fx.c, other, &tk));
    assert!(!verify(&fx.vk, fx.c, fx.x, &[0u8; 48]));
}

#[test]
fn a_wrong_password_makes_no_token() {
    let fx = make_fixture(3, 2);
    let mut rng = Rng::from_seed([2u8; 32]);
    let (st, req) = request(fx.c, b"guess", fx.x, &fx.t_set, &mut rng);
    let resps: Vec<_> = (0..2)
        .map(|j| respond(&fx.servers[j], fx.c, fx.x, &req.req, &mut rng).unwrap())
        .collect();
    assert!(finalize(&st, &resps).is_none());
    assert!(finalize(&st, &resps[..1]).is_none());
}

#[test]
fn servers_answer_only_clients_they_know() {
    let fx = make_fixture(2, 1);
    let mut rng = Rng::from_seed([3u8; 32]);
    let (_, req) = request(fx.c, &fx.password, fx.x, &fx.t_set, &mut rng);
    let stranger = ClientId([9u8; 32]);
    assert!(respond_toprf_only(&fx.servers[0], stranger, &req.req).is_none());
    assert!(respond_toprf_only(&fx.servers[0], fx.c, &[0xffu8; 32]).is_none());
    assert!(respond_toprf_only(&fx.servers[0], fx.c, &req.req).is_some());
    let empty = PastauServer::new(1, fx.servers[0].ttg_share);
    assert!(!empty.has_record(fx.c));
}

#[test]
fn updates_move_every_server() {
    let mut fx = make_fixture(3, 2);
    let mut rng = Rng::from_seed([4u8; 32]);
    assert!(update_password(&mut fx, b"next", &mut rng));
    let (st, req) = request(fx.c, b"next", fx.x, &fx.t_set, &mut rng);
    let resps: Vec<_> = (0..2)
        .map(|j| respond(&fx.servers[j], fx.c, fx.x, &req.req, &mut rng).unwrap())
        .collect();
    let tk = finalize(&st, &resps).expect("token");
    assert!(verify(&fx.vk, fx.c, fx.x, &tk));
    let (st, req) = request(fx.c, b"correct horse battery staple", fx.x, &fx.t_set, &mut rng);
    let resps: Vec<_> = (0..2)
        .map(|j| respond(&fx.servers[j], fx.c, fx.x, &req.req, &mut rng).unwrap())
        .collect();
    assert!(finalize(&st, &resps).is_none());
}

#[test]
fn unsigned_updates_are_refused() {
    let fx = make_fixture(2, 1);
    let mut rng = Rng::from_seed([5u8; 32]);
    let out = password_update_client(
        fx.c, &fx.password, b"next", &fx.vk, &fx.servers, &fx.t_set, &mut rng,
    )
    .expect("update");
    let mut server = fx.servers[0].copy();
    let mut changed = out.pld3.clone();
    changed[0] ^= 1;
    assert!(!password_update_handle(&mut server, &fx.vk, &changed, &out.tk_pld3));
    assert!(!password_update_handle(&mut server, &fx.vk, &out.pld3[..31], &out.tk_pld3));
    assert!(password_update_handle(&mut server, &fx.vk, &out.pld3, &out.tk_pld3));
    assert_eq!(server.get_record(fx.c).unwrap().h_i, out.new_hi[0]);
    assert!(!password_update_handle(&mut server, &fx.vk, &out.pld3, &out.tk_pld3));
}

#[test]
fn staged_updates_are_taken() {
    let fx = make_fixture(2, 2);
    for timed in [false, true] {
        let mut rng = Rng::from_seed([6u8; 32]);
        let it = make_update_iter_data(&fx, &mut rng);
        let wire = build_update_wire(&fx, b"next", timed, &it, &mut rng).expect("wire");
        assert_eq!(wire.pld3.len(), 2 * 104 + 32);
        for server in &fx.servers {
            let mut server = server.copy();
            assert!(password_update_handle(&mut server, &fx.vk, &wire.pld3, &wire.tk_pld3));
        }
    }
}

#[test]
fn a_missing_response_gives_no_value() {
    let fx = make_fixture(2, 2);
    let mut rng = Rng::from_seed([7u8; 32]);
    let (st, req) = request(fx.c, &fx.password, fx.x, &fx.t_set, &mut rng);
    let resps: Vec<_> = (0..2)
        .map(|j| respond(&fx.servers[j], fx.c, fx.x, &req.req, &mut rng).unwrap())
        .collect();
    let h = derive_h_from_responses(&fx.password, st.rho, &fx.t_set, &resps).unwrap();
    let back = [resps[1], resps[0]];
    assert_eq!(derive_h_from_responses(&fx.password, st.rho, &fx.t_set, &back), Some(h));
    assert_eq!(derive_h_from_responses(&fx.password, st.rho, &fx.t_set, &resps[..1]), None);
}

#[test]
fn responses_are_read_back() {
    let fx = make_fixture(1, 1);
    let mut rng = Rng::from_seed([8u8; 32]);
    let (_, req) = request(fx.c, &fx.password, fx.x, &fx.t_set, &mut rng);
    let resp = respond(&fx.servers[0], fx.c, fx.x, &req.req, &mut rng).unwrap();
    let bytes = encode_response(&resp);
    assert_eq!(bytes.len(), RESPONSE_LEN);
    assert_eq!(bytes[..4], [0, 0, 0, 1]);
    let back = decode_response(&bytes).unwrap();
    assert_eq!(back.z_i, resp.z_i);
    assert_eq!(back.ctxt_i.ct, resp.ctxt_i.ct);
    assert_eq!(decode_response(&bytes[1..]).unwrap_err(), WireError::BadLength);
}

fn agents(n: usize, t: usize) -> (spa_bench::pastau_fixture::Fixture, Vec<ModernAgent>) {
    let fx = make_fixture(n, t);
    let v = (0..n)
        .map(|j| {
            ModernAgent::new(fx.c, fx.vk, fx.servers[j].copy(), j as u64 + 1, n as u64, t as u64)
        })
        .collect();
    (fx, v)
}

#[test]
fn agents_serve_tokens_and_updates() {
    let (fx, mut agents) = agents(2, 2);
    let mut rng = Rng::from_seed([9u8; 32]);
    let (st, req) = request(fx.c, &fx.password, fx.x, &fx.t_set, &mut rng);
    let frame = request_frame(CMD_TOKEN, &req.req, &req.x);
    let replies: Vec<Vec<u8>> =
        agents.iter_mut().map(|a| a.handle(&frame).unwrap().bytes).collect();
    let resps = read_responses(&replies).unwrap();
    let tk = finalize(&st, &resps).unwrap();
    assert!(verify(&fx.vk, fx.c, fx.x, &tk));

    let out = password_update_client(
        fx.c, &fx.password, b"next", &fx.vk, &fx.servers, &fx.t_set, &mut rng,
    )
    .unwrap();
    let frame = update_frame(&out.tk_pld3, &out.pld3);
    for agent in agents.iter_mut() {
        assert_eq!(agent.handle(&frame).unwrap().bytes, vec![1]);
        assert_eq!(agent.handle(&frame).unwrap().bytes, vec![0]);
        assert_eq!(agent.handle(&[CMD_RESET]).unwrap().bytes, vec![1]);
        assert_eq!(agent.handle(&frame).unwrap().bytes, vec![1]);
        let bye = agent.handle(&[CMD_SHUTDOWN]).unwrap();
        assert!(bye.stop);
        assert_eq!(bye.bytes, vec![1]);
    }
}

#[test]
fn agents_give_function_values() {
    let (fx, mut agents) = agents(2, 2);
    let mut rng = Rng::from_seed([10u8; 32]);
    let (st, req) = request(fx.c, &fx.password, fx.x, &fx.t_set, &mut rng);
    let frame = request_frame(CMD_TOPRF, &req.req, &[]);
    let replies: Vec<Vec<u8>> =
        agents.iter_mut().map(|a| a.handle(&frame).unwrap().bytes).collect();
    let h = finish_round(&fx.password, st.rho, &fx.t_set, &replies).unwrap();
    assert_eq!(spa_bench::crypto_pastau::hash_hi(&h, 1), fx.servers[0].get_record(fx.c).unwrap().h_i);
    let short = vec![replies[0].clone(), vec![1, 2]];
    assert_eq!(
        finish_round(&fx.password, st.rho, &fx.t_set, &short).unwrap_err(),
        RoundFault::BadReply
    );
    let bad = vec![vec![0xff; 32], replies[1].clone()];
    let fault = finish_round(&fx.password, st.rho, &fx.t_set, &bad).unwrap_err();
    assert_eq!(fault.message(), "invalid TOPRF point");
}

#[test]
fn agents_refuse_bad_requests() {
    let (_, mut agents) = agents(1, 1);
    let a = &mut agents[0];
    let said = |a: &mut ModernAgent, f: &[u8]| a.handle(f).unwrap_err();
    assert_eq!(said(a, &[]), ModernError::Empty);
    assert_eq!(said(a, &[CMD_TOPRF, 1]).message(), "bad TOPRF request");
    assert_eq!(said(a, &[CMD_TOKEN, 1]).message(), "bad token request");
    assert_eq!(said(a, &[CMD_TOKEN_VAR, 1]).message(), "bad variable token request");
    assert_eq!(said(a, &[4, 1]).message(), "bad update request");
    assert_eq!(said(a, &[77]).message(), "unknown command");
    let invalid = request_frame(CMD_TOPRF, &[0xff; 32], &[]);
    assert_eq!(said(a, &invalid).message(), "TOPRF response failed");
    let invalid = request_frame(CMD_TOKEN, &[0xff; 32], &[0; 32]);
    assert_eq!(said(a, &invalid).message(), "token response failed");
    let invalid = request_frame(CMD_TOKEN_VAR, &[0xff; 32], &[]);
    assert_eq!(said(a, &invalid).message(), "variable token response failed");
}

#[test]
fn measured_primitives_of_pastau_give_their_results() {
    let fx = make_fixture(3, 2);
    let mut prims = PasPrims::prepare(&fx).unwrap();
    let names: Vec<&str> = all_pas_prims().into_iter().map(|p| p.name()).collect();
    assert_eq!(names.len(), 11);
    assert_eq!(names[10], "ttg_verify");
    assert!(matches!(prims.run(PasPrim::Verify, false), PasPrimOut::Truth(true)));
    assert!(matches!(prims.run(PasPrim::OpenToken, true), PasPrimOut::OpenedToken(Ok(m)) if m == [9u8; 48]));
    assert!(matches!(prims.run(PasPrim::OpenUpdate, true), PasPrimOut::OpenedUpdate(Ok(m)) if m == [9u8; 64]));
    let mut grid = PasGrid::prepare(&fx, 3, 2).unwrap();
    let names: Vec<&str> = all_pas_grid_prims().into_iter().map(|p| p.name()).collect();
    assert_eq!(
        names,
        vec!["top_combine_t", "hash_hi_all_n", "update_payload_encrypt_all_n", "ttg_combine_t"]
    );
    assert!(matches!(grid.run(PasGridPrim::HashKeys, false), PasGridOut::Keys(v) if v.len() == 3));
    assert!(matches!(
        grid.run(PasGridPrim::SealUpdates, true),
        PasGridOut::Payload(v) if v.len() == 312
    ));
}

#[test]
fn measured_server_work_of_pastau_succeeds() {
    let fx = make_fixture(2, 2);
    for timed in [false, true] {
        let mut work = PasWork::prepare(&fx, Purpose::Calibration, timed, 2, 2).unwrap();
        let mut server = fx.servers[0].copy();
        assert_eq!(all_pas_sps().len(), 5);
        assert!(matches!(work.run(&mut server, PasSp::Store, timed), PasSpOut::Stored));
        assert!(work.target.has_record(fx.c));
        assert!(matches!(work.run(&mut server, PasSp::Lookup, timed), PasSpOut::Found(true)));
        assert!(matches!(work.run(&mut server, PasSp::Respond, timed), PasSpOut::Response(Some(_))));
        assert!(matches!(
            work.run(&mut server, PasSp::UpdateRespond, timed),
            PasSpOut::Response(Some(_))
        ));
        assert!(matches!(
            work.run(&mut server, PasSp::UpdateHandle, timed),
            PasSpOut::Handled(true)
        ));
    }
    assert_eq!(PasSp::UpdateHandle.name(), "update_handle");
}

#[test]
fn tokens_on_longer_payloads_verify() {
    let fx = make_fixture(2, 2);
    let mut rng = Rng::from_seed([11u8; 32]);
    let (st, req) = request(fx.c, &fx.password, fx.x, &fx.t_set, &mut rng);
    let resps: Vec<_> = fx
        .servers
        .iter()
        .map(|s| respond_var_payload(s, fx.c, b"a longer payload", &req.req, &mut rng).unwrap())
        .collect();
    let tk = finalize(&st, &resps).unwrap();
    assert!(verify_var_payload(&fx.vk, fx.c, b"a longer payload", &tk));
    assert!(!verify_var_payload(&fx.vk, fx.c, b"another payload", &tk));
}

#[test]
fn measured_pastau_work_starts_from_its_own_registration() {
    let fx = make_fixture(3, 2);
    let mut work = PasWork::prepare(&fx, Purpose::Report, true, 3, 2).unwrap();
    let mut twin = PasWork::prepare(&fx, Purpose::Report, true, 3, 2).unwrap();
    assert_eq!(work.msg.server_id, 1);
    assert_eq!(work.msg.h_i, twin.msg.h_i);
    let mut server = fx.servers[0].copy();
    work.run(&mut server, PasSp::Respond, true);
    twin.rng.take_array::<24>();
    assert_eq!(work.rng.take_array::<8>(), twin.rng.take_array::<8>());
    assert_eq!(work.upd_rng.take_array::<8>(), twin.upd_rng.take_array::<8>());
}
