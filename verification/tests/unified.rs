//! The command line, the grid of thresholds, and the merged results.
use spa_bench::engine::{parse_engine_args, Engine, OfflineSpec, Refused};
use spa_bench::engine_grid::{
    augsso_thresholds, ceil_pct, effective_unavailable, pastau_thresholds, selected_links,
    baseline_plan, quorum_plan, tsp_values_for, wants_kind, Link, Step,
};
use spa_bench::net_phases::Op;
use spa_bench::unified::{
    parse_kinds, parse_list, parse_offline, parse_schemes, Kind, Offline, Scheme,
};
use spa_bench::unified_config::{parse_args, Config, LinkText};
use spa_bench::unified_plan::{
    common_args, join_numbers, merge_rows, network_profile, plan_lines, scheme_args,
    selected_kinds, temporary_name,
};
use spa_bench::unified_run::{has_work, thresholds, validate, LinkFault};

fn texts(v: &[&str]) -> Vec<String> {
    v.iter().map(|s| s.to_string()).collect()
}

fn config(v: &[&str]) -> Config {
    parse_args(texts(v)).unwrap()
}

#[test]
fn exact_grid_is_valid() {
    let cfg = parse_args(vec![
        "--nsp".into(),
        "20".into(),
        "--tsp".into(),
        "11".into(),
        "--offline".into(),
        "max".into(),
    ])
    .unwrap();
    assert!(validate(&cfg, None, None).is_ok());
    assert_eq!(thresholds(&cfg).unwrap(), vec![(20, 11)]);
}

#[test]
fn invalid_absolute_threshold_is_rejected() {
    let cfg = parse_args(vec!["--nsp".into(), "5".into(), "--tsp".into(), "6".into()]).unwrap();
    assert!(validate(&cfg, None, None).is_err());
}

#[test]
fn explicit_offline_count_is_bounded_by_quorum() {
    let cfg = parse_args(vec![
        "--scheme".into(),
        "upspa-quorum".into(),
        "--nsp".into(),
        "20".into(),
        "--tsp".into(),
        "11".into(),
        "--offline".into(),
        "5".into(),
    ])
    .unwrap();
    assert!(validate(&cfg, None, None).is_err());
}

#[test]
fn network_profile_is_derived_from_operation_name() {
    assert_eq!(network_profile("lan_auth_total"), "lan");
    assert_eq!(network_profile("auth_wan"), "wan");
    assert_eq!(network_profile("auth"), "none");
}

#[test]
fn network_profile_needs_a_whole_part() {
    assert_eq!(network_profile("plan_auth"), "none");
    assert_eq!(network_profile("wan_lan"), "lan");
    assert_eq!(network_profile(""), "none");
}

#[test]
fn defaults_are_those_of_the_manual() {
    let cfg = config(&[]);
    assert_eq!(cfg.nsp, vec![20, 40, 60]);
    assert_eq!(cfg.tsp, None);
    assert_eq!(cfg.tsp_pct, Some(vec![60]));
    assert_eq!(cfg.sample_size, 200);
    assert_eq!(cfg.warmup_iters, 50);
    assert_eq!(cfg.proc_warmup, 200);
    assert_eq!(cfg.proc_samples, 1000);
    assert_eq!(cfg.overhead_bytes, 64);
    assert_eq!(cfg.offline, Offline::Max);
    assert_eq!(cfg.pwdupd, "v2");
    assert_eq!(cfg.out, "results/unified_bench.dat");
    assert_eq!(cfg.lan.rtt_ms, "0.5");
    assert_eq!(cfg.wan.bw_mbps, "50");
    assert_eq!(cfg.schemes.len(), 4);
    assert!(validate(&cfg, None, None).is_ok());
    assert_eq!(thresholds(&cfg).unwrap(), vec![(20, 12), (40, 24), (60, 36)]);
}

#[test]
fn the_last_threshold_mode_counts() {
    let cfg = config(&["--tsp", "3", "--tsp-pct", "50,51", "--nsp", "5"]);
    assert_eq!(cfg.tsp, None);
    assert_eq!(thresholds(&cfg).unwrap(), vec![(5, 3), (5, 3)]);
    let cfg = config(&["--tsp-pct", "50", "--tsp", "2,4", "--nsp", "4,7"]);
    assert_eq!(cfg.tsp_pct, None);
    assert_eq!(thresholds(&cfg).unwrap(), vec![(4, 2), (4, 4), (7, 2), (7, 4)]);
}

#[test]
fn bad_arguments_are_named() {
    assert_eq!(
        parse_args(texts(&["--nope"])).unwrap_err(),
        "unknown argument '--nope'; use --help"
    );
    assert_eq!(parse_args(texts(&["--nsp"])).unwrap_err(), "missing value for --nsp");
    assert_eq!(
        parse_args(texts(&["--nsp", "3,x"])).unwrap_err(),
        "invalid value 'x' for nsp"
    );
    assert_eq!(
        parse_args(texts(&["--nsp", " , "])).unwrap_err(),
        "nsp requires at least one value"
    );
    assert_eq!(
        parse_args(texts(&["--sample-size", "-1"])).unwrap_err(),
        "invalid value '-1' for --sample-size"
    );
    assert_eq!(
        parse_args(texts(&["--lan-rtt-ms", "fast"])).unwrap_err(),
        "invalid value 'fast' for --lan-rtt-ms"
    );
    assert_eq!(
        parse_args(texts(&["--offline", "many"])).unwrap_err(),
        "--offline must be max, none, or a nonnegative integer"
    );
    assert!(config(&["--help", "--nope"]).help);
}

#[test]
fn floating_point_numbers_are_kept_as_written() {
    let cfg = config(&["--lan-rtt-ms", "1e-3", "--wan-bw-mbps", "inf", "--wan-jitter-ms", ".5"]);
    assert_eq!(cfg.lan.rtt_ms, "1e-3");
    assert_eq!(cfg.wan.bw_mbps, "inf");
    assert_eq!(cfg.wan.jitter_ms, ".5");
    assert!(parse_args(texts(&["--lan-rtt-ms", "."])).is_err());
    assert!(parse_args(texts(&["--lan-rtt-ms", "1e"])).is_err());
}

#[test]
fn schemes_and_kinds_are_read() {
    assert_eq!(
        parse_schemes("augsso, upspa-quorum,augsso").unwrap(),
        vec![Scheme::AugSso, Scheme::UpSpaQuorum]
    );
    assert_eq!(parse_schemes("all").unwrap().len(), 4);
    assert!(parse_schemes("nothing").is_err());
    let kinds = parse_kinds("full-net,prim").unwrap();
    assert!(kinds.contains(Kind::FullNet));
    assert!(kinds.contains(Kind::Prim));
    assert!(!kinds.contains(Kind::Proto));
    assert!(has_work(Scheme::AugSso, &kinds));
    assert!(has_work(Scheme::UpSpaQuorum, &kinds));
    assert!(!has_work(Scheme::UpSpaQuorum, &parse_kinds("prim").unwrap()));
    assert!(parse_kinds("speed").is_err());
}

#[test]
fn offline_counts_are_read() {
    assert_eq!(parse_offline("MAX").unwrap(), Offline::Max);
    assert_eq!(parse_offline("none").unwrap(), Offline::Nobody);
    assert_eq!(parse_offline("+7").unwrap(), Offline::Count(7));
    assert!(parse_offline("").is_err());
}

#[test]
fn refusals_come_in_order() {
    let ok = |v: &[&str]| validate(&config(v), None, None);
    assert_eq!(ok(&["--nsp", "0,3"]).unwrap_err(), "all --nsp values must be positive");
    assert_eq!(
        ok(&["--sample-size", "0"]).unwrap_err(),
        "--sample-size and --proc-samples must be positive"
    );
    assert_eq!(ok(&["--net", "mesh"]).unwrap_err(), "--net must be lan, wan, or all");
    assert_eq!(ok(&["--pwdupd", "v3"]).unwrap_err(), "--pwdupd must be v1, v2, or both");
    assert_eq!(
        ok(&["--ops", "reg,login"]).unwrap_err(),
        "--ops must contain only reg, secupd, pwdupd, or all"
    );
    for list in ["login,all", "all,foo", "all,reg", "reg,all", ""] {
        assert_eq!(
            ok(&["--ops", list]).unwrap_err(),
            "--ops must contain only reg, secupd, pwdupd, or all"
        );
    }
    assert!(ok(&["--ops", " All "]).is_ok());
    assert!(ok(&["--ops", " reg , SECUPD"]).is_ok());
    assert_eq!(
        ok(&["--nsp", "5", "--tsp", "6"]).unwrap_err(),
        "tsp=6 is invalid for nsp=5; require 1 <= tsp <= nsp"
    );
    assert_eq!(
        ok(&["--tsp-pct", "101"]).unwrap_err(),
        "tsp percentage 101 is outside 1..=100"
    );
    assert_eq!(
        ok(&["--nsp", "20", "--tsp", "11", "--offline", "5"]).unwrap_err(),
        "--offline 5 exceeds the admissible maximum 4 for nsp=20, tsp=11"
    );
    assert!(ok(&["--nsp", "20", "--tsp", "11", "--offline", "4"]).is_ok());
    assert!(ok(&["--scheme", "augsso", "--nsp", "20", "--tsp", "11", "--offline", "5"]).is_ok());
    assert_eq!(
        ok(&["--scheme", "upspa-quorum", "--kind", "prim"]).unwrap_err(),
        "the selected schemes and kinds produce no benchmark rows"
    );
    assert_eq!(
        validate(&config(&[]), Some(LinkFault::Rtt), None).unwrap_err(),
        "LAN RTT must be finite and nonnegative"
    );
    assert_eq!(
        validate(&config(&[]), None, Some(LinkFault::Jitter)).unwrap_err(),
        "WAN jitter must be finite and nonnegative"
    );
    assert_eq!(
        validate(&config(&[]), None, Some(LinkFault::Bandwidth)).unwrap_err(),
        "WAN bandwidth must be finite and positive"
    );
}

fn link(a: &str, b: &str, c: &str) -> LinkText {
    LinkText { rtt_ms: a.to_string(), jitter_ms: b.to_string(), bw_mbps: c.to_string() }
}

#[test]
fn schemes_get_their_arguments() {
    let cfg = config(&["--kind", "full-net,proto", "--nsp", "3,4", "--tsp", "2", "--rng"]);
    let lan = link("1", "2", "3");
    let wan = link("4", "5", "6");
    let common = common_args(&cfg, &lan, &wan, "out.dat", "full_net");
    assert_eq!(common.len(), 28);
    assert_eq!(common[0], "--kind");
    assert_eq!(common[1], "full-net");
    assert_eq!(common[5], "3,4");
    assert_eq!(common[11], "1");
    assert_eq!(common[21], "6");
    assert_eq!(common[25], "out.dat");
    assert_eq!(common[26], "--tsp");
    assert_eq!(common[27], "2");
    let augsso = scheme_args(Scheme::AugSso, &cfg, &lan, &wan, "o");
    assert_eq!(augsso[0], "bench_augsso");
    assert_eq!(augsso[2], "proto");
    assert_eq!(augsso[augsso.len() - 1], "--rng-in-timed");
    let upspa = scheme_args(Scheme::UpSpa, &cfg, &lan, &wan, "o");
    assert_eq!(upspa[28..32].to_vec(), texts(&["--scheme", "upspa", "--pwdupd", "v2"]));
    let quorum = scheme_args(Scheme::UpSpaQuorum, &cfg, &lan, &wan, "o");
    assert_eq!(quorum[1], "full-net");
    assert_eq!(quorum[28..32].to_vec(), texts(&["--ops", "all", "--offline", "max"]));
    let spaced = config(&["--ops", " all ", "--nsp", "3", "--tsp", "2"]);
    let spaced = scheme_args(Scheme::UpSpaQuorum, &spaced, &lan, &wan, "o");
    assert_eq!(spaced[28..30].to_vec(), texts(&["--ops", " all "]));
    assert!(matches!(
        parse_engine_args(Engine::Quorum, &spaced),
        Err(Refused::UnknownOp(o)) if o == "all"
    ));
    let list = config(&["--ops", " reg , SECUPD", "--nsp", "3", "--tsp", "2"]);
    let list = scheme_args(Scheme::UpSpaQuorum, &list, &lan, &wan, "o");
    assert_eq!(list[29], " reg , secupd");
    assert_eq!(
        parse_engine_args(Engine::Quorum, &list).unwrap().ops,
        texts(&["reg", "secupd"])
    );
    let engine = parse_engine_args(Engine::AugSso, &augsso).unwrap();
    assert_eq!(engine.nsp_list, vec![3, 4]);
    assert_eq!(engine.tsp_list, Some(vec![2]));
    assert!(engine.rng_in_timed);
    assert_eq!(engine.lan.rtt_ms, "1");
}

#[test]
fn selections_are_named() {
    let all = vec![Kind::Proto, Kind::Prim];
    assert_eq!(selected_kinds(&parse_kinds("all").unwrap(), &all), "all");
    assert_eq!(selected_kinds(&parse_kinds("prim").unwrap(), &all), "prim");
    assert_eq!(join_numbers(&vec![1, 20, 300]), "1,20,300");
    assert_eq!(join_numbers(&vec![]), "");
    assert_eq!(
        temporary_name("bench.dat", Scheme::PasTaU, 77),
        ".bench.dat.pastau.77.tmp"
    );
}

#[test]
fn plans_are_printed_in_lines() {
    let cfg = config(&[
        "--scheme", "augsso,pastau", "--kind", "sp,full,net", "--nsp", "5", "--tsp", "3", "--out",
        "x.dat",
    ]);
    assert_eq!(
        plan_lines(&cfg),
        texts(&[
            "schemes=augsso,pastau",
            "kinds=full,net,sp",
            "nsp=5",
            "tsp=3",
            "samples=200 warmup=50",
            "proc_samples=1000 proc_warmup=200",
            "net=all offline=max out=x.dat",
        ])
    );
}

#[test]
fn rows_are_merged_into_common_columns() {
    let baseline = "header\nupspa net auth_lan 0 20 12 200 50 1 2 3 4 5.0 6.0\n\n  \n";
    let (rows, bad) = merge_rows(Scheme::UpSpa, "p", baseline);
    assert_eq!(bad, None);
    assert_eq!(
        rows,
        texts(&["upspa net auth_lan lan 0 20 12 0 0 200 50 1 2 3 4 5.0 6.0"])
    );
    let quorum = "header\r\nupspa_abd full_net reg wan 20 11 16 4 200 50 1 2 3 4 5.0 6.0\r\n";
    let (rows, bad) = merge_rows(Scheme::UpSpaQuorum, "p", quorum);
    assert_eq!(bad, None);
    assert_eq!(
        rows,
        texts(&["upspa_quorum full_net reg wan 0 20 11 16 4 200 50 1 2 3 4 5.0 6.0"])
    );
    assert_eq!(rows[0].split(' ').count(), 17);
}

#[test]
fn merging_stops_at_a_bad_row() {
    let text = "h\na b c d e f g h i j k l m n\na b\nx\n";
    let (rows, bad) = merge_rows(Scheme::AugSso, "dir/file", text);
    assert_eq!(rows.len(), 1);
    assert_eq!(bad, Some("invalid baseline row at dir/file:3".to_string()));
    let (rows, bad) = merge_rows(Scheme::UpSpaQuorum, "q", "h\na b c\n");
    assert!(rows.is_empty());
    assert_eq!(bad, Some("invalid quorum row at q:2".to_string()));
    assert_eq!(merge_rows(Scheme::AugSso, "q", "").1, None);
}

#[test]
fn lists_keep_their_bounds() {
    assert_eq!(parse_list("1, 2,,3", "x", 3).unwrap(), vec![1, 2, 3]);
    assert!(parse_list("4", "x", 3).is_err());
    assert!(parse_list("99999999999999999999999", "x", u64::MAX).is_err());
}

#[test]
fn engines_read_their_arguments() {
    let cfg = parse_engine_args(Engine::PasTaU, &texts(&["p", "--kind", "NET, full", "--net", "wan,lan,x"]))
        .unwrap();
    assert!(wants_kind(&cfg, "net"));
    assert!(wants_kind(&cfg, "full"));
    assert!(!wants_kind(&cfg, "prim"));
    assert_eq!(selected_links(Engine::PasTaU, &cfg), Some(vec![Link::Wan, Link::Lan]));
    assert_eq!(cfg.proc_samples, 400);
    assert_eq!(cfg.out_path, "pastau_bench.txt");
    let cfg = parse_engine_args(Engine::Quorum, &texts(&["--kind", "ALL", "--ops", "pwdupd"])).unwrap();
    assert_eq!(cfg.kinds, texts(&["full_no_net", "full_net", "quorum_overhead"]));
    assert_eq!(cfg.ops, texts(&["pwdupd"]));
    assert_eq!(selected_links(Engine::Quorum, &cfg), Some(vec![Link::Lan, Link::Wan]));
    let cfg = parse_engine_args(Engine::AugSso, &texts(&["a", "--net", "mesh"])).unwrap();
    assert_eq!(selected_links(Engine::AugSso, &cfg), None);
}

#[test]
fn engines_refuse_what_they_do_not_know() {
    let said = |e: Engine, v: &[&str]| parse_engine_args(e, &texts(v)).unwrap_err().message(e);
    assert_eq!(said(Engine::AugSso, &["a", "--ops", "reg"]), "Unknown arg: --ops");
    assert_eq!(said(Engine::PasTaU, &["a", "--samples", "3"]), "Unknown flag: --samples");
    assert_eq!(
        said(Engine::Quorum, &["--rng-in-timed"]),
        "unknown argument: --rng-in-timed (use --help)"
    );
    assert_eq!(said(Engine::Quorum, &["--kind"]), "missing --kind value");
    assert_eq!(said(Engine::AugSso, &["a", "--nsp", "x"]), "bad integer");
    assert_eq!(said(Engine::AugSso, &["a", "--proc-warmup", "x"]), "bad proc_warmup");
    assert_eq!(said(Engine::PasTaU, &["a", "--proc-warmup", "x"]), "bad proc-warmup");
    assert_eq!(said(Engine::Quorum, &["--lan-rtt-ms", "x"]), "bad LAN RTT");
    assert_eq!(
        said(Engine::Quorum, &["--offline", "x"]),
        "bad --offline value; use max, none, or a nonnegative integer"
    );
    assert_eq!(
        said(Engine::Quorum, &["--kind", "net"]),
        "unknown --kind 'net'; use full-no-net, full-net, quorum-overhead, or all"
    );
    assert_eq!(
        said(Engine::Quorum, &["--ops", "login"]),
        "unknown --ops 'login'; use reg,secupd,pwdupd, or all"
    );
    assert!(matches!(
        parse_engine_args(Engine::Quorum, &texts(&["-h", "--nope"])),
        Err(Refused::Help)
    ));
}

#[test]
fn engines_choose_thresholds() {
    assert_eq!(ceil_pct(20, 55), 11);
    assert_eq!(ceil_pct(3, 34), 2);
    let cfg = parse_engine_args(Engine::PasTaU, &texts(&["p", "--tsp", "9,2,2,0,3"])).unwrap();
    assert_eq!(pastau_thresholds(&cfg, 5), vec![2, 3]);
    let cfg = parse_engine_args(Engine::PasTaU, &texts(&["p", "--tsp-pct", "200,0,50"])).unwrap();
    assert_eq!(pastau_thresholds(&cfg, 5), vec![1, 3, 5]);
    let cfg = parse_engine_args(Engine::AugSso, &texts(&["a", "--tsp", "9,2,2"])).unwrap();
    assert_eq!(augsso_thresholds(&cfg, 5), vec![9, 2, 2]);
    let cfg = parse_engine_args(Engine::AugSso, &texts(&["a"])).unwrap();
    assert_eq!(augsso_thresholds(&cfg, 5), vec![3]);
    let cfg = parse_engine_args(Engine::Quorum, &texts(&[])).unwrap();
    assert_eq!(tsp_values_for(20, &cfg).unwrap(), vec![12, 16, 20]);
    let cfg = parse_engine_args(Engine::Quorum, &texts(&["--tsp", "11,21,11"])).unwrap();
    assert_eq!(
        tsp_values_for(20, &cfg).unwrap_err(),
        "invalid ABD-style threshold for nsp=20: tsp=21 is not allowed; require 1 <= tsp <= nsp"
    );
    assert_eq!(tsp_values_for(30, &cfg).unwrap(), vec![11, 21]);
}

#[test]
fn engines_bound_unavailability() {
    assert_eq!(effective_unavailable(20, 11, &OfflineSpec::Max), Ok(4));
    assert_eq!(effective_unavailable(20, 11, &OfflineSpec::Count(3)), Ok(3));
    assert_eq!(
        effective_unavailable(20, 11, &OfflineSpec::Count(5)).unwrap_err(),
        "invalid ABD-style unavailability for nsp=20, tsp=11, qsp=16: offline=5 leaves only 15 \
         online providers; maximum executable offline is 4"
    );
    assert_eq!(OfflineSpec::parse(" Quorum_Max "), Some(OfflineSpec::Max));
    assert_eq!(OfflineSpec::parse("zero"), Some(OfflineSpec::Count(0)));
    assert_eq!(OfflineSpec::parse("x"), None);
    assert_eq!(Op::named("secupd"), Some(Op::SecUpd));
    assert_eq!(Op::named("login"), None);
    assert_eq!(Op::PwdUpd.name(), "pwdupd");
}

#[test]
fn steps_come_in_order() {
    let read = |e: Engine, v: &[&str]| parse_engine_args(e, &texts(v)).unwrap();
    let cfg = read(Engine::PasTaU, &["a", "--kind", "all", "--net", "wan,lan"]);
    let (w, l) = (Link::Wan, Link::Lan);
    assert_eq!(
        baseline_plan(Engine::PasTaU, &cfg, true),
        vec![
            Step::Client, Step::Servers, Step::ConstantPrimitives, Step::SizedPrimitives,
            Step::Network(w), Step::Network(l), Step::Whole(w), Step::Whole(l),
        ]
    );
    assert_eq!(
        baseline_plan(Engine::PasTaU, &cfg, false),
        vec![
            Step::Client, Step::Servers, Step::SizedPrimitives, Step::Network(w),
            Step::Network(l), Step::Whole(w), Step::Whole(l),
        ]
    );
    let cfg = read(Engine::AugSso, &["a", "--kind", "full,prim", "--net", "lan"]);
    assert_eq!(
        baseline_plan(Engine::AugSso, &cfg, true),
        vec![Step::Primitives, Step::Whole(l)]
    );
    let cfg = read(Engine::AugSso, &["a", "--kind", "sp,net,full", "--net", "mesh"]);
    assert_eq!(
        baseline_plan(Engine::AugSso, &cfg, true),
        vec![Step::Servers, Step::BadNetwork]
    );
    let cfg = read(Engine::AugSso, &["a", "--kind", "sp", "--net", "mesh"]);
    assert_eq!(baseline_plan(Engine::AugSso, &cfg, true), vec![Step::Servers]);
    let cfg = read(Engine::Quorum, &["--kind", "all"]);
    let ops = vec![Op::Reg, Op::PwdUpd];
    assert_eq!(
        quorum_plan(&cfg, &ops, &vec![l, w]),
        vec![
            Step::Phase(Op::Reg), Step::PhaseOver(Op::Reg, l), Step::PhaseOver(Op::Reg, w),
            Step::Phase(Op::PwdUpd), Step::PhaseOver(Op::PwdUpd, l),
            Step::PhaseOver(Op::PwdUpd, w), Step::Synchronization(Op::Reg),
            Step::Synchronization(Op::PwdUpd),
        ]
    );
    let cfg = read(Engine::Quorum, &["--kind", "quorum"]);
    assert_eq!(
        quorum_plan(&cfg, &ops, &vec![l]),
        vec![Step::Synchronization(Op::Reg), Step::Synchronization(Op::PwdUpd)]
    );
}
