//! What the engines measure: which setting an argument sets, which thresholds are run, on which
//! networks, and in which order.
use vstd::prelude::*;

use crate::engine::{
    engine_defaults, engine_flag, engine_from, engine_given, engine_settings, nets_given,
    ops_given, quorum_kind, quorum_op, unknown_kind, unknown_op, Engine, EngineState,
    OfflineSpec, Refusal,
};
use crate::engine_grid::{
    augsso_grid, baseline_steps, clamped_pct, distinct_is_strict, first_bad, given_list, in_range,
    links, listed_links, pastau_grid, pct_thresholds, quorum_grid, quorum_steps, Link, Step,
};
use crate::float_text::is_float;
use crate::net_phases::Op;
use crate::stats::{in_order, lemma_in_order};
use crate::text::{lower, parsed};
use crate::unified::numbers_of;
use crate::unified_config::{Flag, LinkState};

verus! {

/// A percentage of servers is the least number that is at least that share, and no fewer than
/// one and no more than all.
pub proof fn percentages_round_up(nsp: int, pct: int)
    requires
        1 <= nsp,
        0 <= pct,
    ensures
        1 <= clamped_pct(nsp, pct) <= nsp,
        1 <= pct <= 100 ==> 100 * clamped_pct(nsp, pct) >= nsp * pct && 100 * (clamped_pct(
            nsp,
            pct,
        ) - 1) < nsp * pct,
        pct == 0 ==> clamped_pct(nsp, pct) == 1,
        pct >= 100 ==> clamped_pct(nsp, pct) == nsp,
{
    assert(1 <= pct <= 100 ==> 0 < nsp * pct <= nsp * 100) by (nonlinear_arith)
        requires
            nsp >= 1,
    ;
    assert(pct >= 100 ==> nsp * pct >= nsp * 100) by (nonlinear_arith)
        requires
            nsp >= 1,
    ;
    assert(pct == 0 ==> nsp * pct == 0) by (nonlinear_arith);
}

proof fn lemma_in_range(nsp: int, v: Seq<nat>, k: int, x: int)
    requires
        0 <= k <= v.len(),
    ensures
        in_range(nsp, v, k).contains(x) <==> 1 <= x <= nsp && exists|i: int|
            0 <= i < k && #[trigger] v[i] == x,
    decreases k,
{
    let now = in_range(nsp, v, k);
    if k > 0 {
        lemma_in_range(nsp, v, k - 1, x);
        let before = in_range(nsp, v, k - 1);
        if now.contains(x) {
            let j = now.index_of(x);
            if j < before.len() {
                assert(before[j] == x);
                assert(before.contains(x));
            } else {
                assert(v[k - 1] == x);
            }
        }
        if 1 <= x <= nsp && exists|i: int| 0 <= i < k && #[trigger] v[i] == x {
            let i = choose|i: int| 0 <= i < k && #[trigger] v[i] == x;
            if i == k - 1 {
                assert(now[before.len() as int] == x);
            } else {
                assert(before.contains(x));
                let j = before.index_of(x);
                assert(now[j] == x);
            }
        }
    }
}

/// The PAS-TA-U engine runs each threshold once, in ascending order: exactly those given that lie
/// between one and the number of servers, and the percentages.
pub proof fn pastau_thresholds_are_those_asked(c: EngineState, nsp: int, x: int)
    ensures
        forall|i: int, j: int|
            0 <= i < j < pastau_grid(c, nsp).len() ==> #[trigger] pastau_grid(c, nsp)[i]
                < #[trigger] pastau_grid(c, nsp)[j],
        pastau_grid(c, nsp).contains(x) <==> (1 <= x <= nsp && exists|i: int|
            0 <= i < given_list(c.tsp_list).len() && #[trigger] given_list(c.tsp_list)[i] == x) || (
        exists|i: int|
            0 <= i < given_list(c.tsp_pct_list).len() && clamped_pct(
                nsp,
                #[trigger] given_list(c.tsp_pct_list)[i] as int,
            ) == x),
{
    let given = given_list(c.tsp_list);
    let pct = given_list(c.tsp_pct_list);
    let a = in_range(nsp, given, given.len() as int);
    let b = pct_thresholds(nsp, pct);
    let all = a + b;
    lemma_in_order(all);
    distinct_is_strict(in_order(all));
    lemma_in_range(nsp, given, given.len() as int, x);
    if all.contains(x) {
        let i = all.index_of(x);
        if i < a.len() {
            assert(a[i] == x);
            assert(a.contains(x));
        } else {
            assert(b[i - a.len()] == x);
            assert(clamped_pct(nsp, pct[i - a.len()] as int) == x);
        }
    }
    if a.contains(x) {
        let i = a.index_of(x);
        assert(all[i] == x);
    }
    if exists|i: int| 0 <= i < pct.len() && clamped_pct(nsp, #[trigger] pct[i] as int) == x {
        let i = choose|i: int| 0 <= i < pct.len() && clamped_pct(nsp, #[trigger] pct[i] as int) == x;
        assert(all[a.len() + i] == x);
    }
}

/// The AugSSO engine runs the given thresholds as they are, else the least numbers that are at
/// least the given shares, else half of the servers rounded up, in the order given.
pub proof fn augsso_thresholds_are_those_asked(c: EngineState, nsp: int, i: int)
    requires
        nsp >= 0,
        0 <= i < augsso_grid(c, nsp).len(),
    ensures
        c.tsp_list matches Some(v) ==> augsso_grid(c, nsp).len() == v.len() && augsso_grid(
            c,
            nsp,
        )[i] == v[i],
        c.tsp_list is None ==> (c.tsp_pct_list matches Some(p) ==> augsso_grid(c, nsp).len()
            == p.len() && 100 * augsso_grid(c, nsp)[i] >= nsp * p[i] && 100 * (augsso_grid(
            c,
            nsp,
        )[i] - 1) < nsp * p[i]),
        c.tsp_list is None && c.tsp_pct_list is None ==> augsso_grid(c, nsp).len() == 1 && 2
            * augsso_grid(c, nsp)[i] >= nsp && 2 * (augsso_grid(c, nsp)[i] - 1) < nsp,
{
    if c.tsp_list is None && c.tsp_pct_list is Some {
        let p = c.tsp_pct_list->Some_0;
        assert(nsp * p[i] >= 0) by (nonlinear_arith)
            requires
                nsp >= 0,
                p[i] >= 0,
        ;
    }
}

/// The quorum engine runs each threshold once, in ascending order: exactly those given, or else
/// the percentages; the first out of range is refused.
pub proof fn quorum_thresholds_are_those_asked(c: EngineState, nsp: int, x: int)
    ensures
        forall|i: int, j: int|
            0 <= i < j < quorum_grid(c, nsp).len() ==> #[trigger] quorum_grid(c, nsp)[i]
                < #[trigger] quorum_grid(c, nsp)[j],
        c.tsp_list matches Some(v) ==> (quorum_grid(c, nsp).contains(x) <==> exists|i: int|
            0 <= i < v.len() && #[trigger] v[i] == x),
        c.tsp_list is None ==> (quorum_grid(c, nsp).contains(x) <==> exists|i: int|
            0 <= i < given_list(c.tsp_pct_list).len() && clamped_pct(
                nsp,
                #[trigger] given_list(c.tsp_pct_list)[i] as int,
            ) == x),
{
    let pct = given_list(c.tsp_pct_list);
    let all = match c.tsp_list {
        Some(v) => Seq::new(v.len(), |i: int| v[i] as int),
        None => pct_thresholds(nsp, pct),
    };
    lemma_in_order(all);
    distinct_is_strict(in_order(all));
    if all.contains(x) {
        let i = all.index_of(x);
        assert(all[i] == x);
        if c.tsp_list is Some {
            assert(c.tsp_list->Some_0[i] == x);
        } else {
            assert(clamped_pct(nsp, pct[i] as int) == x);
        }
    }
    if c.tsp_list is Some {
        let v = c.tsp_list->Some_0;
        if exists|i: int| 0 <= i < v.len() && #[trigger] v[i] == x {
            let i = choose|i: int| 0 <= i < v.len() && #[trigger] v[i] == x;
            assert(all[i] == x);
        }
    } else if exists|i: int| 0 <= i < pct.len() && clamped_pct(nsp, #[trigger] pct[i] as int) == x {
        let i = choose|i: int| 0 <= i < pct.len() && clamped_pct(nsp, #[trigger] pct[i] as int) == x;
        assert(all[i] == x);
    }
}

/// A threshold is refused exactly where it does not lie between one and the number of servers,
/// and the first such is named.
pub proof fn first_bad_threshold_is_named(v: Seq<int>, nsp: int, k: int)
    requires
        0 <= k <= v.len(),
        forall|i: int| 0 <= i < v.len() ==> #[trigger] v[i] >= 0,
    ensures
        match first_bad(v, nsp, k) {
            None => forall|i: int| k <= i < v.len() ==> 1 <= #[trigger] v[i] <= nsp,
            Some(x) => exists|i: int|
                k <= i < v.len() && #[trigger] v[i] == x && !(1 <= x <= nsp) && forall|j: int|
                    k <= j < i ==> 1 <= #[trigger] v[j] <= nsp,
        },
    decreases v.len() - k,
{
    if k < v.len() {
        first_bad_threshold_is_named(v, nsp, k + 1);
        if !(1 <= v[k] <= nsp) {
            assert(v[k] == v[k]);
        } else if first_bad(v, nsp, k + 1) is Some {
            let x = first_bad(v, nsp, k + 1)->Some_0;
            let i = choose|i: int|
                k + 1 <= i < v.len() && #[trigger] v[i] == x && !(1 <= x <= nsp) && forall|j: int|
                    k + 1 <= j < i ==> 1 <= #[trigger] v[j] <= nsp;
            assert(v[i] == x);
        }
    }
}

/// The word for all networks stands for both. Else AugSSO and the quorum engine run the local
/// one or the wide one, and PAS-TA-U those listed, in the order of the list.
pub proof fn networks_are_those_asked(nets: Seq<Seq<char>>, k: int)
    requires
        0 < k <= nets.len(),
    ensures
        forall|e: Engine|
            nets.contains("all"@) ==> #[trigger] links(e, nets) == Some(
                seq![Link::Lan, Link::Wan],
            ),
        !nets.contains("all"@) && nets.contains("lan"@) ==> links(Engine::AugSso, nets) == Some(
            seq![Link::Lan],
        ) && links(Engine::Quorum, nets) == Some(seq![Link::Lan]),
        !nets.contains("all"@) && !nets.contains("lan"@) && nets.contains("wan"@) ==> links(
            Engine::AugSso,
            nets,
        ) == Some(seq![Link::Wan]) && links(Engine::Quorum, nets) == Some(seq![Link::Wan]),
        !nets.contains("all"@) && !nets.contains("lan"@) && !nets.contains("wan"@) ==> links(
            Engine::AugSso,
            nets,
        ) is None && links(Engine::Quorum, nets) is None,
        !nets.contains("all"@) ==> links(Engine::PasTaU, nets) == Some(
            listed_links(nets, nets.len() as int),
        ),
        nets[k - 1] == "lan"@ ==> listed_links(nets, k) == listed_links(nets, k - 1).push(
            Link::Lan,
        ),
        nets[k - 1] == "wan"@ ==> listed_links(nets, k) == listed_links(nets, k - 1).push(
            Link::Wan,
        ),
        nets[k - 1] != "lan"@ && nets[k - 1] != "wan"@ ==> listed_links(nets, k) == listed_links(
            nets,
            k - 1,
        ),
{
    reveal_strlit("lan");
    reveal_strlit("wan");
    assert("lan"@[0] != "wan"@[0]);
}

/// Where all kinds are asked for on both networks, a baseline engine measures the client, the
/// servers, the primitives, the networks and then the whole protocols.
pub proof fn baseline_measures_in_order(kinds: Seq<Seq<char>>, nets: Seq<Seq<char>>)
    requires
        kinds.contains("all"@),
        nets.contains("all"@),
    ensures
        baseline_steps(Engine::AugSso, kinds, nets, true) == seq![
            Step::Client,
            Step::Servers,
            Step::Primitives,
            Step::Network(Link::Lan),
            Step::Network(Link::Wan),
            Step::Whole(Link::Lan),
            Step::Whole(Link::Wan),
        ],
        baseline_steps(Engine::PasTaU, kinds, nets, true) == seq![
            Step::Client,
            Step::Servers,
            Step::ConstantPrimitives,
            Step::SizedPrimitives,
            Step::Network(Link::Lan),
            Step::Network(Link::Wan),
            Step::Whole(Link::Lan),
            Step::Whole(Link::Wan),
        ],
{
    assert(baseline_steps(Engine::AugSso, kinds, nets, true) =~= seq![
        Step::Client,
        Step::Servers,
        Step::Primitives,
        Step::Network(Link::Lan),
        Step::Network(Link::Wan),
        Step::Whole(Link::Lan),
        Step::Whole(Link::Wan),
    ]);
    assert(baseline_steps(Engine::PasTaU, kinds, nets, true) =~= seq![
        Step::Client,
        Step::Servers,
        Step::ConstantPrimitives,
        Step::SizedPrimitives,
        Step::Network(Link::Lan),
        Step::Network(Link::Wan),
        Step::Whole(Link::Lan),
        Step::Whole(Link::Wan),
    ]);
}

/// A kind is measured only where it or all are asked for.
pub proof fn only_kinds_asked_are_measured(
    e: Engine,
    kinds: Seq<Seq<char>>,
    nets: Seq<Seq<char>>,
    first: bool,
    s: Step,
)
    requires
        e != Engine::Quorum,
        !kinds.contains("all"@),
        baseline_steps(e, kinds, nets, first).contains(s),
    ensures
        s is Client ==> kinds.contains("proto"@),
        s is Servers ==> kinds.contains("sp"@),
        s is Primitives || s is ConstantPrimitives || s is SizedPrimitives ==> kinds.contains(
            "prim"@,
        ),
        s is Network ==> kinds.contains("net"@),
        s is Whole ==> kinds.contains("full"@),
{
    let v = baseline_steps(e, kinds, nets, first);
    let i = v.index_of(s);
    assert(v[i] == s);
}

/// The quorum engine measures each phase without a network and then over each network, phase
/// after phase, and then the bare synchronization of each phase.
pub proof fn quorum_measures_in_order(kinds: Seq<Seq<char>>, a: Op, b: Op)
    requires
        kinds.contains("full_no_net"@),
        kinds.contains("full_net"@),
        kinds.contains("quorum_overhead"@),
    ensures
        quorum_steps(kinds, seq![a, b], seq![Link::Lan, Link::Wan]) == seq![
            Step::Phase(a),
            Step::PhaseOver(a, Link::Lan),
            Step::PhaseOver(a, Link::Wan),
            Step::Phase(b),
            Step::PhaseOver(b, Link::Lan),
            Step::PhaseOver(b, Link::Wan),
            Step::Synchronization(a),
            Step::Synchronization(b),
        ],
{
    reveal_with_fuel(crate::engine_grid::phase_steps, 3);
    assert(quorum_steps(kinds, seq![a, b], seq![Link::Lan, Link::Wan]) =~= seq![
        Step::Phase(a),
        Step::PhaseOver(a, Link::Lan),
        Step::PhaseOver(a, Link::Wan),
        Step::Phase(b),
        Step::PhaseOver(b, Link::Lan),
        Step::PhaseOver(b, Link::Wan),
        Step::Synchronization(a),
        Step::Synchronization(b),
    ]);
}

/// Each argument with a value sets its own setting of an engine and leaves the others; lists of
/// thresholds and of percentages override each other; a value that cannot be read is refused.
pub proof fn engine_arguments_set_one_setting(e: Engine, c: EngineState, v: Seq<char>, n: nat)
    ensures
        parsed(v, usize::MAX as nat) == Some(n) ==> {
            &&& engine_given(e, c, Flag::SampleSize, v) == Some(EngineState { samples: n, ..c })
            &&& engine_given(e, c, Flag::WarmupIters, v) == Some(EngineState { warmup: n, ..c })
            &&& engine_given(e, c, Flag::ProcWarmup, v) == Some(
                EngineState { proc_warmup: n, ..c },
            )
            &&& engine_given(e, c, Flag::ProcSamples, v) == Some(
                EngineState { proc_samples: n, ..c },
            )
            &&& engine_given(e, c, Flag::OverheadBytes, v) == Some(
                EngineState { overhead_bytes: n, ..c },
            )
        },
        parsed(v, usize::MAX as nat) is None ==> {
            &&& engine_given(e, c, Flag::SampleSize, v) is None
            &&& engine_given(e, c, Flag::WarmupIters, v) is None
            &&& engine_given(e, c, Flag::ProcWarmup, v) is None
            &&& engine_given(e, c, Flag::ProcSamples, v) is None
            &&& engine_given(e, c, Flag::OverheadBytes, v) is None
        },
        is_float(v) ==> {
            &&& engine_given(e, c, Flag::LanRtt, v) == Some(
                EngineState { lan: LinkState { rtt_ms: v, ..c.lan }, ..c },
            )
            &&& engine_given(e, c, Flag::LanJitter, v) == Some(
                EngineState { lan: LinkState { jitter_ms: v, ..c.lan }, ..c },
            )
            &&& engine_given(e, c, Flag::LanBandwidth, v) == Some(
                EngineState { lan: LinkState { bw_mbps: v, ..c.lan }, ..c },
            )
            &&& engine_given(e, c, Flag::WanRtt, v) == Some(
                EngineState { wan: LinkState { rtt_ms: v, ..c.wan }, ..c },
            )
            &&& engine_given(e, c, Flag::WanJitter, v) == Some(
                EngineState { wan: LinkState { jitter_ms: v, ..c.wan }, ..c },
            )
            &&& engine_given(e, c, Flag::WanBandwidth, v) == Some(
                EngineState { wan: LinkState { bw_mbps: v, ..c.wan }, ..c },
            )
        },
        !is_float(v) ==> {
            &&& engine_given(e, c, Flag::LanRtt, v) is None
            &&& engine_given(e, c, Flag::LanJitter, v) is None
            &&& engine_given(e, c, Flag::LanBandwidth, v) is None
            &&& engine_given(e, c, Flag::WanRtt, v) is None
            &&& engine_given(e, c, Flag::WanJitter, v) is None
            &&& engine_given(e, c, Flag::WanBandwidth, v) is None
        },
        engine_given(e, c, Flag::Out, v) == Some(EngineState { out_path: v, ..c }),
        numbers_of(v, usize::MAX as nat, ""@) matches Ok(x) ==> {
            &&& engine_given(e, c, Flag::Nsp, v) == Some(EngineState { nsp_list: x, ..c })
            &&& engine_given(e, c, Flag::Tsp, v) == Some(
                EngineState { tsp_list: Some(x), tsp_pct_list: None, ..c },
            )
        },
        numbers_of(v, u32::MAX as nat, ""@) matches Ok(x) ==> (e != Engine::AugSso ==> engine_given(
            e,
            c,
            Flag::TspPct,
            v,
        ) == Some(EngineState { tsp_pct_list: Some(x), tsp_list: None, ..c })),
        numbers_of(v, usize::MAX as nat, ""@) matches Ok(x) ==> (e == Engine::AugSso
            ==> engine_given(e, c, Flag::TspPct, v) == Some(
            EngineState { tsp_pct_list: Some(x), tsp_list: None, ..c },
        )),
{
}

/// What one network is called is read as AugSSO and the quorum engine take it.
pub proof fn engines_read_networks(v: Seq<char>)
    ensures
        nets_given(Engine::AugSso, v) == seq![v],
        nets_given(Engine::Quorum, v) == seq![lower(v)],
        lower(v) == "all"@ ==> ops_given(v) == seq!["reg"@, "secupd"@, "pwdupd"@],
{
}

/// Arguments are read one after the other from the defaults of the engine, behind the program's
/// name for the baseline engines; a value belongs to the argument before it.
pub proof fn engine_arguments_are_read_in_turn(
    e: Engine,
    c: EngineState,
    args: Seq<Seq<char>>,
    i: int,
    f: Flag,
)
    requires
        0 <= i < args.len(),
    ensures
        engine_flag(e, args[i]) is None ==> engine_from(e, c, args, i) == Err::<
            EngineState,
            Refusal,
        >(Refusal::Unknown(args[i])),
        engine_flag(e, args[i]) == Some(Flag::Help) ==> engine_from(e, c, args, i) == Err::<
            EngineState,
            Refusal,
        >(Refusal::Help),
        engine_flag(e, args[i]) == Some(Flag::RngInTimed) ==> engine_from(e, c, args, i)
            == engine_from(e, EngineState { rng_in_timed: true, ..c }, args, i + 1),
        engine_flag(e, args[i]) == Some(f) && f != Flag::Help && f != Flag::RngInTimed && f
            != Flag::DryRun && f != Flag::Ignored ==> {
            &&& i + 1 == args.len() ==> engine_from(e, c, args, i) == Err::<EngineState, Refusal>(
                Refusal::Missing(args[i]),
            )
            &&& i + 1 < args.len() ==> (engine_given(e, c, f, args[i + 1]) matches Some(d)
                ==> engine_from(e, c, args, i) == engine_from(e, d, args, i + 2))
            &&& i + 1 < args.len() && engine_given(e, c, f, args[i + 1]) is None ==> (engine_from(
                e,
                c,
                args,
                i,
            ) matches Err(r) && r is Bad)
        },
        engine_from(e, c, args, args.len() as int) == Ok::<EngineState, Refusal>(c),
        e != Engine::Quorum ==> engine_settings(e, args) == engine_from(
            e,
            engine_defaults(e),
            args,
            1,
        ),
{
}

/// The quorum engine takes these kinds and phases and no others, and names the first other.
pub proof fn quorum_names_are_known(v: Seq<Seq<char>>, i: int, s: Seq<char>)
    requires
        0 <= i <= v.len(),
    ensures
        quorum_op(s) <==> s == "reg"@ || s == "secupd"@ || s == "pwdupd"@,
        quorum_kind(s) <==> s == "full_no_net"@ || s == "full_net"@ || s == "quorum_overhead"@ || s
            == "quorum"@,
        match unknown_op(v, i) {
            None => forall|k: int| i <= k < v.len() ==> quorum_op(#[trigger] v[k]),
            Some(x) => exists|k: int|
                i <= k < v.len() && #[trigger] v[k] == x && !quorum_op(x) && forall|j: int|
                    i <= j < k ==> quorum_op(#[trigger] v[j]),
        },
        match unknown_kind(v, i) {
            None => forall|k: int| i <= k < v.len() ==> quorum_kind(#[trigger] v[k]),
            Some(x) => exists|k: int|
                i <= k < v.len() && #[trigger] v[k] == x && !quorum_kind(x) && forall|j: int|
                    i <= j < k ==> quorum_kind(#[trigger] v[j]),
        },
    decreases v.len() - i,
{
    if i < v.len() {
        quorum_names_are_known(v, i + 1, s);
        if !quorum_op(v[i]) {
            assert(v[i] == unknown_op(v, i)->Some_0);
        }
        if !quorum_kind(v[i]) {
            assert(v[i] == unknown_kind(v, i)->Some_0);
        }
    }
}

/// Without arguments the engines measure all kinds on both networks with these numbers.
pub proof fn engine_defaults_are_documented()
    ensures
        ({
            let a = engine_defaults(Engine::AugSso);
            let p = engine_defaults(Engine::PasTaU);
            let q = engine_defaults(Engine::Quorum);
            &&& a.kinds == seq!["all"@] && p.kinds == seq!["all"@] && q.kinds == seq![
                "full_no_net"@,
                "full_net"@,
                "quorum_overhead"@,
            ]
            &&& a.nets == seq!["all"@] && p.nets == seq!["all"@] && q.nets == seq!["all"@]
            &&& q.ops == seq!["reg"@, "secupd"@, "pwdupd"@]
            &&& a.nsp_list == seq![20nat, 40nat, 60nat] && p.nsp_list == seq![20nat, 40nat, 60nat]
                && q.nsp_list == seq![20nat, 40nat, 60nat, 80nat, 100nat]
            &&& a.tsp_list is None && p.tsp_list is None && q.tsp_list is None
            &&& a.tsp_pct_list == Some(seq![50nat]) && p.tsp_pct_list == Some(seq![50nat])
                && q.tsp_pct_list == Some(seq![60nat, 80nat, 100nat])
            &&& a.samples == 200 && p.samples == 200 && q.samples == 200
            &&& a.warmup == 50 && p.warmup == 50 && q.warmup == 50
            &&& a.proc_warmup == 50 && p.proc_warmup == 200
            &&& a.proc_samples == 200 && p.proc_samples == 400
            &&& a.out_path == "augsso_bench.txt"@ && p.out_path == "pastau_bench.txt"@
                && q.out_path == "abd_bench.dat"@
            &&& !a.rng_in_timed && !p.rng_in_timed
            &&& a.lan == (LinkState { rtt_ms: "1"@, jitter_ms: "0.5"@, bw_mbps: "1000"@ })
            &&& a.wan == (LinkState { rtt_ms: "50"@, jitter_ms: "5"@, bw_mbps: "50"@ })
            &&& p.lan == (LinkState { rtt_ms: "2"@, jitter_ms: "0.2"@, bw_mbps: "1000"@ })
            &&& p.wan == (LinkState { rtt_ms: "80"@, jitter_ms: "5"@, bw_mbps: "100"@ })
            &&& q.lan == (LinkState { rtt_ms: "0.6"@, jitter_ms: "0.05"@, bw_mbps: "1000"@ })
            &&& q.wan == (LinkState { rtt_ms: "80"@, jitter_ms: "5"@, bw_mbps: "100"@ })
            &&& a.overhead_bytes == 40 && p.overhead_bytes == 40 && q.overhead_bytes == 64
            &&& q.offline == OfflineSpec::Max
        }),
{
}

} // verus!
