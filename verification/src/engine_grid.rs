//! What the benchmark engines run: kinds, networks, thresholds and unavailable providers.
use vstd::prelude::*;

use crate::engine::{Engine, EngineConfig, EngineState, OfflineSpec};
use crate::net_phases::Op;
use crate::quorum::{max_executable_unavailable, quorum, valid_threshold};
use crate::stats::{ascends, in_order, short_ints, sort_short};
use crate::text::{append, chars_of, copy_text, is_text, number_text, numeral, texts};
use crate::unified::nats;

verus! {

/// A text is among others.
pub fn contains_text(v: &Vec<String>, s: &str) -> (r: bool)
    ensures
        r == texts(v@).contains(s@),
{
    let ghost g = texts(v@);
    let mut i: usize = 0;
    while i < v.len()
        invariant
            i <= v@.len(),
            g == texts(v@),
            forall|j: int| 0 <= j < i ==> #[trigger] g[j] != s@,
        decreases v@.len() - i,
    {
        assert(g[i as int] == v@[i as int]@);
        if is_text(chars_of(v[i].as_str()).as_slice(), s) {
            assert(g[i as int] == s@);
            return true;
        }
        i = i + 1;
    }
    false
}

/// Whether a kind is selected, by its name or by the word for all.
pub open spec fn wants(kinds: Seq<Seq<char>>, kind: Seq<char>) -> bool {
    kinds.contains("all"@) || kinds.contains(kind)
}

/// Whether a baseline engine is to measure a kind.
pub fn wants_kind(cfg: &EngineConfig, kind: &str) -> (r: bool)
    ensures
        r == wants(cfg@.kinds, kind@),
{
    contains_text(&cfg.kinds, "all") || contains_text(&cfg.kinds, kind)
}

/// One of the two networks.
#[derive(Clone, Copy, Debug, PartialEq, Eq, Structural)]
pub enum Link {
    Lan,
    Wan,
}

/// The networks that a list names, in its order. The word for all stands for both, and
/// other words for none.
pub open spec fn listed_links(v: Seq<Seq<char>>, k: int) -> Seq<Link>
    decreases k,
{
    if k <= 0 {
        Seq::empty()
    } else if v[k - 1] == "lan"@ {
        listed_links(v, k - 1).push(Link::Lan)
    } else if v[k - 1] == "wan"@ {
        listed_links(v, k - 1).push(Link::Wan)
    } else {
        listed_links(v, k - 1)
    }
}

/// The networks that an engine simulates; none if the selection is not valid.
pub open spec fn links(e: Engine, nets: Seq<Seq<char>>) -> Option<Seq<Link>> {
    if e == Engine::PasTaU {
        if nets.contains("all"@) {
            Some(seq![Link::Lan, Link::Wan])
        } else {
            Some(listed_links(nets, nets.len() as int))
        }
    } else if nets.contains("all"@) {
        Some(seq![Link::Lan, Link::Wan])
    } else if nets.contains("lan"@) {
        Some(seq![Link::Lan])
    } else if nets.contains("wan"@) {
        Some(seq![Link::Wan])
    } else {
        None
    }
}

/// The networks that an engine simulates.
pub fn selected_links(e: Engine, cfg: &EngineConfig) -> (r: Option<Vec<Link>>)
    ensures
        match r {
            Some(v) => links(e, cfg@.nets) == Some(v@),
            None => links(e, cfg@.nets) is None,
        },
{
    let ghost g = cfg@.nets;
    let both: Vec<Link> = vec![Link::Lan, Link::Wan];
    assert(both@ =~= seq![Link::Lan, Link::Wan]);
    if contains_text(&cfg.nets, "all") {
        return Some(both);
    }
    let mut v: Vec<Link> = Vec::new();
    if e != Engine::PasTaU {
        if contains_text(&cfg.nets, "lan") {
            v.push(Link::Lan);
            assert(v@ =~= seq![Link::Lan]);
            return Some(v);
        }
        if contains_text(&cfg.nets, "wan") {
            v.push(Link::Wan);
            assert(v@ =~= seq![Link::Wan]);
            return Some(v);
        }
        return None;
    }
    let mut k: usize = 0;
    assert(v@ =~= Seq::<Link>::empty());
    while k < cfg.nets.len()
        invariant
            k <= cfg.nets@.len(),
            g == texts(cfg.nets@),
            v@ == listed_links(g, k as int),
        decreases cfg.nets@.len() - k,
    {
        assert(g[k as int] == cfg.nets@[k as int]@);
        let c = chars_of(cfg.nets[k].as_str());
        let t = c.as_slice();
        if is_text(t, "lan") {
            v.push(Link::Lan);
        } else if is_text(t, "wan") {
            v.push(Link::Wan);
        }
        k = k + 1;
    }
    Some(v)
}

/// The smallest number that is at least `pct` percent of `n`.
pub fn ceil_pct(n: usize, pct: usize) -> (r: usize)
    requires
        n * pct + 99 <= usize::MAX,
    ensures
        r == (n * pct + 99) / 100,
        100 * r >= n * pct,
        r > 0 ==> 100 * (r - 1) < n * pct,
{
    assert(n * pct >= 0) by (nonlinear_arith);
    (n * pct + 99) / 100
}

/// Numbers in order without those that equal the one before.
pub open spec fn distinct(s: Seq<int>) -> Seq<int>
    decreases s.len(),
{
    if s.len() <= 1 {
        s
    } else if s[s.len() - 1] == s[s.len() - 2] {
        distinct(s.drop_last())
    } else {
        distinct(s.drop_last()).push(s.last())
    }
}

/// Of numbers in order, the distinct ones ascend strictly and are the same set.
pub proof fn distinct_is_strict(s: Seq<int>)
    requires
        ascends(s),
    ensures
        forall|i: int, j: int|
            0 <= i < j < distinct(s).len() ==> distinct(s)[i] < distinct(s)[j],
        forall|x: int| distinct(s).contains(x) <==> s.contains(x),
        s.len() > 0 ==> distinct(s).len() > 0 && distinct(s).last() == s.last(),
    decreases s.len(),
{
    if s.len() > 1 {
        let t = s.drop_last();
        assert(ascends(t));
        distinct_is_strict(t);
        let d = distinct(t);
        assert(d.last() == s[s.len() - 2]);
        assert forall|x: int| s.contains(x) <==> t.contains(x) || x == s.last() by {
            if s.contains(x) {
                let i = choose|i: int| 0 <= i < s.len() && s[i] == x;
                if i < t.len() {
                    assert(t[i] == x);
                }
            }
            if t.contains(x) {
                let i = choose|i: int| 0 <= i < t.len() && t[i] == x;
                assert(s[i] == x);
            }
            assert(s[s.len() - 1] == s.last());
        }
        if s[s.len() - 1] == s[s.len() - 2] {
            assert(t[t.len() - 1] == s.last());
            assert(t.contains(s.last()));
        } else {
            assert forall|i: int, j: int| 0 <= i < j < distinct(s).len() implies distinct(s)[i]
                < distinct(s)[j] by {
                if j == d.len() {
                    assert(d[i] <= d.last());
                    assert(s[s.len() - 2] <= s[s.len() - 1]);
                }
            }
            assert forall|x: int| distinct(s).contains(x) <==> s.contains(x) by {
                if distinct(s).contains(x) {
                    let i = choose|i: int| 0 <= i < distinct(s).len() && distinct(s)[i] == x;
                    if i < d.len() {
                        assert(d[i] == x);
                        assert(d.contains(x));
                    }
                }
                if s.contains(x) {
                    if t.contains(x) {
                        assert(d.contains(x));
                        let i = choose|i: int| 0 <= i < d.len() && d[i] == x;
                        assert(distinct(s)[i] == x);
                    } else {
                        assert(distinct(s)[d.len() as int] == x);
                    }
                }
            }
        }
    } else if s.len() == 1 {
        assert(distinct(s) == s);
    }
}

fn sorted_distinct(v: &Vec<u64>) -> (r: Vec<u64>)
    ensures
        short_ints(r@) == distinct(in_order(short_ints(v@))),
{
    let s = sort_short(v);
    let ghost g = in_order(short_ints(v@));
    let mut out: Vec<u64> = Vec::new();
    let mut k: usize = 0;
    assert(g.take(0) =~= Seq::<int>::empty());
    assert(short_ints(out@) =~= g.take(0));
    while k < s.len()
        invariant
            k <= s@.len(),
            g == short_ints(s@),
            g == in_order(short_ints(v@)),
            short_ints(out@) == distinct(g.take(k as int)),
        decreases s@.len() - k,
    {
        let ghost t = g.take(k + 1);
        proof {
            assert(t.drop_last() =~= g.take(k as int));
            assert(t.last() == s@[k as int]);
            if k > 0 {
                assert(t[t.len() - 2] == s@[k - 1]);
            }
        }
        if k == 0 || s[k] != s[k - 1] {
            let ghost before = out@;
            out.push(s[k]);
            proof {
                assert(short_ints(out@) =~= short_ints(before).push(s@[k as int] as int));
                if k == 0 {
                    assert(t =~= seq![s@[0] as int]);
                    assert(short_ints(out@) =~= t);
                }
            }
        }
        k = k + 1;
    }
    assert(g.take(k as int) =~= g);
    out
}

/// A percentage of `nsp`, rounded up and brought into `1..=nsp`.
pub open spec fn clamped_pct(nsp: int, pct: int) -> int {
    let t = (nsp * pct + 99) / 100;
    let least = if t < 1 {
        1
    } else {
        t
    };
    if least > nsp {
        nsp
    } else {
        least
    }
}

fn clamp_pct(nsp: u64, pct: u64) -> (r: u64)
    ensures
        r == clamped_pct(nsp as int, pct as int),
{
    assert(0 <= nsp * pct <= u64::MAX * u64::MAX) by (nonlinear_arith)
        requires
            0 <= nsp <= u64::MAX,
            0 <= pct <= u64::MAX,
    ;
    let t: u128 = (nsp as u128 * pct as u128 + 99) / 100;
    let least: u128 = if t < 1 {
        1
    } else {
        t
    };
    if least > nsp as u128 {
        nsp
    } else {
        least as u64
    }
}

/// The thresholds that percentages of `nsp` give.
pub open spec fn pct_thresholds(nsp: int, pct: Seq<nat>) -> Seq<int> {
    Seq::new(pct.len(), |i: int| clamped_pct(nsp, pct[i] as int))
}

/// The thresholds of the first `k` numbers that lie in `1..=nsp`.
pub open spec fn in_range(nsp: int, v: Seq<nat>, k: int) -> Seq<int>
    decreases k,
{
    if k <= 0 {
        Seq::empty()
    } else if 1 <= v[k - 1] <= nsp {
        in_range(nsp, v, k - 1).push(v[k - 1] as int)
    } else {
        in_range(nsp, v, k - 1)
    }
}

/// The numbers of an optional list.
pub open spec fn given_list(v: Option<Seq<nat>>) -> Seq<nat> {
    match v {
        Some(s) => s,
        None => Seq::empty(),
    }
}

/// The thresholds that the PAS-TA-U engine measures with `nsp` servers: those given that are
/// in range and the percentages, in order and each once.
pub open spec fn pastau_grid(c: EngineState, nsp: int) -> Seq<int> {
    let given = given_list(c.tsp_list);
    let pct = given_list(c.tsp_pct_list);
    distinct(in_order(in_range(nsp, given, given.len() as int) + pct_thresholds(nsp, pct)))
}

fn push_percentages(out: &mut Vec<u64>, nsp: u64, pct: &Vec<u64>)
    ensures
        short_ints(final(out)@) == short_ints(old(out)@) + pct_thresholds(nsp as int, nats(pct@)),
{
    let ghost before = short_ints(out@);
    let ghost p = pct_thresholds(nsp as int, nats(pct@));
    let mut k: usize = 0;
    assert(short_ints(out@) =~= before + p.take(0));
    while k < pct.len()
        invariant
            k <= pct@.len(),
            p == pct_thresholds(nsp as int, nats(pct@)),
            short_ints(out@) == before + p.take(k as int),
        decreases pct@.len() - k,
    {
        let ghost mid = short_ints(out@);
        let t = clamp_pct(nsp, pct[k]);
        out.push(t);
        proof {
            assert(p[k as int] == t);
            assert(short_ints(out@) =~= mid.push(t as int));
            assert(p.take(k + 1) =~= p.take(k as int).push(t as int));
            assert(short_ints(out@) =~= before + p.take(k + 1));
        }
        k = k + 1;
    }
    assert(p.take(k as int) =~= p);
}

/// The thresholds that the PAS-TA-U engine measures with `nsp` servers.
pub fn pastau_thresholds(cfg: &EngineConfig, nsp: u64) -> (r: Vec<u64>)
    ensures
        short_ints(r@) == pastau_grid(cfg@, nsp as int),
{
    let mut out: Vec<u64> = Vec::new();
    assert(short_ints(out@) =~= Seq::<int>::empty());
    match &cfg.tsp_list {
        Some(tsp) => {
            let ghost g = nats(tsp@);
            let mut k: usize = 0;
            while k < tsp.len()
                invariant
                    k <= tsp@.len(),
                    g == nats(tsp@),
                    short_ints(out@) == in_range(nsp as int, g, k as int),
                decreases tsp@.len() - k,
            {
                let t = tsp[k];
                assert(g[k as int] == t);
                if t >= 1 && t <= nsp {
                    let ghost before = short_ints(out@);
                    out.push(t);
                    assert(short_ints(out@) =~= before.push(t as int));
                }
                k = k + 1;
            }
        },
        None => {},
    }
    let ghost first = short_ints(out@);
    match &cfg.tsp_pct_list {
        Some(pct) => push_percentages(&mut out, nsp, pct),
        None => {},
    }
    proof {
        if cfg.tsp_pct_list is None {
            assert(pct_thresholds(nsp as int, Seq::empty()) =~= Seq::<int>::empty());
            assert(short_ints(out@) =~= first + Seq::<int>::empty());
        }
    }
    sorted_distinct(&out)
}

/// The thresholds that the AugSSO engine measures with `nsp` servers, in the order in which
/// they are given; half of the servers where nothing is given.
pub open spec fn augsso_grid(c: EngineState, nsp: int) -> Seq<int> {
    match c.tsp_list {
        Some(v) => Seq::new(v.len(), |i: int| v[i] as int),
        None => match c.tsp_pct_list {
            Some(p) => Seq::new(p.len(), |i: int| (nsp * p[i] + 99) / 100),
            None => seq![(nsp * 50 + 99) / 100],
        },
    }
}

/// Whether the percentages of `nsp` can be counted.
pub open spec fn pct_countable(c: EngineState, nsp: int) -> bool {
    &&& nsp * 50 + 99 <= usize::MAX
    &&& c.tsp_pct_list matches Some(p) ==> all_countable(p, nsp)
}

/// Whether each of some percentages of `nsp` can be counted.
pub open spec fn all_countable(p: Seq<nat>, nsp: int) -> bool {
    forall|i: int| 0 <= i < p.len() ==> nsp * (#[trigger] p[i]) + 99 <= usize::MAX
}

/// The thresholds that the AugSSO engine measures with `nsp` servers.
pub fn augsso_thresholds(cfg: &EngineConfig, nsp: usize) -> (r: Vec<u64>)
    requires
        pct_countable(cfg@, nsp as int),
    ensures
        short_ints(r@) == augsso_grid(cfg@, nsp as int),
{
    let mut out: Vec<u64> = Vec::new();
    match &cfg.tsp_list {
        Some(tsp) => {
            let mut k: usize = 0;
            while k < tsp.len()
                invariant
                    k <= tsp@.len(),
                    out@.len() == k,
                    forall|j: int| 0 <= j < k ==> out@[j] == tsp@[j],
                decreases tsp@.len() - k,
            {
                out.push(tsp[k]);
                k = k + 1;
            }
            assert(short_ints(out@) =~= augsso_grid(cfg@, nsp as int));
        },
        None => match &cfg.tsp_pct_list {
            Some(pct) => {
                let ghost g = nats(pct@);
                assert(cfg@.tsp_pct_list == Some(g));
                let mut k: usize = 0;
                while k < pct.len()
                    invariant
                        k <= pct@.len(),
                        g == nats(pct@),
                        out@.len() == k,
                        all_countable(g, nsp as int),
                        forall|j: int|
                            0 <= j < k ==> #[trigger] out@[j] == (nsp * g[j] + 99) / 100,
                    decreases pct@.len() - k,
                {
                    let p = pct[k];
                    assert(g[k as int] == p);
                    proof {
                        lemma_countable_factor(nsp as int, p as int);
                    }
                    let t: u64 = if nsp == 0 {
                        0
                    } else {
                        ceil_pct(nsp, p as usize) as u64
                    };
                    out.push(t);
                    k = k + 1;
                }
                assert(short_ints(out@) =~= augsso_grid(cfg@, nsp as int));
            },
            None => {
                out.push(ceil_pct(nsp, 50) as u64);
                assert(short_ints(out@) =~= augsso_grid(cfg@, nsp as int));
            },
        },
    }
    out
}

proof fn lemma_countable_factor(nsp: int, pct: int)
    requires
        0 <= nsp,
        0 <= pct,
        nsp * pct + 99 <= usize::MAX,
    ensures
        nsp > 0 ==> pct <= usize::MAX,
        nsp == 0 ==> (nsp * pct + 99) / 100 == 0,
{
    if nsp > 0 {
        assert(pct <= nsp * pct) by (nonlinear_arith)
            requires
                nsp >= 1,
                pct >= 0,
        ;
    } else {
        assert(nsp * pct == 0) by (nonlinear_arith)
            requires
                nsp == 0,
        ;
    }
}

/// The thresholds that the quorum engine measures with `nsp` providers, in order and each
/// once.
pub open spec fn quorum_grid(c: EngineState, nsp: int) -> Seq<int> {
    distinct(
        in_order(
            match c.tsp_list {
                Some(v) => Seq::new(v.len(), |i: int| v[i] as int),
                None => pct_thresholds(nsp, given_list(c.tsp_pct_list)),
            },
        ),
    )
}

/// The message for a threshold out of range.
pub open spec fn bad_quorum_threshold(nsp: nat, tsp: nat) -> Seq<char> {
    "invalid ABD-style threshold for nsp="@ + numeral(nsp) + ": tsp="@ + numeral(tsp)
        + " is not allowed; require 1 <= tsp <= nsp"@
}

/// The first threshold from place `k` on that is out of range.
pub open spec fn first_bad(v: Seq<int>, nsp: int, k: int) -> Option<int>
    decreases v.len() - k,
{
    if k >= v.len() {
        None
    } else if v[k] == 0 || v[k] > nsp {
        Some(v[k])
    } else {
        first_bad(v, nsp, k + 1)
    }
}

/// The thresholds that the quorum engine measures with `nsp` providers, or the message for
/// the first that is out of range.
pub fn tsp_values_for(nsp: u64, cfg: &EngineConfig) -> (r: Result<Vec<u64>, String>)
    requires
        nsp > 0 || cfg@.tsp_list is Some,
    ensures
        match r {
            Ok(v) => short_ints(v@) == quorum_grid(cfg@, nsp as int) && first_bad(
                quorum_grid(cfg@, nsp as int),
                nsp as int,
                0,
            ) is None && forall|i: int|
                0 <= i < v@.len() ==> valid_threshold(nsp as nat, #[trigger] v@[i] as nat),
            Err(e) => first_bad(quorum_grid(cfg@, nsp as int), nsp as int, 0) matches Some(t) && e@
                == bad_quorum_threshold(nsp as nat, t as nat),
        },
{
    let ghost c = cfg@;
    let mut all: Vec<u64> = Vec::new();
    match &cfg.tsp_list {
        Some(tsp) => {
            let mut k: usize = 0;
            while k < tsp.len()
                invariant
                    k <= tsp@.len(),
                    all@.len() == k,
                    forall|j: int| 0 <= j < k ==> all@[j] == tsp@[j],
                decreases tsp@.len() - k,
            {
                all.push(tsp[k]);
                k = k + 1;
            }
            assert(short_ints(all@) =~= Seq::new(
                c.tsp_list->Some_0.len(),
                |i: int| c.tsp_list->Some_0[i] as int,
            ));
        },
        None => {
            assert(short_ints(all@) =~= Seq::<int>::empty());
            match &cfg.tsp_pct_list {
                Some(pct) => {
                    push_percentages(&mut all, nsp, pct);
                },
                None => {},
            }
            assert(short_ints(all@) =~= pct_thresholds(nsp as int, given_list(c.tsp_pct_list)));
        },
    }
    let values = sorted_distinct(&all);
    let ghost g = quorum_grid(c, nsp as int);
    assert(short_ints(values@) == g);
    let mut k: usize = 0;
    while k < values.len()
        invariant
            k <= values@.len(),
            g == short_ints(values@),
            g == quorum_grid(cfg@, nsp as int),
            first_bad(g, nsp as int, k as int) == first_bad(g, nsp as int, 0),
            forall|i: int| 0 <= i < k ==> valid_threshold(nsp as nat, #[trigger] values@[i] as nat),
        decreases values@.len() - k,
    {
        let t = values[k];
        assert(g[k as int] == t);
        if t == 0 || t > nsp {
            let mut e = copy_text("invalid ABD-style threshold for nsp=");
            append(&mut e, number_text(nsp as u128).as_str());
            append(&mut e, ": tsp=");
            append(&mut e, number_text(t as u128).as_str());
            append(&mut e, " is not allowed; require 1 <= tsp <= nsp");
            return Err(e);
        }
        k = k + 1;
    }
    Ok(values)
}

/// Every threshold that the quorum engine measures leaves room for quorums that share more
/// than `tsp - 1` providers.
pub proof fn measured_thresholds_intersect(c: EngineState, nsp: int, i: int)
    requires
        nsp >= 0,
        first_bad(quorum_grid(c, nsp), nsp, 0) is None,
        0 <= i < quorum_grid(c, nsp).len(),
        quorum_grid(c, nsp)[i] >= 0,
    ensures
        ({
            let t = quorum_grid(c, nsp)[i];
            let q = quorum(nsp as nat, t as nat);
            valid_threshold(nsp as nat, t as nat) && t <= q <= nsp && 2 * q - nsp > t - 1
        }),
{
    lemma_none_bad(quorum_grid(c, nsp), nsp, 0, i);
}

proof fn lemma_none_bad(v: Seq<int>, nsp: int, k: int, i: int)
    requires
        0 <= k <= i < v.len(),
        first_bad(v, nsp, k) is None,
    ensures
        v[i] != 0,
        v[i] <= nsp,
    decreases i - k,
{
    if k < i {
        lemma_none_bad(v, nsp, k + 1, i);
    }
}

/// The message for too many unavailable providers.
pub open spec fn too_few_left(nsp: nat, tsp: nat, offline: nat) -> Seq<char> {
    "invalid ABD-style unavailability for nsp="@ + numeral(nsp) + ", tsp="@ + numeral(tsp)
        + ", qsp="@ + numeral(quorum(nsp, tsp)) + ": offline="@ + numeral(offline)
        + " leaves only "@ + numeral(
        if offline <= nsp {
            (nsp - offline) as nat
        } else {
            0
        },
    ) + " online providers; maximum executable offline is "@ + numeral(
        (nsp - quorum(nsp, tsp)) as nat,
    )
}

/// How many providers are unavailable, or the message where a quorum would not be left.
pub fn effective_unavailable(nsp: usize, tsp: usize, spec: &OfflineSpec) -> (r: Result<
    usize,
    String,
>)
    requires
        valid_threshold(nsp as nat, tsp as nat),
        nsp + tsp < usize::MAX,
    ensures
        ({
            let most = nsp - quorum(nsp as nat, tsp as nat);
            match *spec {
                OfflineSpec::Max => r == Ok::<usize, String>(most as usize),
                OfflineSpec::Count(x) => if x <= most {
                    r == Ok::<usize, String>(x)
                } else {
                    r matches Err(e) && e@ == too_few_left(nsp as nat, tsp as nat, x as nat)
                },
            }
        }),
        r matches Ok(u) ==> nsp - u >= quorum(nsp as nat, tsp as nat) && nsp - u >= tsp,
{
    let most = max_executable_unavailable(nsp, tsp);
    match *spec {
        OfflineSpec::Max => Ok(most),
        OfflineSpec::Count(x) => {
            if x > most {
                let mut e = copy_text("invalid ABD-style unavailability for nsp=");
                append(&mut e, number_text(nsp as u128).as_str());
                append(&mut e, ", tsp=");
                append(&mut e, number_text(tsp as u128).as_str());
                append(&mut e, ", qsp=");
                append(&mut e, number_text((nsp - most) as u128).as_str());
                append(&mut e, ": offline=");
                append(&mut e, number_text(x as u128).as_str());
                append(&mut e, " leaves only ");
                let left: usize = if x <= nsp {
                    nsp - x
                } else {
                    0
                };
                append(&mut e, number_text(left as u128).as_str());
                append(&mut e, " online providers; maximum executable offline is ");
                append(&mut e, number_text(most as u128).as_str());
                return Err(e);
            }
            Ok(x)
        },
    }
}

/// The name of a phase.
pub open spec fn op_name(op: Op) -> Seq<char> {
    match op {
        Op::Reg => "reg"@,
        Op::SecUpd => "secupd"@,
        Op::PwdUpd => "pwdupd"@,
    }
}

impl Op {
    /// The name of the phase.
    pub fn name(self) -> (r: &'static str)
        ensures
            r@ == op_name(self),
    {
        match self {
            Op::Reg => "reg",
            Op::SecUpd => "secupd",
            Op::PwdUpd => "pwdupd",
        }
    }

    /// The phase with a name.
    pub fn named(s: &str) -> (r: Option<Op>)
        ensures
            match r {
                Some(op) => s@ == op_name(op),
                None => forall|op: Op| s@ != #[trigger] op_name(op),
            },
    {
        let v = chars_of(s);
        let t = v.as_slice();
        if is_text(t, "reg") {
            Some(Op::Reg)
        } else if is_text(t, "secupd") {
            Some(Op::SecUpd)
        } else if is_text(t, "pwdupd") {
            Some(Op::PwdUpd)
        } else {
            None
        }
    }
}

/// One thing that is measured of a pair of numbers.
#[derive(Clone, Copy, Debug, PartialEq, Eq, Structural)]
pub enum Step {
    /// The client's part of the protocols.
    Client,
    /// The work of a server.
    Servers,
    /// The primitives of AugSSO.
    Primitives,
    /// The primitives of PAS-TA-U that do not depend on the numbers.
    ConstantPrimitives,
    /// The primitives of PAS-TA-U that depend on the numbers.
    SizedPrimitives,
    /// The exchanges over a network.
    Network(Link),
    /// Whole protocols over a network.
    Whole(Link),
    /// The selection of networks is refused, and nothing follows.
    BadNetwork,
    /// A quorum phase without a network.
    Phase(Op),
    /// A quorum phase over a network.
    PhaseOver(Op, Link),
    /// The bare synchronization of a quorum phase.
    Synchronization(Op),
}

/// The step, where it is wanted.
pub open spec fn step_if(wanted: bool, s: Step) -> Seq<Step> {
    if wanted {
        seq![s]
    } else {
        Seq::empty()
    }
}

/// The steps on each of some networks, where they are wanted.
pub open spec fn steps_over(wanted: bool, links: Seq<Link>, whole: bool) -> Seq<Step> {
    if wanted {
        Seq::new(
            links.len(),
            |i: int|
                if whole {
                    Step::Whole(links[i])
                } else {
                    Step::Network(links[i])
                },
        )
    } else {
        Seq::empty()
    }
}

/// The steps of a baseline engine that need no network. The constant primitives are
/// measured with the first pair of numbers only.
pub open spec fn local_steps(e: Engine, kinds: Seq<Seq<char>>, first: bool) -> Seq<Step> {
    let prim = wants(kinds, "prim"@);
    step_if(wants(kinds, "proto"@), Step::Client) + step_if(wants(kinds, "sp"@), Step::Servers) + (
    if e == Engine::AugSso {
        step_if(prim, Step::Primitives)
    } else {
        step_if(prim && first, Step::ConstantPrimitives) + step_if(prim, Step::SizedPrimitives)
    })
}

/// The steps of a baseline engine that need networks: the exchanges on each, then the whole
/// protocols on each. A selection that is not valid is refused once a network is needed.
pub open spec fn network_steps(e: Engine, kinds: Seq<Seq<char>>, nets: Seq<Seq<char>>) -> Seq<
    Step,
> {
    let (net, full) = (wants(kinds, "net"@), wants(kinds, "full"@));
    match links(e, nets) {
        None => step_if(net || full, Step::BadNetwork),
        Some(l) => steps_over(net, l, false) + steps_over(full, l, true),
    }
}

/// What a baseline engine measures of a pair of numbers, in order.
pub open spec fn baseline_steps(
    e: Engine,
    kinds: Seq<Seq<char>>,
    nets: Seq<Seq<char>>,
    first: bool,
) -> Seq<Step> {
    local_steps(e, kinds, first) + network_steps(e, kinds, nets)
}

fn push_step(v: &mut Vec<Step>, wanted: bool, s: Step)
    ensures
        final(v)@ == old(v)@ + step_if(wanted, s),
{
    let ghost before = v@;
    if wanted {
        v.push(s);
    }
    assert(v@ =~= before + step_if(wanted, s));
}

fn push_over(v: &mut Vec<Step>, wanted: bool, links: &Vec<Link>, whole: bool)
    ensures
        final(v)@ == old(v)@ + steps_over(wanted, links@, whole),
{
    let ghost before = v@;
    let ghost all = steps_over(true, links@, whole);
    assert(before + all.take(0) =~= before);
    if wanted {
        let mut i: usize = 0;
        while i < links.len()
            invariant
                i <= links@.len(),
                all == steps_over(true, links@, whole),
                v@ == before + all.take(i as int),
            decreases links@.len() - i,
        {
            v.push(
                if whole {
                    Step::Whole(links[i])
                } else {
                    Step::Network(links[i])
                },
            );
            assert(v@ =~= before + all.take(i + 1));
            i = i + 1;
        }
        assert(all.take(i as int) =~= all);
    } else {
        assert(before + steps_over(false, links@, whole) =~= before);
    }
}

/// Lists what a baseline engine measures of a pair of numbers; `first` says that no pair
/// was measured before.
pub fn baseline_plan(e: Engine, cfg: &EngineConfig, first: bool) -> (r: Vec<Step>)
    ensures
        r@ == baseline_steps(e, cfg@.kinds, cfg@.nets, first),
{
    let mut v: Vec<Step> = Vec::new();
    let prim = wants_kind(cfg, "prim");
    let net = wants_kind(cfg, "net");
    let full = wants_kind(cfg, "full");
    push_step(&mut v, wants_kind(cfg, "proto"), Step::Client);
    push_step(&mut v, wants_kind(cfg, "sp"), Step::Servers);
    if e == Engine::AugSso {
        push_step(&mut v, prim, Step::Primitives);
    } else {
        push_step(&mut v, prim && first, Step::ConstantPrimitives);
        push_step(&mut v, prim, Step::SizedPrimitives);
    }
    assert(v@ =~= local_steps(e, cfg@.kinds, first));
    match selected_links(e, cfg) {
        Some(l) => {
            push_over(&mut v, net, &l, false);
            push_over(&mut v, full, &l, true);
        },
        None => {
            push_step(&mut v, net || full, Step::BadNetwork);
        },
    }
    assert(v@ =~= baseline_steps(e, cfg@.kinds, cfg@.nets, first));
    v
}

/// The steps of the quorum engine with the first `k` phases: each without a network and then
/// over every network.
pub open spec fn phase_steps(kinds: Seq<Seq<char>>, ops: Seq<Op>, links: Seq<Link>, k: int) -> Seq<
    Step,
>
    decreases k,
{
    if k <= 0 {
        Seq::empty()
    } else {
        let op = ops[k - 1];
        phase_steps(kinds, ops, links, k - 1) + step_if(
            kinds.contains("full_no_net"@),
            Step::Phase(op),
        ) + (if kinds.contains("full_net"@) {
            Seq::new(links.len(), |i: int| Step::PhaseOver(op, links[i]))
        } else {
            Seq::empty()
        })
    }
}

/// What the quorum engine measures of a pair of numbers, in order: all phases, then the bare
/// synchronization of each.
pub open spec fn quorum_steps(kinds: Seq<Seq<char>>, ops: Seq<Op>, links: Seq<Link>) -> Seq<Step> {
    phase_steps(kinds, ops, links, ops.len() as int) + (if kinds.contains("quorum_overhead"@)
        || kinds.contains("quorum"@) {
        Seq::new(ops.len(), |i: int| Step::Synchronization(ops[i]))
    } else {
        Seq::empty()
    })
}

fn push_phases_over(v: &mut Vec<Step>, op: Op, links: &Vec<Link>)
    ensures
        final(v)@ == old(v)@ + Seq::new(links@.len(), |i: int| Step::PhaseOver(op, links@[i])),
{
    let ghost before = v@;
    let ghost all = Seq::new(links@.len(), |i: int| Step::PhaseOver(op, links@[i]));
    assert(before + all.take(0) =~= before);
    let mut i: usize = 0;
    while i < links.len()
        invariant
            i <= links@.len(),
            all == Seq::new(links@.len(), |i: int| Step::PhaseOver(op, links@[i])),
            v@ == before + all.take(i as int),
        decreases links@.len() - i,
    {
        v.push(Step::PhaseOver(op, links[i]));
        assert(v@ =~= before + all.take(i + 1));
        i = i + 1;
    }
    assert(all.take(i as int) =~= all);
}

/// Lists what the quorum engine measures of a pair of numbers.
pub fn quorum_plan(cfg: &EngineConfig, ops: &Vec<Op>, links: &Vec<Link>) -> (r: Vec<Step>)
    ensures
        r@ == quorum_steps(cfg@.kinds, ops@, links@),
{
    let ghost kinds = cfg@.kinds;
    let plain = contains_text(&cfg.kinds, "full_no_net");
    let over = contains_text(&cfg.kinds, "full_net");
    let mut v: Vec<Step> = Vec::new();
    let mut k: usize = 0;
    while k < ops.len()
        invariant
            k <= ops@.len(),
            plain == kinds.contains("full_no_net"@),
            over == kinds.contains("full_net"@),
            v@ == phase_steps(kinds, ops@, links@, k as int),
        decreases ops@.len() - k,
    {
        push_step(&mut v, plain, Step::Phase(ops[k]));
        if over {
            push_phases_over(&mut v, ops[k], links);
        }
        assert(v@ =~= phase_steps(kinds, ops@, links@, k + 1));
        k = k + 1;
    }
    let ghost before = v@;
    let ghost all = Seq::new(ops@.len(), |i: int| Step::Synchronization(ops@[i]));
    if contains_text(&cfg.kinds, "quorum_overhead") || contains_text(&cfg.kinds, "quorum") {
        assert(before + all.take(0) =~= before);
        let mut i: usize = 0;
        while i < ops.len()
            invariant
                i <= ops@.len(),
                all == Seq::new(ops@.len(), |i: int| Step::Synchronization(ops@[i])),
                v@ == before + all.take(i as int),
            decreases ops@.len() - i,
        {
            v.push(Step::Synchronization(ops[i]));
            assert(v@ =~= before + all.take(i + 1));
            i = i + 1;
        }
        assert(all.take(i as int) =~= all);
    }
    assert(v@ =~= quorum_steps(kinds, ops@, links@));
    v
}

/// With the first pair of numbers the constant primitives are measured once, where
/// primitives are wanted; after it they are not, and nothing else changes.
pub proof fn constants_are_measured_once(kinds: Seq<Seq<char>>, nets: Seq<Seq<char>>)
    ensures
        ({
            let first = baseline_steps(Engine::PasTaU, kinds, nets, true);
            let later = baseline_steps(Engine::PasTaU, kinds, nets, false);
            &&& !later.contains(Step::ConstantPrimitives)
            &&& if wants(kinds, "prim"@) {
                exists|i: int|
                    0 <= i < first.len() && #[trigger] first[i] == Step::ConstantPrimitives && later
                        == first.remove(i)
            } else {
                later == first
            }
        }),
{
    let first = baseline_steps(Engine::PasTaU, kinds, nets, true);
    let later = baseline_steps(Engine::PasTaU, kinds, nets, false);
    let prim = wants(kinds, "prim"@);
    let a = step_if(wants(kinds, "proto"@), Step::Client) + step_if(
        wants(kinds, "sp"@),
        Step::Servers,
    );
    let b = step_if(prim, Step::SizedPrimitives);
    let c = network_steps(Engine::PasTaU, kinds, nets);
    assert(later =~= a + b + c);
    assert forall|i: int| 0 <= i < c.len() implies #[trigger] c[i] != Step::ConstantPrimitives by {
    }
    assert forall|i: int| 0 <= i < later.len() implies #[trigger] later[i]
        != Step::ConstantPrimitives by {
        if i < a.len() {
            assert(later[i] == a[i]);
        } else if i < a.len() + b.len() {
            assert(later[i] == b[i - a.len()]);
        } else {
            assert(later[i] == c[i - a.len() - b.len()]);
        }
    }
    if prim {
        assert(first =~= a + seq![Step::ConstantPrimitives] + b + c);
        let i = a.len() as int;
        assert(first[i] == Step::ConstantPrimitives);
        assert(later =~= first.remove(i));
    } else {
        assert(later =~= first);
    }
}

} // verus!
