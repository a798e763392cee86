//! From settings to runs: checks, the grid of thresholds, and the arguments of each scheme.
use vstd::prelude::*;

use crate::quorum::quorum;
use crate::text::{
    append, chars_of, copy_text, is_text, number_text, numeral, parts, split, split_at_each, trim,
    trimmed,
};
use crate::unified::{kinds_of, nats, supported_kinds, Kinds, Offline, Scheme};
use crate::unified_config::{Config, Settings};

verus! {

/// The smallest threshold that is at least `pct` percent of `nsp`.
pub open spec fn threshold_at(nsp: nat, pct: nat) -> nat {
    (nsp * pct + 99) / 100
}

/// The message for a threshold out of range.
pub open spec fn bad_threshold(tsp: nat, nsp: nat) -> Seq<char> {
    "tsp="@ + numeral(tsp) + " is invalid for nsp="@ + numeral(nsp)
        + "; require 1 <= tsp <= nsp"@
}

/// The message for a percentage out of range.
pub open spec fn bad_percentage(pct: nat) -> Seq<char> {
    "tsp percentage "@ + numeral(pct) + " is outside 1..=100"@
}

/// The pairs that the first `k` thresholds give with `nsp` providers.
pub open spec fn absolute_row(nsp: nat, tsp: Seq<nat>, k: int) -> Result<
    Seq<(nat, nat)>,
    Seq<char>,
>
    decreases k,
{
    if k <= 0 {
        Ok(Seq::empty())
    } else {
        match absolute_row(nsp, tsp, k - 1) {
            Err(e) => Err(e),
            Ok(v) => {
                let t = tsp[k - 1];
                if t == 0 || t > nsp {
                    Err(bad_threshold(t, nsp))
                } else {
                    Ok(v.push((nsp, t)))
                }
            },
        }
    }
}

/// The pairs that the first `k` percentages give with `nsp` providers.
pub open spec fn percent_row(nsp: nat, pct: Seq<nat>, k: int) -> Result<
    Seq<(nat, nat)>,
    Seq<char>,
>
    decreases k,
{
    if k <= 0 {
        Ok(Seq::empty())
    } else {
        match percent_row(nsp, pct, k - 1) {
            Err(e) => Err(e),
            Ok(v) => {
                let p = pct[k - 1];
                if p == 0 || p > 100 {
                    Err(bad_percentage(p))
                } else {
                    Ok(v.push((nsp, threshold_at(nsp, p))))
                }
            },
        }
    }
}

/// The pairs for one number of providers.
pub open spec fn row(s: Settings, nsp: nat) -> Result<Seq<(nat, nat)>, Seq<char>> {
    match s.tsp {
        Some(tsp) => absolute_row(nsp, tsp, tsp.len() as int),
        None => percent_row(nsp, s.tsp_pct->Some_0, s.tsp_pct->Some_0.len() as int),
    }
}

/// The pairs for the first `k` numbers of providers, in order.
pub open spec fn grid(s: Settings, k: int) -> Result<Seq<(nat, nat)>, Seq<char>>
    decreases k,
{
    if k <= 0 {
        Ok(Seq::empty())
    } else {
        match grid(s, k - 1) {
            Err(e) => Err(e),
            Ok(v) => match row(s, s.nsp[k - 1]) {
                Err(e) => Err(e),
                Ok(w) => Ok(v + w),
            },
        }
    }
}

/// Pairs of numbers of providers and thresholds.
pub open spec fn pairs(v: Seq<(u64, u64)>) -> Seq<(nat, nat)> {
    Seq::new(v.len(), |i: int| (v[i].0 as nat, v[i].1 as nat))
}

proof fn lemma_threshold_bounds(nsp: nat, pct: nat)
    requires
        1 <= pct <= 100,
    ensures
        threshold_at(nsp, pct) <= nsp,
        nsp > 0 ==> threshold_at(nsp, pct) >= 1,
{
    assert(nsp * pct <= nsp * 100) by (nonlinear_arith)
        requires
            pct <= 100,
    ;
    assert(nsp > 0 ==> nsp * pct >= 1) by (nonlinear_arith)
        requires
            pct >= 1,
    ;
}

fn say_bad_threshold(tsp: u64, nsp: u64) -> (r: String)
    ensures
        r@ == bad_threshold(tsp as nat, nsp as nat),
{
    let mut e = copy_text("tsp=");
    append(&mut e, number_text(tsp as u128).as_str());
    append(&mut e, " is invalid for nsp=");
    append(&mut e, number_text(nsp as u128).as_str());
    append(&mut e, "; require 1 <= tsp <= nsp");
    e
}

fn say_bad_percentage(pct: u64) -> (r: String)
    ensures
        r@ == bad_percentage(pct as nat),
{
    let mut e = copy_text("tsp percentage ");
    append(&mut e, number_text(pct as u128).as_str());
    append(&mut e, " is outside 1..=100");
    e
}

fn push_absolute(out: &mut Vec<(u64, u64)>, nsp: u64, tsp: &Vec<u64>) -> (r: Result<(), String>)
    ensures
        match r {
            Ok(_) => absolute_row(nsp as nat, nats(tsp@), tsp@.len() as int) matches Ok(w) && pairs(
                final(out)@,
            ) == pairs(old(out)@) + w,
            Err(e) => absolute_row(nsp as nat, nats(tsp@), tsp@.len() as int) == Err::<
                Seq<(nat, nat)>,
                Seq<char>,
            >(e@),
        },
{
    let ghost before = pairs(out@);
    let ghost g = nats(tsp@);
    let mut k: usize = 0;
    assert(before + Seq::<(nat, nat)>::empty() =~= before);
    while k < tsp.len()
        invariant
            k <= tsp@.len(),
            g == nats(tsp@),
            absolute_row(nsp as nat, g, k as int) matches Ok(w) && pairs(out@) == before + w,
        decreases tsp@.len() - k,
    {
        let t = tsp[k];
        assert(g[k as int] == t as nat);
        if t == 0 || t > nsp {
            proof {
                lemma_absolute_error(nsp as nat, g, k + 1, tsp@.len() as int);
            }
            return Err(say_bad_threshold(t, nsp));
        }
        let ghost mid = out@;
        out.push((nsp, t));
        proof {
            let w = absolute_row(nsp as nat, g, k as int)->Ok_0;
            assert(pairs(out@) =~= pairs(mid).push((nsp as nat, t as nat)));
            assert(pairs(out@) =~= before + w.push((nsp as nat, t as nat)));
        }
        k = k + 1;
    }
    Ok(())
}

proof fn lemma_absolute_error(nsp: nat, tsp: Seq<nat>, k: int, n: int)
    requires
        0 <= k <= n,
    ensures
        absolute_row(nsp, tsp, k) matches Err(e) ==> absolute_row(nsp, tsp, n) == Err::<
            Seq<(nat, nat)>,
            Seq<char>,
        >(e),
    decreases n - k,
{
    if k < n {
        lemma_absolute_error(nsp, tsp, k + 1, n);
    }
}

proof fn lemma_percent_error(nsp: nat, pct: Seq<nat>, k: int, n: int)
    requires
        0 <= k <= n,
    ensures
        percent_row(nsp, pct, k) matches Err(e) ==> percent_row(nsp, pct, n) == Err::<
            Seq<(nat, nat)>,
            Seq<char>,
        >(e),
    decreases n - k,
{
    if k < n {
        lemma_percent_error(nsp, pct, k + 1, n);
    }
}

proof fn lemma_grid_error(s: Settings, k: int, n: int)
    requires
        0 <= k <= n,
    ensures
        grid(s, k) matches Err(e) ==> grid(s, n) == Err::<Seq<(nat, nat)>, Seq<char>>(e),
    decreases n - k,
{
    if k < n {
        lemma_grid_error(s, k + 1, n);
    }
}

fn push_percent(out: &mut Vec<(u64, u64)>, nsp: u64, pct: &Vec<u64>) -> (r: Result<(), String>)
    ensures
        match r {
            Ok(_) => percent_row(nsp as nat, nats(pct@), pct@.len() as int) matches Ok(w) && pairs(
                final(out)@,
            ) == pairs(old(out)@) + w,
            Err(e) => percent_row(nsp as nat, nats(pct@), pct@.len() as int) == Err::<
                Seq<(nat, nat)>,
                Seq<char>,
            >(e@),
        },
{
    let ghost before = pairs(out@);
    let ghost g = nats(pct@);
    let mut k: usize = 0;
    assert(before + Seq::<(nat, nat)>::empty() =~= before);
    while k < pct.len()
        invariant
            k <= pct@.len(),
            g == nats(pct@),
            percent_row(nsp as nat, g, k as int) matches Ok(w) && pairs(out@) == before + w,
        decreases pct@.len() - k,
    {
        let p = pct[k];
        assert(g[k as int] == p as nat);
        if p == 0 || p > 100 {
            proof {
                lemma_percent_error(nsp as nat, g, k + 1, pct@.len() as int);
            }
            return Err(say_bad_percentage(p));
        }
        proof {
            lemma_threshold_bounds(nsp as nat, p as nat);
            assert(nsp as int * p as int <= nsp as int * 100) by (nonlinear_arith)
                requires
                    p <= 100,
                    nsp >= 0,
            ;
        }
        let t: u64 = ((nsp as u128 * p as u128 + 99) / 100) as u64;
        let ghost mid = out@;
        out.push((nsp, t));
        proof {
            let w = percent_row(nsp as nat, g, k as int)->Ok_0;
            assert(pairs(out@) =~= pairs(mid).push((nsp as nat, t as nat)));
            assert(pairs(out@) =~= before + w.push((nsp as nat, t as nat)));
        }
        k = k + 1;
    }
    Ok(())
}

/// All pairs of a number of providers and a threshold that the settings ask for, or the
/// message for the first that is out of range.
pub fn thresholds(cfg: &Config) -> (r: Result<Vec<(u64, u64)>, String>)
    requires
        cfg@.tsp is Some || cfg@.tsp_pct is Some,
    ensures
        match r {
            Ok(v) => grid(cfg@, cfg@.nsp.len() as int) == Ok::<Seq<(nat, nat)>, Seq<char>>(
                pairs(v@),
            ),
            Err(e) => grid(cfg@, cfg@.nsp.len() as int) == Err::<Seq<(nat, nat)>, Seq<char>>(e@),
        },
{
    let ghost s = cfg@;
    let mut out: Vec<(u64, u64)> = Vec::new();
    let mut k: usize = 0;
    assert(pairs(out@) =~= Seq::<(nat, nat)>::empty());
    while k < cfg.nsp.len()
        invariant
            k <= cfg.nsp@.len(),
            s == cfg@,
            s.tsp is Some || s.tsp_pct is Some,
            grid(s, k as int) == Ok::<Seq<(nat, nat)>, Seq<char>>(pairs(out@)),
        decreases cfg.nsp@.len() - k,
    {
        let nsp = cfg.nsp[k];
        assert(s.nsp[k as int] == nsp as nat);
        let pushed = match &cfg.tsp {
            Some(tsp) => push_absolute(&mut out, nsp, tsp),
            None => match &cfg.tsp_pct {
                Some(pct) => push_percent(&mut out, nsp, pct),
                None => Ok(()),
            },
        };
        match pushed {
            Ok(_) => {},
            Err(e) => {
                proof {
                    lemma_grid_error(s, k + 1, cfg.nsp@.len() as int);
                }
                return Err(e);
            },
        }
        k = k + 1;
    }
    Ok(out)
}

/// Every pair of an accepted grid has a threshold between one and the number of providers,
/// and one row of the grid follows another in the order of the settings.
pub proof fn accepted_grid_is_valid(s: Settings, k: int)
    requires
        0 <= k <= s.nsp.len(),
        forall|i: int| 0 <= i < s.nsp.len() ==> #[trigger] s.nsp[i] > 0,
    ensures
        grid(s, k) matches Ok(v) ==> forall|i: int|
            0 <= i < v.len() ==> 1 <= (#[trigger] v[i]).1 <= v[i].0,
    decreases k,
{
    if k > 0 {
        accepted_grid_is_valid(s, k - 1);
        if grid(s, k) is Ok {
            let v = grid(s, k - 1)->Ok_0;
            let w = row(s, s.nsp[k - 1])->Ok_0;
            lemma_row_valid(s, s.nsp[k - 1]);
            assert forall|i: int| 0 <= i < (v + w).len() implies 1 <= (#[trigger] (v + w)[i]).1
                <= (v + w)[i].0 by {
                if i < v.len() {
                    assert((v + w)[i] == v[i]);
                } else {
                    assert((v + w)[i] == w[i - v.len()]);
                }
            }
        }
    }
}

proof fn lemma_row_valid(s: Settings, nsp: nat)
    requires
        nsp > 0,
    ensures
        row(s, nsp) matches Ok(w) ==> forall|i: int|
            0 <= i < w.len() ==> 1 <= (#[trigger] w[i]).1 <= w[i].0,
{
    match s.tsp {
        Some(tsp) => lemma_absolute_valid(nsp, tsp, tsp.len() as int),
        None => lemma_percent_valid(nsp, s.tsp_pct->Some_0, s.tsp_pct->Some_0.len() as int),
    }
}

proof fn lemma_absolute_valid(nsp: nat, tsp: Seq<nat>, k: int)
    ensures
        absolute_row(nsp, tsp, k) matches Ok(w) ==> forall|i: int|
            0 <= i < w.len() ==> 1 <= (#[trigger] w[i]).1 <= w[i].0,
    decreases k,
{
    if k > 0 {
        lemma_absolute_valid(nsp, tsp, k - 1);
    }
}

proof fn lemma_percent_valid(nsp: nat, pct: Seq<nat>, k: int)
    requires
        nsp > 0,
    ensures
        percent_row(nsp, pct, k) matches Ok(w) ==> forall|i: int|
            0 <= i < w.len() ==> 1 <= (#[trigger] w[i]).1 <= w[i].0,
    decreases k,
{
    if k > 0 {
        lemma_percent_valid(nsp, pct, k - 1);
        let p = pct[k - 1];
        if 1 <= p <= 100 {
            lemma_threshold_bounds(nsp, p);
        }
    }
}

/// Whether a scheme supports one of the selected kinds.
pub open spec fn works(s: Scheme, kinds: Kinds) -> bool {
    exists|i: int| 0 <= i < supported_kinds(s).len() && kinds.has(#[trigger] supported_kinds(s)[i])
}

/// Whether a scheme supports one of the selected kinds.
pub fn has_work(scheme: Scheme, kinds: &Kinds) -> (r: bool)
    ensures
        r == works(scheme, *kinds),
{
    let v = kinds_of(scheme);
    let mut i: usize = 0;
    while i < v.len()
        invariant
            i <= v@.len(),
            v@ == supported_kinds(scheme),
            forall|j: int| 0 <= j < i ==> !kinds.has(#[trigger] v@[j]),
        decreases v@.len() - i,
    {
        if kinds.contains(v[i]) {
            assert(kinds.has(supported_kinds(scheme)[i as int]));
            return true;
        }
        i = i + 1;
    }
    false
}

/// What is wrong with the numbers of a network.
#[derive(Clone, Copy, Debug, PartialEq, Eq, Structural)]
pub enum LinkFault {
    Rtt,
    Jitter,
    Bandwidth,
}

/// The message for the numbers of a network.
pub open spec fn fault_text(name: Seq<char>, f: LinkFault) -> Seq<char> {
    match f {
        LinkFault::Rtt => name + " RTT must be finite and nonnegative"@,
        LinkFault::Jitter => name + " jitter must be finite and nonnegative"@,
        LinkFault::Bandwidth => name + " bandwidth must be finite and positive"@,
    }
}

/// The message for the numbers of a network.
pub fn say_fault(name: &str, f: LinkFault) -> (r: String)
    ensures
        r@ == fault_text(name@, f),
{
    let mut e = copy_text(name);
    match f {
        LinkFault::Rtt => append(&mut e, " RTT must be finite and nonnegative"),
        LinkFault::Jitter => append(&mut e, " jitter must be finite and nonnegative"),
        LinkFault::Bandwidth => append(&mut e, " bandwidth must be finite and positive"),
    }
    e
}

/// An operation that can be selected.
pub open spec fn known_op(s: Seq<char>) -> bool {
    s == "reg"@ || s == "secupd"@ || s == "pwdupd"@
}

/// All operations are selected by the one word for that, or every one of the list is known.
pub open spec fn ops_known(ops: Seq<char>) -> bool {
    let p = split(ops, ',');
    ||| trim(ops) == "all"@
    ||| forall|i: int| 0 <= i < p.len() ==> known_op(trim(#[trigger] p[i]))
}

fn check_ops(ops: &str) -> (r: bool)
    ensures
        r == ops_known(ops@),
{
    let word = trimmed(chars_of(ops).as_slice());
    if is_text(word.as_slice(), "all") {
        return true;
    }
    let p = split_at_each(chars_of(ops).as_slice(), ',');
    let ghost g = split(ops@, ',');
    let mut i: usize = 0;
    while i < p.len()
        invariant
            i <= p@.len(),
            g == parts(p@),
            g == split(ops@, ','),
            trim(ops@) != "all"@,
            forall|j: int| 0 <= j < i ==> known_op(trim(#[trigger] g[j])),
        decreases p@.len() - i,
    {
        assert(g[i as int] == p@[i as int]@);
        let part = trimmed(p[i].as_slice());
        let s = part.as_slice();
        if !(is_text(s, "reg") || is_text(s, "secupd") || is_text(s, "pwdupd")) {
            assert(!known_op(trim(g[i as int])));
            return false;
        }
        i = i + 1;
    }
    true
}

/// The most providers that may be unavailable while a quorum remains.
pub open spec fn max_unavailable(nsp: nat, tsp: nat) -> nat {
    (nsp - (nsp + tsp + 1) / 2) as nat
}

/// The message for too many unavailable providers.
pub open spec fn too_many_offline(count: nat, nsp: nat, tsp: nat) -> Seq<char> {
    "--offline "@ + numeral(count) + " exceeds the admissible maximum "@ + numeral(
        max_unavailable(nsp, tsp),
    ) + " for nsp="@ + numeral(nsp) + ", tsp="@ + numeral(tsp)
}

/// The message for the first of the pairs from place `k` on for which too many providers
/// are unavailable.
pub open spec fn offline_error(v: Seq<(nat, nat)>, count: nat, k: int) -> Option<Seq<char>>
    decreases v.len() - k,
{
    if k >= v.len() {
        None
    } else if count > max_unavailable(v[k].0, v[k].1) {
        Some(too_many_offline(count, v[k].0, v[k].1))
    } else {
        offline_error(v, count, k + 1)
    }
}

/// The message for settings that cannot be run, given what is wrong with the numbers of
/// the two networks; none for settings that can.
pub open spec fn refusal(
    s: Settings,
    lan: Option<LinkFault>,
    wan: Option<LinkFault>,
) -> Option<Seq<char>> {
    if exists|i: int| 0 <= i < s.nsp.len() && #[trigger] s.nsp[i] == 0 {
        Some("all --nsp values must be positive"@)
    } else if s.sample_size == 0 || s.proc_samples == 0 {
        Some("--sample-size and --proc-samples must be positive"@)
    } else if !(s.net == "lan"@ || s.net == "wan"@ || s.net == "all"@) {
        Some("--net must be lan, wan, or all"@)
    } else if lan is Some {
        Some(fault_text("LAN"@, lan->Some_0))
    } else if wan is Some {
        Some(fault_text("WAN"@, wan->Some_0))
    } else if !(s.pwdupd == "1"@ || s.pwdupd == "2"@ || s.pwdupd == "v1"@ || s.pwdupd == "v2"@
        || s.pwdupd == "both"@ || s.pwdupd == "all"@) {
        Some("--pwdupd must be v1, v2, or both"@)
    } else if !ops_known(s.ops) {
        Some("--ops must contain only reg, secupd, pwdupd, or all"@)
    } else {
        match grid(s, s.nsp.len() as int) {
            Err(e) => Some(e),
            Ok(v) => {
                let offline = match s.offline {
                    Offline::Count(n) => if s.schemes.contains(Scheme::UpSpaQuorum) {
                        offline_error(v, n as nat, 0)
                    } else {
                        None
                    },
                    _ => None,
                };
                if offline is Some {
                    offline
                } else if !exists|i: int|
                    0 <= i < s.schemes.len() && works(#[trigger] s.schemes[i], s.kinds) {
                    Some("the selected schemes and kinds produce no benchmark rows"@)
                } else {
                    None
                }
            },
        }
    }
}

fn check_offline(v: &Vec<(u64, u64)>, count: usize) -> (r: Option<String>)
    requires
        forall|i: int| 0 <= i < v@.len() ==> 1 <= (#[trigger] v@[i]).1 <= v@[i].0,
    ensures
        match r {
            Some(e) => offline_error(pairs(v@), count as nat, 0) == Some(e@),
            None => offline_error(pairs(v@), count as nat, 0) is None,
        },
{
    let ghost g = pairs(v@);
    let mut k: usize = 0;
    while k < v.len()
        invariant
            k <= v@.len(),
            g == pairs(v@),
            forall|i: int| 0 <= i < v@.len() ==> 1 <= (#[trigger] v@[i]).1 <= v@[i].0,
            offline_error(g, count as nat, k as int) == offline_error(g, count as nat, 0),
        decreases v@.len() - k,
    {
        let (nsp, tsp) = v[k];
        assert(g[k as int] == (nsp as nat, tsp as nat));
        let q: u128 = (nsp as u128 + tsp as u128 + 1) / 2;
        let maximum: u128 = nsp as u128 - q;
        assert(maximum == max_unavailable(nsp as nat, tsp as nat));
        if count as u128 > maximum {
            let mut e = copy_text("--offline ");
            append(&mut e, number_text(count as u128).as_str());
            append(&mut e, " exceeds the admissible maximum ");
            append(&mut e, number_text(maximum).as_str());
            append(&mut e, " for nsp=");
            append(&mut e, number_text(nsp as u128).as_str());
            append(&mut e, ", tsp=");
            append(&mut e, number_text(tsp as u128).as_str());
            return Some(e);
        }
        k = k + 1;
    }
    None
}

fn any_zero(v: &Vec<u64>) -> (r: bool)
    ensures
        r == exists|i: int| 0 <= i < nats(v@).len() && #[trigger] nats(v@)[i] == 0,
{
    let mut i: usize = 0;
    while i < v.len()
        invariant
            i <= v@.len(),
            forall|j: int| 0 <= j < i ==> #[trigger] nats(v@)[j] != 0,
        decreases v@.len() - i,
    {
        if v[i] == 0 {
            assert(nats(v@)[i as int] == 0);
            return true;
        }
        i = i + 1;
    }
    false
}

fn any_work(v: &Vec<Scheme>, kinds: &Kinds) -> (r: bool)
    ensures
        r == exists|i: int| 0 <= i < v@.len() && works(#[trigger] v@[i], *kinds),
{
    let mut i: usize = 0;
    while i < v.len()
        invariant
            i <= v@.len(),
            forall|j: int| 0 <= j < i ==> !works(#[trigger] v@[j], *kinds),
        decreases v@.len() - i,
    {
        if has_work(v[i], kinds) {
            return true;
        }
        i = i + 1;
    }
    false
}

fn runs_quorum(v: &Vec<Scheme>) -> (r: bool)
    ensures
        r == v@.contains(Scheme::UpSpaQuorum),
{
    let mut i: usize = 0;
    while i < v.len()
        invariant
            i <= v@.len(),
            forall|j: int| 0 <= j < i ==> v@[j] != Scheme::UpSpaQuorum,
        decreases v@.len() - i,
    {
        if v[i] == Scheme::UpSpaQuorum {
            return true;
        }
        i = i + 1;
    }
    false
}

/// Checks the settings. What is wrong with the floating-point numbers of the networks is
/// given.
pub fn validate(cfg: &Config, lan: Option<LinkFault>, wan: Option<LinkFault>) -> (r: Result<
    (),
    String,
>)
    requires
        cfg@.tsp is Some || cfg@.tsp_pct is Some,
    ensures
        match r {
            Ok(_) => refusal(cfg@, lan, wan) is None,
            Err(e) => refusal(cfg@, lan, wan) == Some(e@),
        },
{
    if any_zero(&cfg.nsp) {
        return Err(copy_text("all --nsp values must be positive"));
    }
    if cfg.sample_size == 0 || cfg.proc_samples == 0 {
        return Err(copy_text("--sample-size and --proc-samples must be positive"));
    }
    let net = chars_of(cfg.net.as_str());
    let n = net.as_slice();
    if !(is_text(n, "lan") || is_text(n, "wan") || is_text(n, "all")) {
        return Err(copy_text("--net must be lan, wan, or all"));
    }
    match lan {
        Some(f) => {
            return Err(say_fault("LAN", f));
        },
        None => {},
    }
    match wan {
        Some(f) => {
            return Err(say_fault("WAN", f));
        },
        None => {},
    }
    let pwd = chars_of(cfg.pwdupd.as_str());
    let p = pwd.as_slice();
    if !(is_text(p, "1") || is_text(p, "2") || is_text(p, "v1") || is_text(p, "v2") || is_text(
        p,
        "both",
    ) || is_text(p, "all")) {
        return Err(copy_text("--pwdupd must be v1, v2, or both"));
    }
    if !check_ops(cfg.ops.as_str()) {
        return Err(copy_text("--ops must contain only reg, secupd, pwdupd, or all"));
    }
    let v = match thresholds(cfg) {
        Ok(v) => v,
        Err(e) => {
            return Err(e);
        },
    };
    proof {
        accepted_grid_is_valid(cfg@, cfg@.nsp.len() as int);
        assert forall|i: int| 0 <= i < v@.len() implies 1 <= (#[trigger] v@[i]).1 <= v@[i].0 by {
            assert(pairs(v@)[i] == (v@[i].0 as nat, v@[i].1 as nat));
        }
    }
    match cfg.offline {
        Offline::Count(count) => {
            if runs_quorum(&cfg.schemes) {
                match check_offline(&v, count) {
                    Some(e) => {
                        return Err(e);
                    },
                    None => {},
                }
            }
        },
        _ => {},
    }
    if !any_work(&cfg.schemes, &cfg.kinds) {
        return Err(copy_text("the selected schemes and kinds produce no benchmark rows"));
    }
    proof {
        let s = cfg@;
        assert(s.schemes == cfg.schemes@);
        assert(s.nsp == nats(cfg.nsp@));
        assert(!exists|i: int| 0 <= i < s.nsp.len() && #[trigger] s.nsp[i] == 0);
        assert(grid(s, s.nsp.len() as int) is Ok);
        assert(exists|i: int| 0 <= i < s.schemes.len() && works(#[trigger] s.schemes[i], s.kinds));
    }
    Ok(())
}

proof fn lemma_offline_fits(v: Seq<(nat, nat)>, count: nat, k: int, i: int)
    requires
        0 <= k <= i < v.len(),
        offline_error(v, count, k) is None,
    ensures
        count <= max_unavailable(v[i].0, v[i].1),
    decreases i - k,
{
    if k < i {
        lemma_offline_fits(v, count, k + 1, i);
    }
}

/// With settings that are not refused, a given number of unavailable providers leaves, for
/// every pair of the grid, a quorum and as many providers as the threshold.
pub proof fn accepted_offline_leaves_a_quorum(
    s: Settings,
    lan: Option<LinkFault>,
    wan: Option<LinkFault>,
    i: int,
)
    requires
        refusal(s, lan, wan) is None,
        s.schemes.contains(Scheme::UpSpaQuorum),
        0 <= i < grid(s, s.nsp.len() as int)->Ok_0.len(),
    ensures
        grid(s, s.nsp.len() as int) is Ok,
        s.offline matches Offline::Count(count) ==> {
            let (nsp, tsp) = grid(s, s.nsp.len() as int)->Ok_0[i];
            &&& 1 <= tsp <= quorum(nsp, tsp) <= nsp
            &&& count <= nsp - quorum(nsp, tsp)
        },
{
    let v = grid(s, s.nsp.len() as int)->Ok_0;
    accepted_grid_is_valid(s, s.nsp.len() as int);
    assert(1 <= v[i].1 <= v[i].0);
    match s.offline {
        Offline::Count(count) => {
            lemma_offline_fits(v, count as nat, 0, i);
        },
        _ => {},
    }
}

} // verus!
