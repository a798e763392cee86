//! The arguments of the benchmark engines of the single schemes.
use vstd::prelude::*;

use crate::float_text::{float_text, is_float};
use crate::text::{
    append, chars_of, copy_text, is_text, lower, parsed, parse_number, parts, replace_each,
    replaced, split, split_at_each, text_of, texts, to_lower, trim, trimmed,
};
use crate::unified::{nats, numbers_of, parse_numbers};
use crate::unified_config::{
    find_flag, flag_named, lower_text, opt_nats, takes_value, Flag, LinkState, LinkText,
};
use crate::unified_plan::{push_string, push_text};

verus! {

/// The benchmark engines.
#[derive(Clone, Copy, Debug, PartialEq, Eq, Structural)]
pub enum Engine {
    AugSso,
    PasTaU,
    Quorum,
}

/// How many providers are unavailable.
#[derive(Clone, Copy, Debug, PartialEq, Eq, Structural)]
pub enum OfflineSpec {
    Max,
    Count(usize),
}

/// The number of unavailable providers that a text stands for.
pub open spec fn offline_spec(s: Seq<char>) -> Option<OfflineSpec> {
    let l = lower(trim(s));
    if l == "max"@ || l == "quorum_max"@ || l == "majority_max"@ {
        Some(OfflineSpec::Max)
    } else if l == "none"@ || l == "zero"@ || l == "0"@ {
        Some(OfflineSpec::Count(0))
    } else {
        match parsed(l, usize::MAX as nat) {
            Some(n) => Some(OfflineSpec::Count(n as usize)),
            None => None,
        }
    }
}

impl OfflineSpec {
    /// Reads a number of unavailable providers.
    pub fn parse(s: &str) -> (r: Option<OfflineSpec>)
        ensures
            r == offline_spec(s@),
    {
        let l = to_lower(trimmed(chars_of(s).as_slice()).as_slice());
        let t = l.as_slice();
        if is_text(t, "max") || is_text(t, "quorum_max") || is_text(t, "majority_max") {
            return Some(OfflineSpec::Max);
        }
        if is_text(t, "none") || is_text(t, "zero") || is_text(t, "0") {
            return Some(OfflineSpec::Count(0));
        }
        match parse_number(t, usize::MAX as u64) {
            Some(n) => Some(OfflineSpec::Count(n as usize)),
            None => None,
        }
    }
}

/// The settings of an engine.
#[derive(Clone, Debug)]
pub struct EngineConfig {
    pub kinds: Vec<String>,
    pub nets: Vec<String>,
    pub ops: Vec<String>,
    pub nsp_list: Vec<u64>,
    pub tsp_list: Option<Vec<u64>>,
    pub tsp_pct_list: Option<Vec<u64>>,
    pub samples: u64,
    pub warmup: u64,
    pub proc_warmup: u64,
    pub proc_samples: u64,
    pub out_path: String,
    pub rng_in_timed: bool,
    pub lan: LinkText,
    pub wan: LinkText,
    pub overhead_bytes: u64,
    pub offline: OfflineSpec,
}

/// What the settings of an engine say.
#[verifier::ext_equal]
pub struct EngineState {
    pub kinds: Seq<Seq<char>>,
    pub nets: Seq<Seq<char>>,
    pub ops: Seq<Seq<char>>,
    pub nsp_list: Seq<nat>,
    pub tsp_list: Option<Seq<nat>>,
    pub tsp_pct_list: Option<Seq<nat>>,
    pub samples: nat,
    pub warmup: nat,
    pub proc_warmup: nat,
    pub proc_samples: nat,
    pub out_path: Seq<char>,
    pub rng_in_timed: bool,
    pub lan: LinkState,
    pub wan: LinkState,
    pub overhead_bytes: nat,
    pub offline: OfflineSpec,
}

impl View for EngineConfig {
    type V = EngineState;

    open spec fn view(&self) -> EngineState {
        EngineState {
            kinds: texts(self.kinds@),
            nets: texts(self.nets@),
            ops: texts(self.ops@),
            nsp_list: nats(self.nsp_list@),
            tsp_list: opt_nats(self.tsp_list),
            tsp_pct_list: opt_nats(self.tsp_pct_list),
            samples: self.samples as nat,
            warmup: self.warmup as nat,
            proc_warmup: self.proc_warmup as nat,
            proc_samples: self.proc_samples as nat,
            out_path: self.out_path@,
            rng_in_timed: self.rng_in_timed,
            lan: self.lan@,
            wan: self.wan@,
            overhead_bytes: self.overhead_bytes as nat,
            offline: self.offline,
        }
    }
}

/// The kinds of the quorum engine.
pub open spec fn quorum_kind_names() -> Seq<Seq<char>> {
    seq!["full_no_net"@, "full_net"@, "quorum_overhead"@]
}

/// The phases of the quorum engine.
pub open spec fn quorum_op_names() -> Seq<Seq<char>> {
    seq!["reg"@, "secupd"@, "pwdupd"@]
}

/// The settings of an engine without arguments.
pub open spec fn engine_defaults(e: Engine) -> EngineState {
    match e {
        Engine::AugSso => EngineState {
            kinds: seq!["all"@],
            nets: seq!["all"@],
            ops: seq![],
            nsp_list: seq![20nat, 40nat, 60nat],
            tsp_list: None,
            tsp_pct_list: Some(seq![50nat]),
            samples: 200,
            warmup: 50,
            proc_warmup: 50,
            proc_samples: 200,
            out_path: "augsso_bench.txt"@,
            rng_in_timed: false,
            lan: LinkState { rtt_ms: "1"@, jitter_ms: "0.5"@, bw_mbps: "1000"@ },
            wan: LinkState { rtt_ms: "50"@, jitter_ms: "5"@, bw_mbps: "50"@ },
            overhead_bytes: 40,
            offline: OfflineSpec::Max,
        },
        Engine::PasTaU => EngineState {
            kinds: seq!["all"@],
            nets: seq!["all"@],
            ops: seq![],
            nsp_list: seq![20nat, 40nat, 60nat],
            tsp_list: None,
            tsp_pct_list: Some(seq![50nat]),
            samples: 200,
            warmup: 50,
            proc_warmup: 200,
            proc_samples: 400,
            out_path: "pastau_bench.txt"@,
            rng_in_timed: false,
            lan: LinkState { rtt_ms: "2"@, jitter_ms: "0.2"@, bw_mbps: "1000"@ },
            wan: LinkState { rtt_ms: "80"@, jitter_ms: "5"@, bw_mbps: "100"@ },
            overhead_bytes: 40,
            offline: OfflineSpec::Max,
        },
        Engine::Quorum => EngineState {
            kinds: quorum_kind_names(),
            nets: seq!["all"@],
            ops: quorum_op_names(),
            nsp_list: seq![20nat, 40nat, 60nat, 80nat, 100nat],
            tsp_list: None,
            tsp_pct_list: Some(seq![60nat, 80nat, 100nat]),
            samples: 200,
            warmup: 50,
            proc_warmup: 0,
            proc_samples: 0,
            out_path: "abd_bench.dat"@,
            rng_in_timed: false,
            lan: LinkState { rtt_ms: "0.6"@, jitter_ms: "0.05"@, bw_mbps: "1000"@ },
            wan: LinkState { rtt_ms: "80"@, jitter_ms: "5"@, bw_mbps: "100"@ },
            overhead_bytes: 64,
            offline: OfflineSpec::Max,
        },
    }
}

fn one_text(s: &str) -> (r: Vec<String>)
    ensures
        texts(r@) == seq![s@],
{
    let mut v: Vec<String> = Vec::new();
    push_text(&mut v, s);
    assert(texts(v@) =~= seq![s@]);
    v
}

fn three_texts(a: &str, b: &str, c: &str) -> (r: Vec<String>)
    ensures
        texts(r@) == seq![a@, b@, c@],
{
    let mut v: Vec<String> = Vec::new();
    push_text(&mut v, a);
    push_text(&mut v, b);
    push_text(&mut v, c);
    assert(texts(v@) =~= seq![a@, b@, c@]);
    v
}

fn link(rtt: &str, jitter: &str, bw: &str) -> (r: LinkText)
    ensures
        r@ == (LinkState { rtt_ms: rtt@, jitter_ms: jitter@, bw_mbps: bw@ }),
{
    LinkText { rtt_ms: copy_text(rtt), jitter_ms: copy_text(jitter), bw_mbps: copy_text(bw) }
}

impl EngineConfig {
    /// The settings of an engine without arguments.
    pub fn standard(e: Engine) -> (r: EngineConfig)
        ensures
            r@ == engine_defaults(e),
    {
        let r = match e {
            Engine::AugSso => {
                let nsp_list: Vec<u64> = vec![20, 40, 60];
                let pct: Vec<u64> = vec![50];
                assert(nats(nsp_list@) =~= seq![20nat, 40nat, 60nat]);
                assert(nats(pct@) =~= seq![50nat]);
                EngineConfig {
                    kinds: one_text("all"),
                    nets: one_text("all"),
                    ops: Vec::new(),
                    nsp_list,
                    tsp_list: None,
                    tsp_pct_list: Some(pct),
                    samples: 200,
                    warmup: 50,
                    proc_warmup: 50,
                    proc_samples: 200,
                    out_path: copy_text("augsso_bench.txt"),
                    rng_in_timed: false,
                    lan: link("1", "0.5", "1000"),
                    wan: link("50", "5", "50"),
                    overhead_bytes: 40,
                    offline: OfflineSpec::Max,
                }
            },
            Engine::PasTaU => {
                let nsp_list: Vec<u64> = vec![20, 40, 60];
                let pct: Vec<u64> = vec![50];
                assert(nats(nsp_list@) =~= seq![20nat, 40nat, 60nat]);
                assert(nats(pct@) =~= seq![50nat]);
                EngineConfig {
                    kinds: one_text("all"),
                    nets: one_text("all"),
                    ops: Vec::new(),
                    nsp_list,
                    tsp_list: None,
                    tsp_pct_list: Some(pct),
                    samples: 200,
                    warmup: 50,
                    proc_warmup: 200,
                    proc_samples: 400,
                    out_path: copy_text("pastau_bench.txt"),
                    rng_in_timed: false,
                    lan: link("2", "0.2", "1000"),
                    wan: link("80", "5", "100"),
                    overhead_bytes: 40,
                    offline: OfflineSpec::Max,
                }
            },
            Engine::Quorum => {
                let nsp_list: Vec<u64> = vec![20, 40, 60, 80, 100];
                let pct: Vec<u64> = vec![60, 80, 100];
                assert(nats(nsp_list@) =~= seq![20nat, 40nat, 60nat, 80nat, 100nat]);
                assert(nats(pct@) =~= seq![60nat, 80nat, 100nat]);
                EngineConfig {
                    kinds: three_texts("full_no_net", "full_net", "quorum_overhead"),
                    nets: one_text("all"),
                    ops: three_texts("reg", "secupd", "pwdupd"),
                    nsp_list,
                    tsp_list: None,
                    tsp_pct_list: Some(pct),
                    samples: 200,
                    warmup: 50,
                    proc_warmup: 0,
                    proc_samples: 0,
                    out_path: copy_text("abd_bench.dat"),
                    rng_in_timed: false,
                    lan: link("0.6", "0.05", "1000"),
                    wan: link("80", "5", "100"),
                    overhead_bytes: 64,
                    offline: OfflineSpec::Max,
                }
            },
        };
        assert(r@ =~= engine_defaults(e));
        r
    }
}

/// The meaning that an argument has for an engine.
pub open spec fn engine_flag(e: Engine, s: Seq<char>) -> Option<Flag> {
    match flag_named(s) {
        None => None,
        Some(f) => {
            let known = match e {
                Engine::AugSso => s != "--rng"@ && !quorum_only(f) && !unified_only(f),
                Engine::PasTaU => s != "--rng"@ && s != "--samples"@ && s != "--warmup"@
                    && !quorum_only(f) && !unified_only(f),
                Engine::Quorum => s != "--samples"@ && s != "--warmup"@ && !unified_only(f) && f
                    != Flag::RngInTimed && f != Flag::ProcWarmup && f != Flag::ProcSamples,
            };
            if known {
                Some(f)
            } else {
                None
            }
        },
    }
}

/// Arguments that only the quorum engine takes.
pub open spec fn quorum_only(f: Flag) -> bool {
    f == Flag::Ops || f == Flag::Unavailable || f == Flag::Ignored
}

/// Arguments that no engine takes.
pub open spec fn unified_only(f: Flag) -> bool {
    f == Flag::Schemes || f == Flag::PasswordUpdate || f == Flag::DryRun
}

fn find_engine_flag(e: Engine, s: &str) -> (r: Option<Flag>)
    ensures
        r == engine_flag(e, s@),
{
    let v = chars_of(s);
    let t = v.as_slice();
    match find_flag(s) {
        None => None,
        Some(f) => {
            let quorum = f == Flag::Ops || f == Flag::Unavailable || f == Flag::Ignored;
            let unified = f == Flag::Schemes || f == Flag::PasswordUpdate || f == Flag::DryRun;
            let short = is_text(t, "--samples") || is_text(t, "--warmup");
            let known = match e {
                Engine::AugSso => !is_text(t, "--rng") && !quorum && !unified,
                Engine::PasTaU => !is_text(t, "--rng") && !short && !quorum && !unified,
                Engine::Quorum => !short && !unified && f != Flag::RngInTimed && f
                    != Flag::ProcWarmup && f != Flag::ProcSamples,
            };
            if known {
                Some(f)
            } else {
                None
            }
        },
    }
}

/// The name under which an engine reports a bad value.
pub open spec fn bad_name(e: Engine, f: Flag, name: Seq<char>) -> Seq<char> {
    match e {
        Engine::AugSso => match f {
            Flag::Nsp => "integer"@,
            Flag::Tsp => "integer"@,
            Flag::TspPct => "integer"@,
            Flag::ProcWarmup => "proc_warmup"@,
            Flag::ProcSamples => "proc_samples"@,
            _ => name.skip(2),
        },
        Engine::PasTaU => match f {
            Flag::Nsp => "usize list element"@,
            Flag::Tsp => "usize list element"@,
            Flag::TspPct => "u32 list element"@,
            _ => name.skip(2),
        },
        Engine::Quorum => match f {
            Flag::Nsp => "usize list element"@,
            Flag::Tsp => "usize list element"@,
            Flag::TspPct => "u32 list element"@,
            Flag::SampleSize => "sample size"@,
            Flag::WarmupIters => "warmup"@,
            Flag::LanRtt => "LAN RTT"@,
            Flag::LanJitter => "LAN jitter"@,
            Flag::LanBandwidth => "LAN bandwidth"@,
            Flag::WanRtt => "WAN RTT"@,
            Flag::WanJitter => "WAN jitter"@,
            Flag::WanBandwidth => "WAN bandwidth"@,
            Flag::OverheadBytes => "overhead"@,
            _ => "--offline value; use max, none, or a nonnegative integer"@,
        },
    }
}

fn without_dashes(name: &str) -> (r: String)
    requires
        name@.len() >= 2,
    ensures
        r@ == name@.skip(2),
{
    let v = chars_of(name);
    let mut r = String::new();
    let mut i: usize = 2;
    assert(r@ =~= name@.subrange(2, 2));
    while i < v.len()
        invariant
            2 <= i <= v@.len(),
            v@ == name@,
            r@ == name@.subrange(2, i as int),
        decreases v@.len() - i,
    {
        r.push(v[i]);
        assert(r@ =~= name@.subrange(2, i + 1));
        i = i + 1;
    }
    assert(r@ =~= name@.skip(2));
    r
}

fn say_bad_name(e: Engine, f: Flag, name: &str) -> (r: String)
    requires
        name@.len() >= 2,
    ensures
        r@ == bad_name(e, f, name@),
{
    match e {
        Engine::AugSso => match f {
            Flag::Nsp => copy_text("integer"),
            Flag::Tsp => copy_text("integer"),
            Flag::TspPct => copy_text("integer"),
            Flag::ProcWarmup => copy_text("proc_warmup"),
            Flag::ProcSamples => copy_text("proc_samples"),
            _ => without_dashes(name),
        },
        Engine::PasTaU => match f {
            Flag::Nsp => copy_text("usize list element"),
            Flag::Tsp => copy_text("usize list element"),
            Flag::TspPct => copy_text("u32 list element"),
            _ => without_dashes(name),
        },
        Engine::Quorum => match f {
            Flag::Nsp => copy_text("usize list element"),
            Flag::Tsp => copy_text("usize list element"),
            Flag::TspPct => copy_text("u32 list element"),
            Flag::SampleSize => copy_text("sample size"),
            Flag::WarmupIters => copy_text("warmup"),
            Flag::LanRtt => copy_text("LAN RTT"),
            Flag::LanJitter => copy_text("LAN jitter"),
            Flag::LanBandwidth => copy_text("LAN bandwidth"),
            Flag::WanRtt => copy_text("WAN RTT"),
            Flag::WanJitter => copy_text("WAN jitter"),
            Flag::WanBandwidth => copy_text("WAN bandwidth"),
            Flag::OverheadBytes => copy_text("overhead"),
            _ => copy_text("--offline value; use max, none, or a nonnegative integer"),
        },
    }
}

/// Why an engine does not run.
#[derive(Clone, Debug)]
pub enum Refused {
    /// Help was asked for.
    Help,
    /// An argument that the engine does not know.
    Unknown(String),
    /// An argument without its value.
    Missing(String),
    /// A value that cannot be read, under the name it is reported by.
    Bad(String),
    /// A kind that the quorum engine does not know.
    UnknownKind(String),
    /// A phase that the quorum engine does not know.
    UnknownOp(String),
}

/// What a refusal says.
pub enum Refusal {
    Help,
    Unknown(Seq<char>),
    Missing(Seq<char>),
    Bad(Seq<char>),
    UnknownKind(Seq<char>),
    UnknownOp(Seq<char>),
}

impl View for Refused {
    type V = Refusal;

    open spec fn view(&self) -> Refusal {
        match *self {
            Refused::Help => Refusal::Help,
            Refused::Unknown(s) => Refusal::Unknown(s@),
            Refused::Missing(s) => Refusal::Missing(s@),
            Refused::Bad(s) => Refusal::Bad(s@),
            Refused::UnknownKind(s) => Refusal::UnknownKind(s@),
            Refused::UnknownOp(s) => Refusal::UnknownOp(s@),
        }
    }
}

/// The message for a refusal.
pub open spec fn refusal_text(e: Engine, f: Refusal) -> Seq<char> {
    match f {
        Refusal::Help => Seq::empty(),
        Refusal::Unknown(s) => match e {
            Engine::AugSso => "Unknown arg: "@ + s,
            Engine::PasTaU => "Unknown flag: "@ + s,
            Engine::Quorum => "unknown argument: "@ + s + " (use --help)"@,
        },
        Refusal::Missing(s) => "missing "@ + s + " value"@,
        Refusal::Bad(s) => "bad "@ + s,
        Refusal::UnknownKind(s) => "unknown --kind '"@ + s
            + "'; use full-no-net, full-net, quorum-overhead, or all"@,
        Refusal::UnknownOp(s) => "unknown --ops '"@ + s + "'; use reg,secupd,pwdupd, or all"@,
    }
}

fn around(a: &str, s: &str, b: &str) -> (r: String)
    ensures
        r@ == a@ + s@ + b@,
{
    let mut r = copy_text(a);
    append(&mut r, s);
    append(&mut r, b);
    r
}

impl Refused {
    /// The message for a refusal.
    pub fn message(&self, e: Engine) -> (r: String)
        ensures
            r@ == refusal_text(e, self@),
    {
        match self {
            Refused::Help => {
                let r = String::new();
                assert(r@ =~= Seq::<char>::empty());
                r
            },
            Refused::Unknown(s) => match e {
                Engine::AugSso => {
                    let r = around("Unknown arg: ", s.as_str(), "");
                    proof {
                        reveal_strlit("");
                        assert(r@ =~= "Unknown arg: "@ + s@);
                    }
                    r
                },
                Engine::PasTaU => {
                    let r = around("Unknown flag: ", s.as_str(), "");
                    proof {
                        reveal_strlit("");
                        assert(r@ =~= "Unknown flag: "@ + s@);
                    }
                    r
                },
                Engine::Quorum => around("unknown argument: ", s.as_str(), " (use --help)"),
            },
            Refused::Missing(s) => around("missing ", s.as_str(), " value"),
            Refused::Bad(s) => {
                let r = around("bad ", s.as_str(), "");
                proof {
                    reveal_strlit("");
                    assert(r@ =~= "bad "@ + s@);
                }
                r
            },
            Refused::UnknownKind(s) => around(
                "unknown --kind '",
                s.as_str(),
                "'; use full-no-net, full-net, quorum-overhead, or all",
            ),
            Refused::UnknownOp(s) => around(
                "unknown --ops '",
                s.as_str(),
                "'; use reg,secupd,pwdupd, or all",
            ),
        }
    }
}

/// The trimmed parts, blank ones too.
pub open spec fn trimmed_parts(p: Seq<Seq<char>>) -> Seq<Seq<char>> {
    Seq::new(p.len(), |i: int| trim(p[i]))
}

/// The trimmed parts before place `k` in lower case, with a dash as an underscore where
/// `dashes` says so. Blank parts are passed over.
pub open spec fn lower_parts(p: Seq<Seq<char>>, dashes: bool, k: int) -> Seq<Seq<char>>
    decreases k,
{
    if k <= 0 {
        Seq::empty()
    } else {
        let before = lower_parts(p, dashes, k - 1);
        let part = trim(p[k - 1]);
        if part.len() == 0 {
            before
        } else if dashes {
            before.push(replaced(lower(part), '-', '_'))
        } else {
            before.push(lower(part))
        }
    }
}

/// The trimmed parts of a list.
pub fn split_parts(s: &str) -> (r: Vec<String>)
    ensures
        texts(r@) == trimmed_parts(split(s@, ',')),
{
    let p = split_at_each(chars_of(s).as_slice(), ',');
    let ghost g = split(s@, ',');
    let mut v: Vec<String> = Vec::new();
    let mut k: usize = 0;
    while k < p.len()
        invariant
            k <= p@.len(),
            g == parts(p@),
            v@.len() == k,
            forall|j: int| 0 <= j < k ==> #[trigger] texts(v@)[j] == trim(g[j]),
        decreases p@.len() - k,
    {
        let ghost before = texts(v@);
        assert(g[k as int] == p@[k as int]@);
        push_string(&mut v, text_of(trimmed(p[k].as_slice()).as_slice()));
        assert forall|j: int| 0 <= j < k + 1 implies #[trigger] texts(v@)[j] == trim(g[j]) by {
            if j < k {
                assert(texts(v@)[j] == before[j]);
            }
        }
        k = k + 1;
    }
    assert(texts(v@) =~= trimmed_parts(g));
    v
}

/// The parts of a list in lower case.
pub fn parse_list_string_lower(s: &str, dashes: bool) -> (r: Vec<String>)
    ensures
        texts(r@) == lower_parts(split(s@, ','), dashes, split(s@, ',').len() as int),
{
    let p = split_at_each(chars_of(s).as_slice(), ',');
    let ghost g = split(s@, ',');
    let mut v: Vec<String> = Vec::new();
    let mut k: usize = 0;
    assert(texts(v@) =~= Seq::<Seq<char>>::empty());
    while k < p.len()
        invariant
            k <= p@.len(),
            g == parts(p@),
            texts(v@) == lower_parts(g, dashes, k as int),
        decreases p@.len() - k,
    {
        assert(g[k as int] == p@[k as int]@);
        let part = trimmed(p[k].as_slice());
        if part.len() > 0 {
            let l = to_lower(part.as_slice());
            if dashes {
                push_string(&mut v, text_of(replace_each(l.as_slice(), '-', '_').as_slice()));
            } else {
                push_string(&mut v, text_of(l.as_slice()));
            }
        }
        k = k + 1;
    }
    v
}

/// The kinds that a value selects.
pub open spec fn kinds_given(e: Engine, v: Seq<char>) -> Seq<Seq<char>> {
    match e {
        Engine::AugSso => trimmed_parts(split(v, ',')),
        Engine::PasTaU => lower_parts(split(v, ','), false, split(v, ',').len() as int),
        Engine::Quorum => if lower(v) == "all"@ {
            quorum_kind_names()
        } else {
            lower_parts(split(v, ','), true, split(v, ',').len() as int)
        },
    }
}

/// The networks that a value selects.
pub open spec fn nets_given(e: Engine, v: Seq<char>) -> Seq<Seq<char>> {
    match e {
        Engine::AugSso => seq![v],
        Engine::PasTaU => lower_parts(split(v, ','), false, split(v, ',').len() as int),
        Engine::Quorum => seq![lower(v)],
    }
}

/// The phases that a value selects.
pub open spec fn ops_given(v: Seq<char>) -> Seq<Seq<char>> {
    if lower(v) == "all"@ {
        quorum_op_names()
    } else {
        lower_parts(split(v, ','), true, split(v, ',').len() as int)
    }
}

/// The largest percentage that an engine reads.
pub open spec fn pct_max(e: Engine) -> nat {
    if e == Engine::AugSso {
        usize::MAX as nat
    } else {
        u32::MAX as nat
    }
}

/// The settings of an engine after an argument with the meaning `f` and the value `v`; none
/// if the value cannot be read.
pub open spec fn engine_given(e: Engine, c: EngineState, f: Flag, v: Seq<char>) -> Option<
    EngineState,
> {
    let number = parsed(v, usize::MAX as nat);
    match f {
        Flag::Kinds => Some(EngineState { kinds: kinds_given(e, v), ..c }),
        Flag::Net => Some(EngineState { nets: nets_given(e, v), ..c }),
        Flag::Ops => Some(EngineState { ops: ops_given(v), ..c }),
        Flag::Nsp => match numbers_of(v, usize::MAX as nat, ""@) {
            Ok(x) => Some(EngineState { nsp_list: x, ..c }),
            Err(_) => None,
        },
        Flag::Tsp => match numbers_of(v, usize::MAX as nat, ""@) {
            Ok(x) => Some(EngineState { tsp_list: Some(x), tsp_pct_list: None, ..c }),
            Err(_) => None,
        },
        Flag::TspPct => match numbers_of(v, pct_max(e), ""@) {
            Ok(x) => Some(EngineState { tsp_pct_list: Some(x), tsp_list: None, ..c }),
            Err(_) => None,
        },
        Flag::SampleSize => match number {
            Some(n) => Some(EngineState { samples: n, ..c }),
            None => None,
        },
        Flag::WarmupIters => match number {
            Some(n) => Some(EngineState { warmup: n, ..c }),
            None => None,
        },
        Flag::ProcWarmup => match number {
            Some(n) => Some(EngineState { proc_warmup: n, ..c }),
            None => None,
        },
        Flag::ProcSamples => match number {
            Some(n) => Some(EngineState { proc_samples: n, ..c }),
            None => None,
        },
        Flag::OverheadBytes => match number {
            Some(n) => Some(EngineState { overhead_bytes: n, ..c }),
            None => None,
        },
        Flag::Out => Some(EngineState { out_path: v, ..c }),
        Flag::LanRtt => if is_float(v) {
            Some(EngineState { lan: LinkState { rtt_ms: v, ..c.lan }, ..c })
        } else {
            None
        },
        Flag::LanJitter => if is_float(v) {
            Some(EngineState { lan: LinkState { jitter_ms: v, ..c.lan }, ..c })
        } else {
            None
        },
        Flag::LanBandwidth => if is_float(v) {
            Some(EngineState { lan: LinkState { bw_mbps: v, ..c.lan }, ..c })
        } else {
            None
        },
        Flag::WanRtt => if is_float(v) {
            Some(EngineState { wan: LinkState { rtt_ms: v, ..c.wan }, ..c })
        } else {
            None
        },
        Flag::WanJitter => if is_float(v) {
            Some(EngineState { wan: LinkState { jitter_ms: v, ..c.wan }, ..c })
        } else {
            None
        },
        Flag::WanBandwidth => if is_float(v) {
            Some(EngineState { wan: LinkState { bw_mbps: v, ..c.wan }, ..c })
        } else {
            None
        },
        Flag::Unavailable => match offline_spec(v) {
            Some(x) => Some(EngineState { offline: x, ..c }),
            None => None,
        },
        _ => Some(c),
    }
}

fn float_value(v: &str) -> (r: Option<String>)
    ensures
        match r {
            Some(t) => is_float(v@) && t@ == v@,
            None => !is_float(v@),
        },
{
    if float_text(chars_of(v).as_slice()) {
        Some(copy_text(v))
    } else {
        None
    }
}

fn number_value(v: &str) -> (r: Option<u64>)
    ensures
        match r {
            Some(n) => parsed(v@, usize::MAX as nat) == Some(n as nat),
            None => parsed(v@, usize::MAX as nat) is None,
        },
{
    parse_number(chars_of(v).as_slice(), usize::MAX as u64)
}

fn is_all(v: &str) -> (r: bool)
    ensures
        r == (lower(v@) == "all"@),
{
    is_text(to_lower(chars_of(v).as_slice()).as_slice(), "all")
}

/// Takes in an argument with its value.
#[verifier::rlimit(60)]
fn take(e: Engine, cfg: &mut EngineConfig, f: Flag, v: &str) -> (r: bool)
    requires
        takes_value(f),
    ensures
        if r {
            engine_given(e, old(cfg)@, f, v@) == Some(final(cfg)@)
        } else {
            engine_given(e, old(cfg)@, f, v@) is None
        },
{
    match f {
        Flag::Kinds => {
            cfg.kinds = match e {
                Engine::AugSso => split_parts(v),
                Engine::PasTaU => parse_list_string_lower(v, false),
                Engine::Quorum => if is_all(v) {
                    three_texts("full_no_net", "full_net", "quorum_overhead")
                } else {
                    parse_list_string_lower(v, true)
                },
            };
        },
        Flag::Net => {
            cfg.nets = match e {
                Engine::AugSso => one_text(v),
                Engine::PasTaU => parse_list_string_lower(v, false),
                Engine::Quorum => one_text(lower_text(v).as_str()),
            };
        },
        Flag::Ops => {
            cfg.ops = if is_all(v) {
                three_texts("reg", "secupd", "pwdupd")
            } else {
                parse_list_string_lower(v, true)
            };
        },
        Flag::Nsp => match parse_numbers(v, "", usize::MAX as u64) {
            Ok(x) => {
                cfg.nsp_list = x;
            },
            Err(_) => {
                return false;
            },
        },
        Flag::Tsp => match parse_numbers(v, "", usize::MAX as u64) {
            Ok(x) => {
                cfg.tsp_list = Some(x);
                cfg.tsp_pct_list = None;
            },
            Err(_) => {
                return false;
            },
        },
        Flag::TspPct => {
            let max: u64 = if e == Engine::AugSso {
                usize::MAX as u64
            } else {
                u32::MAX as u64
            };
            match parse_numbers(v, "", max) {
                Ok(x) => {
                    cfg.tsp_pct_list = Some(x);
                    cfg.tsp_list = None;
                },
                Err(_) => {
                    return false;
                },
            }
        },
        Flag::SampleSize => match number_value(v) {
            Some(n) => {
                cfg.samples = n;
            },
            None => {
                return false;
            },
        },
        Flag::WarmupIters => match number_value(v) {
            Some(n) => {
                cfg.warmup = n;
            },
            None => {
                return false;
            },
        },
        Flag::ProcWarmup => match number_value(v) {
            Some(n) => {
                cfg.proc_warmup = n;
            },
            None => {
                return false;
            },
        },
        Flag::ProcSamples => match number_value(v) {
            Some(n) => {
                cfg.proc_samples = n;
            },
            None => {
                return false;
            },
        },
        Flag::OverheadBytes => match number_value(v) {
            Some(n) => {
                cfg.overhead_bytes = n;
            },
            None => {
                return false;
            },
        },
        Flag::Out => {
            cfg.out_path = copy_text(v);
        },
        Flag::LanRtt => match float_value(v) {
            Some(x) => {
                cfg.lan.rtt_ms = x;
            },
            None => {
                return false;
            },
        },
        Flag::LanJitter => match float_value(v) {
            Some(x) => {
                cfg.lan.jitter_ms = x;
            },
            None => {
                return false;
            },
        },
        Flag::LanBandwidth => match float_value(v) {
            Some(x) => {
                cfg.lan.bw_mbps = x;
            },
            None => {
                return false;
            },
        },
        Flag::WanRtt => match float_value(v) {
            Some(x) => {
                cfg.wan.rtt_ms = x;
            },
            None => {
                return false;
            },
        },
        Flag::WanJitter => match float_value(v) {
            Some(x) => {
                cfg.wan.jitter_ms = x;
            },
            None => {
                return false;
            },
        },
        Flag::WanBandwidth => match float_value(v) {
            Some(x) => {
                cfg.wan.bw_mbps = x;
            },
            None => {
                return false;
            },
        },
        Flag::Unavailable => match OfflineSpec::parse(v) {
            Some(x) => {
                cfg.offline = x;
            },
            None => {
                return false;
            },
        },
        _ => {},
    }
    true
}

/// The settings of an engine after the arguments from place `i` on.
pub open spec fn engine_from(e: Engine, c: EngineState, args: Seq<Seq<char>>, i: int) -> Result<
    EngineState,
    Refusal,
>
    decreases args.len() - i,
{
    if i >= args.len() {
        Ok(c)
    } else {
        match engine_flag(e, args[i]) {
            None => Err(Refusal::Unknown(args[i])),
            Some(f) => if f == Flag::Help {
                Err(Refusal::Help)
            } else if f == Flag::RngInTimed {
                engine_from(e, EngineState { rng_in_timed: true, ..c }, args, i + 1)
            } else if !takes_value(f) {
                engine_from(e, c, args, i + 1)
            } else if i + 1 >= args.len() {
                Err(Refusal::Missing(args[i]))
            } else {
                match engine_given(e, c, f, args[i + 1]) {
                    None => Err(Refusal::Bad(bad_name(e, f, args[i]))),
                    Some(d) => engine_from(e, d, args, i + 2),
                }
            },
        }
    }
}

/// The kinds that the quorum engine knows.
pub open spec fn quorum_kind(k: Seq<char>) -> bool {
    k == "full_no_net"@ || k == "full_net"@ || k == "quorum_overhead"@ || k == "quorum"@
}

/// The phases that the quorum engine knows.
pub open spec fn quorum_op(o: Seq<char>) -> bool {
    o == "reg"@ || o == "secupd"@ || o == "pwdupd"@
}

/// The first kind from place `i` on that is not known.
pub open spec fn unknown_kind(v: Seq<Seq<char>>, i: int) -> Option<Seq<char>>
    decreases v.len() - i,
{
    if i >= v.len() {
        None
    } else if !quorum_kind(v[i]) {
        Some(v[i])
    } else {
        unknown_kind(v, i + 1)
    }
}

/// The first phase from place `i` on that is not known.
pub open spec fn unknown_op(v: Seq<Seq<char>>, i: int) -> Option<Seq<char>>
    decreases v.len() - i,
{
    if i >= v.len() {
        None
    } else if !quorum_op(v[i]) {
        Some(v[i])
    } else {
        unknown_op(v, i + 1)
    }
}

/// The settings that an engine's arguments give. The first argument of the baseline engines
/// is the program's name; the quorum engine has none and checks kinds and phases at the end.
pub open spec fn engine_settings(e: Engine, args: Seq<Seq<char>>) -> Result<EngineState, Refusal> {
    if e != Engine::Quorum {
        engine_from(e, engine_defaults(e), args, 1)
    } else {
        match engine_from(e, engine_defaults(e), args, 0) {
            Err(f) => Err(f),
            Ok(c) => match unknown_kind(c.kinds, 0) {
                Some(k) => Err(Refusal::UnknownKind(k)),
                None => match unknown_op(c.ops, 0) {
                    Some(o) => Err(Refusal::UnknownOp(o)),
                    None => Ok(c),
                },
            },
        }
    }
}

fn read_args(e: Engine, args: &Vec<String>, from: usize) -> (r: Result<EngineConfig, Refused>)
    requires
        from <= 1,
    ensures
        match r {
            Ok(c) => engine_from(e, engine_defaults(e), texts(args@), from as int) == Ok::<
                EngineState,
                Refusal,
            >(c@),
            Err(f) => engine_from(e, engine_defaults(e), texts(args@), from as int) == Err::<
                EngineState,
                Refusal,
            >(f@),
        },
{
    let ghost ga = texts(args@);
    let mut cfg = EngineConfig::standard(e);
    let mut i: usize = from;
    while i < args.len()
        invariant
            ga == texts(args@),
            engine_from(e, cfg@, ga, i as int) == engine_from(
                e,
                engine_defaults(e),
                ga,
                from as int,
            ),
        decreases args@.len() - i,
    {
        let name = args[i].as_str();
        assert(ga[i as int] == args@[i as int]@);
        match find_engine_flag(e, name) {
            None => {
                return Err(Refused::Unknown(copy_text(name)));
            },
            Some(Flag::Help) => {
                return Err(Refused::Help);
            },
            Some(Flag::RngInTimed) => {
                cfg.rng_in_timed = true;
                i = i + 1;
            },
            Some(Flag::DryRun) => {
                i = i + 1;
            },
            Some(Flag::Ignored) => {
                i = i + 1;
            },
            Some(f) => {
                if i + 1 >= args.len() {
                    return Err(Refused::Missing(copy_text(name)));
                }
                assert(ga[i + 1] == args@[i + 1]@);
                if !take(e, &mut cfg, f, args[i + 1].as_str()) {
                    proof {
                        lemma_flags_have_dashes(ga[i as int]);
                    }
                    return Err(Refused::Bad(say_bad_name(e, f, name)));
                }
                i = i + 2;
            },
        }
    }
    Ok(cfg)
}

proof fn lemma_flags_have_dashes(s: Seq<char>)
    requires
        flag_named(s) is Some,
    ensures
        s.len() >= 2,
{
    reveal_strlit("--help");
    reveal_strlit("-h");
    reveal_strlit("--scheme");
    reveal_strlit("--schemes");
    reveal_strlit("--kind");
    reveal_strlit("--ops");
    reveal_strlit("--nsp");
    reveal_strlit("--tsp");
    reveal_strlit("--tsp-pct");
    reveal_strlit("--sample-size");
    reveal_strlit("--samples");
    reveal_strlit("--warmup-iters");
    reveal_strlit("--warmup");
    reveal_strlit("--proc-warmup");
    reveal_strlit("--proc-samples");
    reveal_strlit("--net");
    reveal_strlit("--lan-rtt-ms");
    reveal_strlit("--lan-jitter-ms");
    reveal_strlit("--lan-bw-mbps");
    reveal_strlit("--wan-rtt-ms");
    reveal_strlit("--wan-jitter-ms");
    reveal_strlit("--wan-bw-mbps");
    reveal_strlit("--overhead-bytes");
    reveal_strlit("--offline");
    reveal_strlit("--unavailable");
    reveal_strlit("--pwdupd");
    reveal_strlit("--out");
    reveal_strlit("--rng-in-timed");
    reveal_strlit("--rng");
    reveal_strlit("--dry-run");
    reveal_strlit("--bench");
}

fn first_unknown_kind(v: &Vec<String>) -> (r: Option<String>)
    ensures
        match r {
            Some(k) => unknown_kind(texts(v@), 0) == Some(k@),
            None => unknown_kind(texts(v@), 0) is None,
        },
{
    let ghost g = texts(v@);
    let mut i: usize = 0;
    while i < v.len()
        invariant
            i <= v@.len(),
            g == texts(v@),
            unknown_kind(g, i as int) == unknown_kind(g, 0),
        decreases v@.len() - i,
    {
        assert(g[i as int] == v@[i as int]@);
        let c = chars_of(v[i].as_str());
        let t = c.as_slice();
        if !(is_text(t, "full_no_net") || is_text(t, "full_net") || is_text(t, "quorum_overhead")
            || is_text(t, "quorum")) {
            return Some(copy_text(v[i].as_str()));
        }
        i = i + 1;
    }
    None
}

fn first_unknown_op(v: &Vec<String>) -> (r: Option<String>)
    ensures
        match r {
            Some(k) => unknown_op(texts(v@), 0) == Some(k@),
            None => unknown_op(texts(v@), 0) is None,
        },
{
    let ghost g = texts(v@);
    let mut i: usize = 0;
    while i < v.len()
        invariant
            i <= v@.len(),
            g == texts(v@),
            unknown_op(g, i as int) == unknown_op(g, 0),
        decreases v@.len() - i,
    {
        assert(g[i as int] == v@[i as int]@);
        let c = chars_of(v[i].as_str());
        let t = c.as_slice();
        if !(is_text(t, "reg") || is_text(t, "secupd") || is_text(t, "pwdupd")) {
            return Some(copy_text(v[i].as_str()));
        }
        i = i + 1;
    }
    None
}

/// Reads the settings of an engine.
pub fn parse_engine_args(e: Engine, args: &Vec<String>) -> (r: Result<EngineConfig, Refused>)
    ensures
        match r {
            Ok(c) => engine_settings(e, texts(args@)) == Ok::<EngineState, Refusal>(c@),
            Err(f) => engine_settings(e, texts(args@)) == Err::<EngineState, Refusal>(f@),
        },
{
    if e != Engine::Quorum {
        return read_args(e, args, 1);
    }
    let cfg = match read_args(e, args, 0) {
        Ok(cfg) => cfg,
        Err(f) => {
            return Err(f);
        },
    };
    match first_unknown_kind(&cfg.kinds) {
        Some(k) => {
            return Err(Refused::UnknownKind(k));
        },
        None => {},
    }
    match first_unknown_op(&cfg.ops) {
        Some(o) => {
            return Err(Refused::UnknownOp(o));
        },
        None => {},
    }
    Ok(cfg)
}

} // verus!
