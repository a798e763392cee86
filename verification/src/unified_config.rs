//! The settings of a benchmark run, read from a command line and checked.
use vstd::prelude::*;

use crate::float_text::is_float;
use crate::text::{
    append, chars_of, copy_text, is_text, lower, parsed, split, text_of, texts, to_lower,
};
use crate::unified::{
    all_schemes, invalid_value, kinds_from, list_of, nats, offline_of, parse_float_text,
    parse_kinds, parse_list, parse_offline, parse_schemes, parse_value, schemes_from, Kinds,
    Offline, Scheme,
};

verus! {

/// The numbers of a network, as they were written.
#[derive(Clone, Debug)]
pub struct LinkText {
    pub rtt_ms: String,
    pub jitter_ms: String,
    pub bw_mbps: String,
}

/// What is written of a network.
#[verifier::ext_equal]
pub struct LinkState {
    pub rtt_ms: Seq<char>,
    pub jitter_ms: Seq<char>,
    pub bw_mbps: Seq<char>,
}

impl View for LinkText {
    type V = LinkState;

    open spec fn view(&self) -> LinkState {
        LinkState { rtt_ms: self.rtt_ms@, jitter_ms: self.jitter_ms@, bw_mbps: self.bw_mbps@ }
    }
}

/// The settings of a run.
#[derive(Clone, Debug)]
pub struct Config {
    pub schemes: Vec<Scheme>,
    pub kinds: Kinds,
    pub ops: String,
    pub nsp: Vec<u64>,
    pub tsp: Option<Vec<u64>>,
    pub tsp_pct: Option<Vec<u64>>,
    pub sample_size: u64,
    pub warmup_iters: u64,
    pub proc_warmup: u64,
    pub proc_samples: u64,
    pub net: String,
    pub lan: LinkText,
    pub wan: LinkText,
    pub overhead_bytes: u64,
    pub offline: Offline,
    pub pwdupd: String,
    pub rng_in_timed: bool,
    pub out: String,
    pub dry_run: bool,
    pub help: bool,
}

/// What the settings say.
#[verifier::ext_equal]
pub struct Settings {
    pub schemes: Seq<Scheme>,
    pub kinds: Kinds,
    pub ops: Seq<char>,
    pub nsp: Seq<nat>,
    pub tsp: Option<Seq<nat>>,
    pub tsp_pct: Option<Seq<nat>>,
    pub sample_size: nat,
    pub warmup_iters: nat,
    pub proc_warmup: nat,
    pub proc_samples: nat,
    pub net: Seq<char>,
    pub lan: LinkState,
    pub wan: LinkState,
    pub overhead_bytes: nat,
    pub offline: Offline,
    pub pwdupd: Seq<char>,
    pub rng_in_timed: bool,
    pub out: Seq<char>,
    pub dry_run: bool,
    pub help: bool,
}

/// The numbers of an optional list.
pub open spec fn opt_nats(v: Option<Vec<u64>>) -> Option<Seq<nat>> {
    match v {
        Some(v) => Some(nats(v@)),
        None => None,
    }
}

impl View for Config {
    type V = Settings;

    open spec fn view(&self) -> Settings {
        Settings {
            schemes: self.schemes@,
            kinds: self.kinds,
            ops: self.ops@,
            nsp: nats(self.nsp@),
            tsp: opt_nats(self.tsp),
            tsp_pct: opt_nats(self.tsp_pct),
            sample_size: self.sample_size as nat,
            warmup_iters: self.warmup_iters as nat,
            proc_warmup: self.proc_warmup as nat,
            proc_samples: self.proc_samples as nat,
            net: self.net@,
            lan: self.lan@,
            wan: self.wan@,
            overhead_bytes: self.overhead_bytes as nat,
            offline: self.offline,
            pwdupd: self.pwdupd@,
            rng_in_timed: self.rng_in_timed,
            out: self.out@,
            dry_run: self.dry_run,
            help: self.help,
        }
    }
}

/// The settings of a run without arguments.
pub open spec fn default_settings() -> Settings {
    Settings {
        schemes: all_schemes(),
        kinds: Kinds::all(),
        ops: "all"@,
        nsp: seq![20nat, 40nat, 60nat],
        tsp: None,
        tsp_pct: Some(seq![60nat]),
        sample_size: 200,
        warmup_iters: 50,
        proc_warmup: 200,
        proc_samples: 1000,
        net: "all"@,
        lan: LinkState { rtt_ms: "0.5"@, jitter_ms: "0.05"@, bw_mbps: "1000"@ },
        wan: LinkState { rtt_ms: "60"@, jitter_ms: "5"@, bw_mbps: "50"@ },
        overhead_bytes: 64,
        offline: Offline::Max,
        pwdupd: "v2"@,
        rng_in_timed: false,
        out: "results/unified_bench.dat"@,
        dry_run: false,
        help: false,
    }
}

/// One of the two threshold lists is in use.
pub open spec fn one_mode(s: Settings) -> bool {
    s.tsp is Some <==> s.tsp_pct is None
}

impl Config {
    /// The settings of a run without arguments.
    pub fn standard() -> (r: Config)
        ensures
            r@ == default_settings(),
    {
        let schemes = vec![Scheme::UpSpa, Scheme::PasTaU, Scheme::AugSso, Scheme::UpSpaQuorum];
        let nsp: Vec<u64> = vec![20, 40, 60];
        let pct: Vec<u64> = vec![60];
        proof {
            assert(schemes@ =~= all_schemes());
            assert(nats(nsp@) =~= seq![20nat, 40nat, 60nat]);
            assert(nats(pct@) =~= seq![60nat]);
        }
        let r = Config {
            schemes,
            kinds: Kinds::every(),
            ops: copy_text("all"),
            nsp,
            tsp: None,
            tsp_pct: Some(pct),
            sample_size: 200,
            warmup_iters: 50,
            proc_warmup: 200,
            proc_samples: 1000,
            net: copy_text("all"),
            lan: LinkText {
                rtt_ms: copy_text("0.5"),
                jitter_ms: copy_text("0.05"),
                bw_mbps: copy_text("1000"),
            },
            wan: LinkText {
                rtt_ms: copy_text("60"),
                jitter_ms: copy_text("5"),
                bw_mbps: copy_text("50"),
            },
            overhead_bytes: 64,
            offline: Offline::Max,
            pwdupd: copy_text("v2"),
            rng_in_timed: false,
            out: copy_text("results/unified_bench.dat"),
            dry_run: false,
            help: false,
        };
        assert(r@ =~= default_settings());
        r
    }
}

/// What an argument asks for.
#[derive(Clone, Copy, Debug, PartialEq, Eq, Structural)]
pub enum Flag {
    Help,
    Schemes,
    Kinds,
    Ops,
    Nsp,
    Tsp,
    TspPct,
    SampleSize,
    WarmupIters,
    ProcWarmup,
    ProcSamples,
    Net,
    LanRtt,
    LanJitter,
    LanBandwidth,
    WanRtt,
    WanJitter,
    WanBandwidth,
    OverheadBytes,
    Unavailable,
    PasswordUpdate,
    Out,
    RngInTimed,
    DryRun,
    Ignored,
}

/// The meaning of an argument.
pub open spec fn flag_named(s: Seq<char>) -> Option<Flag> {
    if s == "--help"@ || s == "-h"@ {
        Some(Flag::Help)
    } else if s == "--scheme"@ || s == "--schemes"@ {
        Some(Flag::Schemes)
    } else if s == "--kind"@ {
        Some(Flag::Kinds)
    } else if s == "--ops"@ {
        Some(Flag::Ops)
    } else if s == "--nsp"@ {
        Some(Flag::Nsp)
    } else if s == "--tsp"@ {
        Some(Flag::Tsp)
    } else if s == "--tsp-pct"@ {
        Some(Flag::TspPct)
    } else if s == "--sample-size"@ || s == "--samples"@ {
        Some(Flag::SampleSize)
    } else if s == "--warmup-iters"@ || s == "--warmup"@ {
        Some(Flag::WarmupIters)
    } else if s == "--proc-warmup"@ {
        Some(Flag::ProcWarmup)
    } else if s == "--proc-samples"@ {
        Some(Flag::ProcSamples)
    } else if s == "--net"@ {
        Some(Flag::Net)
    } else if s == "--lan-rtt-ms"@ {
        Some(Flag::LanRtt)
    } else if s == "--lan-jitter-ms"@ {
        Some(Flag::LanJitter)
    } else if s == "--lan-bw-mbps"@ {
        Some(Flag::LanBandwidth)
    } else if s == "--wan-rtt-ms"@ {
        Some(Flag::WanRtt)
    } else if s == "--wan-jitter-ms"@ {
        Some(Flag::WanJitter)
    } else if s == "--wan-bw-mbps"@ {
        Some(Flag::WanBandwidth)
    } else if s == "--overhead-bytes"@ {
        Some(Flag::OverheadBytes)
    } else if s == "--offline"@ || s == "--unavailable"@ {
        Some(Flag::Unavailable)
    } else if s == "--pwdupd"@ {
        Some(Flag::PasswordUpdate)
    } else if s == "--out"@ {
        Some(Flag::Out)
    } else if s == "--rng-in-timed"@ || s == "--rng"@ {
        Some(Flag::RngInTimed)
    } else if s == "--dry-run"@ {
        Some(Flag::DryRun)
    } else if s == "--bench"@ {
        Some(Flag::Ignored)
    } else {
        None
    }
}

/// Finds the meaning of an argument.
pub fn find_flag(text: &str) -> (r: Option<Flag>)
    ensures
        r == flag_named(text@),
{
    let v = chars_of(text);
    let s = v.as_slice();
    if is_text(s, "--help") || is_text(s, "-h") {
        Some(Flag::Help)
    } else if is_text(s, "--scheme") || is_text(s, "--schemes") {
        Some(Flag::Schemes)
    } else if is_text(s, "--kind") {
        Some(Flag::Kinds)
    } else if is_text(s, "--ops") {
        Some(Flag::Ops)
    } else if is_text(s, "--nsp") {
        Some(Flag::Nsp)
    } else if is_text(s, "--tsp") {
        Some(Flag::Tsp)
    } else if is_text(s, "--tsp-pct") {
        Some(Flag::TspPct)
    } else if is_text(s, "--sample-size") || is_text(s, "--samples") {
        Some(Flag::SampleSize)
    } else if is_text(s, "--warmup-iters") || is_text(s, "--warmup") {
        Some(Flag::WarmupIters)
    } else if is_text(s, "--proc-warmup") {
        Some(Flag::ProcWarmup)
    } else if is_text(s, "--proc-samples") {
        Some(Flag::ProcSamples)
    } else if is_text(s, "--net") {
        Some(Flag::Net)
    } else if is_text(s, "--lan-rtt-ms") {
        Some(Flag::LanRtt)
    } else if is_text(s, "--lan-jitter-ms") {
        Some(Flag::LanJitter)
    } else if is_text(s, "--lan-bw-mbps") {
        Some(Flag::LanBandwidth)
    } else if is_text(s, "--wan-rtt-ms") {
        Some(Flag::WanRtt)
    } else if is_text(s, "--wan-jitter-ms") {
        Some(Flag::WanJitter)
    } else if is_text(s, "--wan-bw-mbps") {
        Some(Flag::WanBandwidth)
    } else if is_text(s, "--overhead-bytes") {
        Some(Flag::OverheadBytes)
    } else if is_text(s, "--offline") || is_text(s, "--unavailable") {
        Some(Flag::Unavailable)
    } else if is_text(s, "--pwdupd") {
        Some(Flag::PasswordUpdate)
    } else if is_text(s, "--out") {
        Some(Flag::Out)
    } else if is_text(s, "--rng-in-timed") || is_text(s, "--rng") {
        Some(Flag::RngInTimed)
    } else if is_text(s, "--dry-run") {
        Some(Flag::DryRun)
    } else if is_text(s, "--bench") {
        Some(Flag::Ignored)
    } else {
        None
    }
}

/// Whether an argument is followed by a value.
pub open spec fn takes_value(f: Flag) -> bool {
    !(f == Flag::Help || f == Flag::RngInTimed || f == Flag::DryRun || f == Flag::Ignored)
}

/// The settings after an argument without a value.
pub open spec fn switched(c: Settings, f: Flag) -> Settings {
    match f {
        Flag::Help => Settings { help: true, ..c },
        Flag::RngInTimed => Settings { rng_in_timed: true, ..c },
        Flag::DryRun => Settings { dry_run: true, ..c },
        _ => c,
    }
}

/// A number for a setting, or the message where it cannot be read.
pub open spec fn number_for(v: Seq<char>, name: Seq<char>) -> Result<nat, Seq<char>> {
    match parsed(v, usize::MAX as nat) {
        Some(n) => Ok(n),
        None => Err(invalid_value(v, name)),
    }
}

/// The text of a floating-point number for a setting, or the message where it is none.
pub open spec fn float_for(v: Seq<char>, name: Seq<char>) -> Result<Seq<char>, Seq<char>> {
    if is_float(v) {
        Ok(v)
    } else {
        Err(invalid_value(v, name))
    }
}

/// The settings after an argument `name` with the meaning `f` and the value `v`.
pub open spec fn given(
    c: Settings,
    f: Flag,
    name: Seq<char>,
    v: Seq<char>,
) -> Result<Settings, Seq<char>> {
    match f {
        Flag::Schemes => match schemes_from(split(v, ','), 0, Seq::empty()) {
            Ok(x) => Ok(Settings { schemes: x, ..c }),
            Err(e) => Err(e),
        },
        Flag::Kinds => match kinds_from(split(v, ','), 0, Kinds::empty()) {
            Ok(x) => Ok(Settings { kinds: x, ..c }),
            Err(e) => Err(e),
        },
        Flag::Ops => Ok(Settings { ops: lower(v), ..c }),
        Flag::Nsp => match list_of(v, usize::MAX as nat, "nsp"@) {
            Ok(x) => Ok(Settings { nsp: x, ..c }),
            Err(e) => Err(e),
        },
        Flag::Tsp => match list_of(v, usize::MAX as nat, "tsp"@) {
            Ok(x) => Ok(Settings { tsp: Some(x), tsp_pct: None, ..c }),
            Err(e) => Err(e),
        },
        Flag::TspPct => match list_of(v, u32::MAX as nat, "tsp-pct"@) {
            Ok(x) => Ok(Settings { tsp_pct: Some(x), tsp: None, ..c }),
            Err(e) => Err(e),
        },
        Flag::SampleSize => match number_for(v, name) {
            Ok(x) => Ok(Settings { sample_size: x, ..c }),
            Err(e) => Err(e),
        },
        Flag::WarmupIters => match number_for(v, name) {
            Ok(x) => Ok(Settings { warmup_iters: x, ..c }),
            Err(e) => Err(e),
        },
        Flag::ProcWarmup => match number_for(v, name) {
            Ok(x) => Ok(Settings { proc_warmup: x, ..c }),
            Err(e) => Err(e),
        },
        Flag::ProcSamples => match number_for(v, name) {
            Ok(x) => Ok(Settings { proc_samples: x, ..c }),
            Err(e) => Err(e),
        },
        Flag::Net => Ok(Settings { net: lower(v), ..c }),
        Flag::LanRtt => match float_for(v, name) {
            Ok(x) => Ok(Settings { lan: LinkState { rtt_ms: x, ..c.lan }, ..c }),
            Err(e) => Err(e),
        },
        Flag::LanJitter => match float_for(v, name) {
            Ok(x) => Ok(Settings { lan: LinkState { jitter_ms: x, ..c.lan }, ..c }),
            Err(e) => Err(e),
        },
        Flag::LanBandwidth => match float_for(v, name) {
            Ok(x) => Ok(Settings { lan: LinkState { bw_mbps: x, ..c.lan }, ..c }),
            Err(e) => Err(e),
        },
        Flag::WanRtt => match float_for(v, name) {
            Ok(x) => Ok(Settings { wan: LinkState { rtt_ms: x, ..c.wan }, ..c }),
            Err(e) => Err(e),
        },
        Flag::WanJitter => match float_for(v, name) {
            Ok(x) => Ok(Settings { wan: LinkState { jitter_ms: x, ..c.wan }, ..c }),
            Err(e) => Err(e),
        },
        Flag::WanBandwidth => match float_for(v, name) {
            Ok(x) => Ok(Settings { wan: LinkState { bw_mbps: x, ..c.wan }, ..c }),
            Err(e) => Err(e),
        },
        Flag::OverheadBytes => match number_for(v, name) {
            Ok(x) => Ok(Settings { overhead_bytes: x, ..c }),
            Err(e) => Err(e),
        },
        Flag::Unavailable => match offline_of(v) {
            Some(x) => Ok(Settings { offline: x, ..c }),
            None => Err("--offline must be max, none, or a nonnegative integer"@),
        },
        Flag::PasswordUpdate => Ok(Settings { pwdupd: lower(v), ..c }),
        Flag::Out => Ok(Settings { out: v, ..c }),
        _ => Ok(c),
    }
}

/// The settings after the arguments from place `i` on. The argument for help ends the
/// reading; of several values for one setting the last counts.
pub open spec fn settings_from(c: Settings, args: Seq<Seq<char>>, i: int) -> Result<
    Settings,
    Seq<char>,
>
    decreases args.len() - i,
{
    if i >= args.len() {
        Ok(c)
    } else {
        match flag_named(args[i]) {
            None => Err("unknown argument '"@ + args[i] + "'; use --help"@),
            Some(f) => if f == Flag::Help {
                Ok(switched(c, f))
            } else if !takes_value(f) {
                settings_from(switched(c, f), args, i + 1)
            } else if i + 1 >= args.len() {
                Err("missing value for "@ + args[i])
            } else {
                match given(c, f, args[i], args[i + 1]) {
                    Err(e) => Err(e),
                    Ok(d) => settings_from(d, args, i + 2),
                }
            },
        }
    }
}

fn number_value(v: &str, name: &str) -> (r: Result<u64, String>)
    ensures
        match r {
            Ok(n) => number_for(v@, name@) == Ok::<nat, Seq<char>>(n as nat),
            Err(e) => number_for(v@, name@) == Err::<nat, Seq<char>>(e@),
        },
{
    parse_value(v, name, usize::MAX as u64)
}

fn float_value(v: &str, name: &str) -> (r: Result<String, String>)
    ensures
        match r {
            Ok(t) => float_for(v@, name@) == Ok::<Seq<char>, Seq<char>>(t@),
            Err(e) => float_for(v@, name@) == Err::<Seq<char>, Seq<char>>(e@),
        },
{
    parse_float_text(v, name)
}

/// A text in lower case.
pub fn lower_text(v: &str) -> (r: String)
    ensures
        r@ == lower(v@),
{
    text_of(to_lower(chars_of(v).as_slice()).as_slice())
}

/// Takes in an argument with its value.
#[verifier::rlimit(60)]
fn take(cfg: &mut Config, f: Flag, name: &str, v: &str) -> (r: Result<(), String>)
    requires
        takes_value(f),
    ensures
        match r {
            Ok(_) => given(old(cfg)@, f, name@, v@) == Ok::<Settings, Seq<char>>(final(cfg)@),
            Err(e) => given(old(cfg)@, f, name@, v@) == Err::<Settings, Seq<char>>(e@),
        },
{
    match f {
        Flag::Schemes => match parse_schemes(v) {
            Ok(x) => {
                cfg.schemes = x;
            },
            Err(e) => {
                return Err(e);
            },
        },
        Flag::Kinds => match parse_kinds(v) {
            Ok(x) => {
                cfg.kinds = x;
            },
            Err(e) => {
                return Err(e);
            },
        },
        Flag::Ops => {
            cfg.ops = lower_text(v);
        },
        Flag::Nsp => match parse_list(v, "nsp", usize::MAX as u64) {
            Ok(x) => {
                cfg.nsp = x;
            },
            Err(e) => {
                return Err(e);
            },
        },
        Flag::Tsp => match parse_list(v, "tsp", usize::MAX as u64) {
            Ok(x) => {
                cfg.tsp = Some(x);
                cfg.tsp_pct = None;
            },
            Err(e) => {
                return Err(e);
            },
        },
        Flag::TspPct => match parse_list(v, "tsp-pct", u32::MAX as u64) {
            Ok(x) => {
                cfg.tsp_pct = Some(x);
                cfg.tsp = None;
            },
            Err(e) => {
                return Err(e);
            },
        },
        Flag::SampleSize => match number_value(v, name) {
            Ok(x) => {
                cfg.sample_size = x;
            },
            Err(e) => {
                return Err(e);
            },
        },
        Flag::WarmupIters => match number_value(v, name) {
            Ok(x) => {
                cfg.warmup_iters = x;
            },
            Err(e) => {
                return Err(e);
            },
        },
        Flag::ProcWarmup => match number_value(v, name) {
            Ok(x) => {
                cfg.proc_warmup = x;
            },
            Err(e) => {
                return Err(e);
            },
        },
        Flag::ProcSamples => match number_value(v, name) {
            Ok(x) => {
                cfg.proc_samples = x;
            },
            Err(e) => {
                return Err(e);
            },
        },
        Flag::Net => {
            cfg.net = lower_text(v);
        },
        Flag::LanRtt => match float_value(v, name) {
            Ok(x) => {
                cfg.lan.rtt_ms = x;
            },
            Err(e) => {
                return Err(e);
            },
        },
        Flag::LanJitter => match float_value(v, name) {
            Ok(x) => {
                cfg.lan.jitter_ms = x;
            },
            Err(e) => {
                return Err(e);
            },
        },
        Flag::LanBandwidth => match float_value(v, name) {
            Ok(x) => {
                cfg.lan.bw_mbps = x;
            },
            Err(e) => {
                return Err(e);
            },
        },
        Flag::WanRtt => match float_value(v, name) {
            Ok(x) => {
                cfg.wan.rtt_ms = x;
            },
            Err(e) => {
                return Err(e);
            },
        },
        Flag::WanJitter => match float_value(v, name) {
            Ok(x) => {
                cfg.wan.jitter_ms = x;
            },
            Err(e) => {
                return Err(e);
            },
        },
        Flag::WanBandwidth => match float_value(v, name) {
            Ok(x) => {
                cfg.wan.bw_mbps = x;
            },
            Err(e) => {
                return Err(e);
            },
        },
        Flag::OverheadBytes => match number_value(v, name) {
            Ok(x) => {
                cfg.overhead_bytes = x;
            },
            Err(e) => {
                return Err(e);
            },
        },
        Flag::Unavailable => match parse_offline(v) {
            Ok(x) => {
                cfg.offline = x;
            },
            Err(e) => {
                return Err(e);
            },
        },
        Flag::PasswordUpdate => {
            cfg.pwdupd = lower_text(v);
        },
        Flag::Out => {
            cfg.out = copy_text(v);
        },
        _ => {},
    }
    Ok(())
}

/// The list of thresholds and the list of percentages override each other, and no other
/// argument changes them.
pub proof fn threshold_modes_override(c: Settings, f: Flag, name: Seq<char>, v: Seq<char>)
    requires
        takes_value(f),
    ensures
        given(c, f, name, v) matches Ok(d) ==> {
            &&& f == Flag::Tsp ==> d.tsp is Some && d.tsp_pct is None
            &&& f == Flag::TspPct ==> d.tsp_pct is Some && d.tsp is None
            &&& f != Flag::Tsp && f != Flag::TspPct ==> d.tsp == c.tsp && d.tsp_pct == c.tsp_pct
        },
{
}

/// Whatever the arguments, exactly one of the two threshold lists is in use.
pub proof fn one_threshold_mode(c: Settings, args: Seq<Seq<char>>, i: int)
    requires
        one_mode(c),
        0 <= i,
    ensures
        settings_from(c, args, i) matches Ok(d) ==> one_mode(d),
    decreases args.len() - i,
{
    if i < args.len() {
        match flag_named(args[i]) {
            None => {},
            Some(f) => {
                if f == Flag::Help {
                } else if !takes_value(f) {
                    one_threshold_mode(switched(c, f), args, i + 1);
                } else if i + 1 < args.len() {
                    match given(c, f, args[i], args[i + 1]) {
                        Ok(d) => {
                            threshold_modes_override(c, f, args[i], args[i + 1]);
                            one_threshold_mode(d, args, i + 2);
                        },
                        Err(e) => {},
                    }
                }
            },
        }
    }
}

/// Reads the settings from a command line.
pub fn parse_args(args: Vec<String>) -> (r: Result<Config, String>)
    ensures
        match r {
            Ok(c) => settings_from(default_settings(), texts(args@), 0) == Ok::<
                Settings,
                Seq<char>,
            >(c@),
            Err(e) => settings_from(default_settings(), texts(args@), 0) == Err::<
                Settings,
                Seq<char>,
            >(e@),
        },
        r matches Ok(c) ==> one_mode(c@),
{
    let ghost ga = texts(args@);
    proof {
        one_threshold_mode(default_settings(), ga, 0);
    }
    let mut cfg = Config::standard();
    let mut i: usize = 0;
    while i < args.len()
        invariant
            i <= args@.len(),
            ga == texts(args@),
            settings_from(default_settings(), ga, 0) matches Ok(d) ==> one_mode(d),
            settings_from(cfg@, ga, i as int) == settings_from(default_settings(), ga, 0),
        decreases args@.len() - i,
    {
        let name = args[i].as_str();
        assert(ga[i as int] == args@[i as int]@);
        match find_flag(name) {
            None => {
                let mut e = copy_text("unknown argument '");
                append(&mut e, name);
                append(&mut e, "'; use --help");
                return Err(e);
            },
            Some(Flag::Help) => {
                cfg.help = true;
                return Ok(cfg);
            },
            Some(Flag::RngInTimed) => {
                cfg.rng_in_timed = true;
                i = i + 1;
            },
            Some(Flag::DryRun) => {
                cfg.dry_run = true;
                i = i + 1;
            },
            Some(Flag::Ignored) => {
                i = i + 1;
            },
            Some(f) => {
                if i + 1 >= args.len() {
                    let mut e = copy_text("missing value for ");
                    append(&mut e, name);
                    return Err(e);
                }
                assert(ga[i + 1] == args@[i + 1]@);
                match take(&mut cfg, f, name, args[i + 1].as_str()) {
                    Ok(_) => {},
                    Err(e) => {
                        return Err(e);
                    },
                }
                i = i + 2;
            },
        }
    }
    Ok(cfg)
}

} // verus!
