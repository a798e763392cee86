//! What is handed to each scheme, what is printed of a plan, and how results are merged.
use vstd::prelude::*;

use crate::text::{
    append, chars_of, copy_text, is_text, join, join_texts, number_text, numeral, parts,
    replace_each, replaced, split, split_at_each, split_words, text_of, texts, words,
};
use crate::unified::{
    kind_name, kinds_of, nats, offline_text, scheme_name, supported_kinds, Kind, Kinds, Scheme,
};
use crate::unified_config::{Config, LinkState, LinkText, Settings};

verus! {

/// Appends a copy of a text.
pub fn push_text(v: &mut Vec<String>, s: &str)
    ensures
        texts(final(v)@) == texts(old(v)@).push(s@),
        final(v)@.len() == old(v)@.len() + 1,
{
    let ghost before = v@;
    v.push(copy_text(s));
    assert(texts(v@) =~= texts(before).push(s@));
}

/// Appends a text.
pub fn push_string(v: &mut Vec<String>, s: String)
    ensures
        texts(final(v)@) == texts(old(v)@).push(s@),
        final(v)@.len() == old(v)@.len() + 1,
{
    let ghost before = v@;
    v.push(s);
    assert(texts(v@) =~= texts(before).push(s@));
}

/// The decimal numerals of numbers.
pub open spec fn numerals(v: Seq<nat>) -> Seq<Seq<char>> {
    Seq::new(v.len(), |i: int| numeral(v[i]))
}

/// Numbers written in decimal, with commas between them.
pub fn join_numbers(values: &Vec<u64>) -> (r: String)
    ensures
        r@ == join(numerals(nats(values@)), ","@),
{
    let mut v: Vec<String> = Vec::new();
    let mut i: usize = 0;
    while i < values.len()
        invariant
            i <= values@.len(),
            v@.len() == i,
            forall|j: int| 0 <= j < i ==> (#[trigger] texts(v@)[j]) == numeral(values@[j] as nat),
        decreases values@.len() - i,
    {
        let ghost before = texts(v@);
        push_string(&mut v, number_text(values[i] as u128));
        assert forall|j: int| 0 <= j < i + 1 implies (#[trigger] texts(v@)[j]) == numeral(
            values@[j] as nat,
        ) by {
            if j < i {
                assert(texts(v@)[j] == before[j]);
            }
        }
        i = i + 1;
    }
    assert(texts(v@) =~= numerals(nats(values@)));
    join_texts(&v, ",")
}

/// The names of the first `k` kinds of a list that are selected.
pub open spec fn selected_names(kinds: Kinds, supported: Seq<Kind>, k: int) -> Seq<Seq<char>>
    decreases k,
{
    if k <= 0 {
        Seq::empty()
    } else if kinds.has(supported[k - 1]) {
        selected_names(kinds, supported, k - 1).push(kind_name(supported[k - 1]))
    } else {
        selected_names(kinds, supported, k - 1)
    }
}

/// The kinds of a list that are selected, as an argument.
pub open spec fn selection(kinds: Kinds, supported: Seq<Kind>) -> Seq<char> {
    if forall|i: int| 0 <= i < supported.len() ==> kinds.has(#[trigger] supported[i]) {
        "all"@
    } else {
        join(selected_names(kinds, supported, supported.len() as int), ","@)
    }
}

fn names_selected(kinds: &Kinds, supported: &Vec<Kind>) -> (r: Vec<String>)
    ensures
        texts(r@) == selected_names(*kinds, supported@, supported@.len() as int),
        r@.len() <= supported@.len(),
        (r@.len() == supported@.len()) == (forall|i: int|
            0 <= i < supported@.len() ==> kinds.has(#[trigger] supported@[i])),
{
    let mut v: Vec<String> = Vec::new();
    let mut i: usize = 0;
    assert(texts(v@) =~= Seq::<Seq<char>>::empty());
    while i < supported.len()
        invariant
            i <= supported@.len(),
            v@.len() <= i,
            texts(v@) == selected_names(*kinds, supported@, i as int),
            (v@.len() == i) == (forall|j: int| 0 <= j < i ==> kinds.has(#[trigger] supported@[j])),
        decreases supported@.len() - i,
    {
        let k = supported[i];
        if kinds.contains(k) {
            push_text(&mut v, k.name());
        }
        assert(kinds.has(supported@[i as int]) == kinds.has(k));
        i = i + 1;
    }
    v
}

/// The kinds of a list that are selected, as an argument: `all` if they all are.
pub fn selected_kinds(kinds: &Kinds, supported: &Vec<Kind>) -> (r: String)
    ensures
        r@ == selection(*kinds, supported@),
{
    let v = names_selected(kinds, supported);
    if v.len() == supported.len() {
        copy_text("all")
    } else {
        join_texts(&v, ",")
    }
}

/// The flag and the values that choose the thresholds.
pub open spec fn mode_args(s: Settings) -> (Seq<char>, Seq<nat>) {
    match s.tsp {
        Some(tsp) => ("--tsp"@, tsp),
        None => ("--tsp-pct"@, s.tsp_pct->Some_0),
    }
}

/// The arguments on what is measured and how often.
pub open spec fn what_args(s: Settings, kinds: Seq<char>) -> Seq<Seq<char>> {
    seq![
        "--kind"@,
        replaced(kinds, '_', '-'),
        "--net"@,
        s.net,
        "--nsp"@,
        join(numerals(s.nsp), ","@),
        "--sample-size"@,
        numeral(s.sample_size),
        "--warmup-iters"@,
        numeral(s.warmup_iters),
    ]
}

/// The arguments on the two networks.
pub open spec fn link_args(lan: LinkState, wan: LinkState) -> Seq<Seq<char>> {
    seq![
        "--lan-rtt-ms"@,
        lan.rtt_ms,
        "--lan-jitter-ms"@,
        lan.jitter_ms,
        "--lan-bw-mbps"@,
        lan.bw_mbps,
        "--wan-rtt-ms"@,
        wan.rtt_ms,
        "--wan-jitter-ms"@,
        wan.jitter_ms,
        "--wan-bw-mbps"@,
        wan.bw_mbps,
    ]
}

/// The arguments on framing, output and thresholds.
pub open spec fn end_args(s: Settings, out: Seq<char>) -> Seq<Seq<char>> {
    seq![
        "--overhead-bytes"@,
        numeral(s.overhead_bytes),
        "--out"@,
        out,
        mode_args(s).0,
        join(numerals(mode_args(s).1), ","@),
    ]
}

/// The arguments that every scheme gets.
pub open spec fn common(
    s: Settings,
    lan: LinkState,
    wan: LinkState,
    out: Seq<char>,
    kinds: Seq<char>,
) -> Seq<Seq<char>> {
    what_args(s, kinds) + link_args(lan, wan) + end_args(s, out)
}

fn push_what(args: &mut Vec<String>, cfg: &Config, kinds: &str)
    ensures
        texts(final(args)@) == texts(old(args)@) + what_args(cfg@, kinds@),
{
    let ghost before = texts(args@);
    push_text(args, "--kind");
    push_string(args, text_of(replace_each(chars_of(kinds).as_slice(), '_', '-').as_slice()));
    push_text(args, "--net");
    push_text(args, cfg.net.as_str());
    push_text(args, "--nsp");
    push_string(args, join_numbers(&cfg.nsp));
    push_text(args, "--sample-size");
    push_string(args, number_text(cfg.sample_size as u128));
    push_text(args, "--warmup-iters");
    push_string(args, number_text(cfg.warmup_iters as u128));
    assert(texts(args@) =~= before + what_args(cfg@, kinds@));
}

fn push_links(args: &mut Vec<String>, lan: &LinkText, wan: &LinkText)
    ensures
        texts(final(args)@) == texts(old(args)@) + link_args(lan@, wan@),
{
    let ghost before = texts(args@);
    push_text(args, "--lan-rtt-ms");
    push_text(args, lan.rtt_ms.as_str());
    push_text(args, "--lan-jitter-ms");
    push_text(args, lan.jitter_ms.as_str());
    push_text(args, "--lan-bw-mbps");
    push_text(args, lan.bw_mbps.as_str());
    push_text(args, "--wan-rtt-ms");
    push_text(args, wan.rtt_ms.as_str());
    push_text(args, "--wan-jitter-ms");
    push_text(args, wan.jitter_ms.as_str());
    push_text(args, "--wan-bw-mbps");
    push_text(args, wan.bw_mbps.as_str());
    assert(texts(args@) =~= before + link_args(lan@, wan@));
}

fn push_end(args: &mut Vec<String>, cfg: &Config, out: &str)
    requires
        cfg@.tsp is Some || cfg@.tsp_pct is Some,
    ensures
        texts(final(args)@) == texts(old(args)@) + end_args(cfg@, out@),
{
    let ghost before = texts(args@);
    push_text(args, "--overhead-bytes");
    push_string(args, number_text(cfg.overhead_bytes as u128));
    push_text(args, "--out");
    push_text(args, out);
    match &cfg.tsp {
        Some(tsp) => {
            push_text(args, "--tsp");
            push_string(args, join_numbers(tsp));
        },
        None => match &cfg.tsp_pct {
            Some(pct) => {
                push_text(args, "--tsp-pct");
                push_string(args, join_numbers(pct));
            },
            None => {},
        },
    }
    assert(texts(args@) =~= before + end_args(cfg@, out@));
}

/// Appends the arguments that every scheme gets.
fn push_common(
    args: &mut Vec<String>,
    cfg: &Config,
    lan: &LinkText,
    wan: &LinkText,
    out: &str,
    kinds: &str,
)
    requires
        cfg@.tsp is Some || cfg@.tsp_pct is Some,
    ensures
        texts(final(args)@) == texts(old(args)@) + common(cfg@, lan@, wan@, out@, kinds@),
{
    let ghost before = texts(args@);
    push_what(args, cfg, kinds);
    push_links(args, lan, wan);
    push_end(args, cfg, out);
    assert(texts(args@) =~= before + common(cfg@, lan@, wan@, out@, kinds@));
}

/// The arguments that every scheme gets. The numbers of the networks are given as they are
/// to be written.
pub fn common_args(
    cfg: &Config,
    lan: &LinkText,
    wan: &LinkText,
    out: &str,
    kinds: &str,
) -> (r: Vec<String>)
    requires
        cfg@.tsp is Some || cfg@.tsp_pct is Some,
    ensures
        texts(r@) == common(cfg@, lan@, wan@, out@, kinds@),
{
    let mut args: Vec<String> = Vec::new();
    push_common(&mut args, cfg, lan, wan, out, kinds);
    assert(texts(args@) =~= common(cfg@, lan@, wan@, out@, kinds@));
    args
}

/// The arguments on the timing of procedures.
pub open spec fn timing(s: Settings) -> Seq<Seq<char>> {
    let args = seq![
        "--proc-warmup"@,
        numeral(s.proc_warmup),
        "--proc-samples"@,
        numeral(s.proc_samples),
    ];
    if s.rng_in_timed {
        args.push("--rng-in-timed"@)
    } else {
        args
    }
}

fn push_timing(args: &mut Vec<String>, cfg: &Config)
    ensures
        texts(final(args)@) == texts(old(args)@) + timing(cfg@),
{
    let ghost before = texts(args@);
    push_text(args, "--proc-warmup");
    push_string(args, number_text(cfg.proc_warmup as u128));
    push_text(args, "--proc-samples");
    push_string(args, number_text(cfg.proc_samples as u128));
    if cfg.rng_in_timed {
        push_text(args, "--rng-in-timed");
    }
    assert(texts(args@) =~= before + timing(cfg@));
}

/// The arguments of a scheme's own benchmark.
pub open spec fn args_for(
    scheme: Scheme,
    s: Settings,
    lan: LinkState,
    wan: LinkState,
    out: Seq<char>,
) -> Seq<Seq<char>> {
    let c = common(s, lan, wan, out, selection(s.kinds, supported_kinds(scheme)));
    match scheme {
        Scheme::UpSpa => c + seq!["--scheme"@, "upspa"@, "--pwdupd"@, s.pwdupd] + timing(s),
        Scheme::PasTaU => seq!["bench_pastau"@] + c + timing(s),
        Scheme::AugSso => seq!["bench_augsso"@] + c + timing(s),
        Scheme::UpSpaQuorum => c + seq![
            "--ops"@,
            s.ops,
            "--offline"@,
            offline_text(s.offline),
        ],
    }
}

/// The arguments of a scheme's own benchmark.
pub fn scheme_args(
    scheme: Scheme,
    cfg: &Config,
    lan: &LinkText,
    wan: &LinkText,
    out: &str,
) -> (r: Vec<String>)
    requires
        cfg@.tsp is Some || cfg@.tsp_pct is Some,
    ensures
        texts(r@) == args_for(scheme, cfg@, lan@, wan@, out@),
{
    let kinds = selected_kinds(&cfg.kinds, &kinds_of(scheme));
    let mut args: Vec<String> = Vec::new();
    let ghost c = common(cfg@, lan@, wan@, out@, kinds@);
    match scheme {
        Scheme::UpSpa => {
            push_common(&mut args, cfg, lan, wan, out, kinds.as_str());
            push_text(&mut args, "--scheme");
            push_text(&mut args, "upspa");
            push_text(&mut args, "--pwdupd");
            push_text(&mut args, cfg.pwdupd.as_str());
            assert(texts(args@) =~= c + seq!["--scheme"@, "upspa"@, "--pwdupd"@, cfg@.pwdupd]);
            push_timing(&mut args, cfg);
        },
        Scheme::PasTaU => {
            push_text(&mut args, "bench_pastau");
            assert(texts(args@) =~= seq!["bench_pastau"@]);
            push_common(&mut args, cfg, lan, wan, out, kinds.as_str());
            push_timing(&mut args, cfg);
        },
        Scheme::AugSso => {
            push_text(&mut args, "bench_augsso");
            assert(texts(args@) =~= seq!["bench_augsso"@]);
            push_common(&mut args, cfg, lan, wan, out, kinds.as_str());
            push_timing(&mut args, cfg);
        },
        Scheme::UpSpaQuorum => {
            push_common(&mut args, cfg, lan, wan, out, kinds.as_str());
            push_text(&mut args, "--ops");
            push_text(&mut args, cfg.ops.as_str());
            push_text(&mut args, "--offline");
            push_string(&mut args, cfg.offline.as_arg());
            assert(texts(args@) =~= c + seq![
                "--ops"@,
                cfg@.ops,
                "--offline"@,
                offline_text(cfg@.offline),
            ]);
        },
    }
    args
}

/// The kinds in the order of their names.
pub open spec fn kinds_by_name() -> Seq<Kind> {
    seq![
        Kind::Full,
        Kind::FullNet,
        Kind::FullNoNet,
        Kind::Net,
        Kind::Prim,
        Kind::Proto,
        Kind::QuorumOverhead,
        Kind::Sp,
    ]
}

/// The names of schemes.
pub open spec fn scheme_names(v: Seq<Scheme>) -> Seq<Seq<char>> {
    Seq::new(v.len(), |i: int| scheme_name(v[i]))
}

/// The lines that describe a plan.
pub open spec fn plan(s: Settings) -> Seq<Seq<char>> {
    seq![
        "schemes="@ + join(scheme_names(s.schemes), ","@),
        "kinds="@ + join(selected_names(s.kinds, kinds_by_name(), 8), ","@),
        "nsp="@ + join(numerals(s.nsp), ","@),
        if s.tsp is Some {
            "tsp="@ + join(numerals(s.tsp->Some_0), ","@)
        } else {
            "tsp_pct="@ + join(numerals(s.tsp_pct->Some_0), ","@)
        },
        "samples="@ + numeral(s.sample_size) + " warmup="@ + numeral(s.warmup_iters),
        "proc_samples="@ + numeral(s.proc_samples) + " proc_warmup="@ + numeral(s.proc_warmup),
        "net="@ + s.net + " offline="@ + offline_text(s.offline) + " out="@ + s.out,
    ]
}

fn after(label: &str, s: &str) -> (r: String)
    ensures
        r@ == label@ + s@,
{
    let mut r = copy_text(label);
    append(&mut r, s);
    r
}

fn names_of_schemes(v: &Vec<Scheme>) -> (r: Vec<String>)
    ensures
        texts(r@) == scheme_names(v@),
{
    let mut r: Vec<String> = Vec::new();
    let mut i: usize = 0;
    while i < v.len()
        invariant
            i <= v@.len(),
            r@.len() == i,
            forall|j: int| 0 <= j < i ==> (#[trigger] texts(r@)[j]) == scheme_name(v@[j]),
        decreases v@.len() - i,
    {
        let ghost before = texts(r@);
        push_text(&mut r, v[i].name());
        assert forall|j: int| 0 <= j < i + 1 implies (#[trigger] texts(r@)[j]) == scheme_name(
            v@[j],
        ) by {
            if j < i {
                assert(texts(r@)[j] == before[j]);
            }
        }
        i = i + 1;
    }
    assert(texts(r@) =~= scheme_names(v@));
    r
}

/// The lines that describe a plan.
pub fn plan_lines(cfg: &Config) -> (r: Vec<String>)
    requires
        cfg@.tsp is Some || cfg@.tsp_pct is Some,
    ensures
        texts(r@) == plan(cfg@),
{
    let kinds: Vec<Kind> = vec![
        Kind::Full,
        Kind::FullNet,
        Kind::FullNoNet,
        Kind::Net,
        Kind::Prim,
        Kind::Proto,
        Kind::QuorumOverhead,
        Kind::Sp,
    ];
    assert(kinds@ =~= kinds_by_name());
    let mut lines: Vec<String> = Vec::new();
    let schemes = join_texts(&names_of_schemes(&cfg.schemes), ",");
    push_string(&mut lines, after("schemes=", schemes.as_str()));
    let selected = join_texts(&names_selected(&cfg.kinds, &kinds), ",");
    push_string(&mut lines, after("kinds=", selected.as_str()));
    push_string(&mut lines, after("nsp=", join_numbers(&cfg.nsp).as_str()));
    match &cfg.tsp {
        Some(tsp) => push_string(&mut lines, after("tsp=", join_numbers(tsp).as_str())),
        None => match &cfg.tsp_pct {
            Some(pct) => push_string(&mut lines, after("tsp_pct=", join_numbers(pct).as_str())),
            None => {},
        },
    }
    let mut samples = after("samples=", number_text(cfg.sample_size as u128).as_str());
    append(&mut samples, " warmup=");
    append(&mut samples, number_text(cfg.warmup_iters as u128).as_str());
    push_string(&mut lines, samples);
    let mut procs = after("proc_samples=", number_text(cfg.proc_samples as u128).as_str());
    append(&mut procs, " proc_warmup=");
    append(&mut procs, number_text(cfg.proc_warmup as u128).as_str());
    push_string(&mut lines, procs);
    let mut net = after("net=", cfg.net.as_str());
    append(&mut net, " offline=");
    append(&mut net, cfg.offline.as_arg().as_str());
    append(&mut net, " out=");
    append(&mut net, cfg.out.as_str());
    push_string(&mut lines, net);
    assert(texts(lines@) =~= plan(cfg@));
    lines
}

/// Whether a text stands between the underscores of a name.
pub open spec fn has_part(op: Seq<char>, part: Seq<char>) -> bool {
    split(op, '_').contains(part)
}

/// The network that the name of an operation speaks of.
pub open spec fn profile_of(op: Seq<char>) -> Seq<char> {
    if has_part(op, "lan"@) {
        "lan"@
    } else if has_part(op, "wan"@) {
        "wan"@
    } else {
        "none"@
    }
}

fn finds_part(p: &Vec<Vec<char>>, part: &str) -> (r: bool)
    ensures
        r == parts(p@).contains(part@),
{
    let mut i: usize = 0;
    while i < p.len()
        invariant
            i <= p@.len(),
            forall|j: int| 0 <= j < i ==> #[trigger] parts(p@)[j] != part@,
        decreases p@.len() - i,
    {
        assert(parts(p@)[i as int] == p@[i as int]@);
        if is_text(p[i].as_slice(), part) {
            assert(parts(p@)[i as int] == part@);
            return true;
        }
        i = i + 1;
    }
    false
}

/// The network that the name of an operation speaks of.
pub fn network_profile(op: &str) -> (r: &'static str)
    ensures
        r@ == profile_of(op@),
{
    let p = split_at_each(chars_of(op).as_slice(), '_');
    if finds_part(&p, "lan") {
        "lan"
    } else if finds_part(&p, "wan") {
        "wan"
    } else {
        "none"
    }
}

/// How many fields the rows of a scheme have.
pub open spec fn row_len(scheme: Scheme) -> nat {
    if scheme == Scheme::UpSpaQuorum {
        16
    } else {
        14
    }
}

/// The fields of a merged row: a quorum row gets a column for what it lacks, and so does
/// another.
pub open spec fn merged_fields(scheme: Scheme, f: Seq<Seq<char>>) -> Seq<Seq<char>> {
    if scheme == Scheme::UpSpaQuorum {
        seq!["upspa_quorum"@, f[1], f[2], f[3], "0"@] + f.subrange(4, 16)
    } else {
        f.subrange(0, 3) + seq![profile_of(f[2])] + f.subrange(3, 6) + seq!["0"@, "0"@]
            + f.subrange(6, 14)
    }
}

/// The row for the fields of a line, joined by spaces.
pub open spec fn merged_row(scheme: Scheme, f: Seq<Seq<char>>) -> Seq<char> {
    join(merged_fields(scheme, f), " "@)
}

/// The message for a line with the wrong number of fields.
pub open spec fn bad_row(scheme: Scheme, path: Seq<char>, number: nat) -> Seq<char> {
    (if scheme == Scheme::UpSpaQuorum {
        "invalid quorum row at "@
    } else {
        "invalid baseline row at "@
    }) + path + ":"@ + numeral(number)
}

/// The rows and the message that the lines before place `k` give. The first line is a
/// header, a line of white space is passed over, and nothing follows a bad line.
pub open spec fn merged(
    scheme: Scheme,
    path: Seq<char>,
    lines: Seq<Seq<char>>,
    k: int,
) -> (Seq<Seq<char>>, Option<Seq<char>>)
    decreases k,
{
    if k <= 1 {
        (Seq::empty(), None)
    } else {
        let (rows, bad) = merged(scheme, path, lines, k - 1);
        let f = words(lines[k - 1]);
        if bad is Some || f.len() == 0 {
            (rows, bad)
        } else if f.len() != row_len(scheme) {
            (rows, Some(bad_row(scheme, path, k as nat)))
        } else {
            (rows.push(merged_row(scheme, f)), None)
        }
    }
}

/// A merged row of a complete line has seventeen fields: scheme, kind, operation and network in
/// front, the samples and statistics of the line at the end, and zeros for what the scheme does
/// not have.
pub proof fn merged_rows_align(scheme: Scheme, f: Seq<Seq<char>>)
    requires
        f.len() == row_len(scheme),
    ensures
        merged_fields(scheme, f).len() == 17,
        scheme != Scheme::UpSpaQuorum ==> {
            &&& merged_fields(scheme, f)[0] == f[0]
            &&& merged_fields(scheme, f)[3] == profile_of(f[2])
            &&& merged_fields(scheme, f)[7] == "0"@
            &&& merged_fields(scheme, f)[8] == "0"@
        },
        scheme == Scheme::UpSpaQuorum ==> {
            &&& merged_fields(scheme, f)[0] == "upspa_quorum"@
            &&& merged_fields(scheme, f)[3] == f[3]
            &&& merged_fields(scheme, f)[4] == "0"@
        },
        merged_fields(scheme, f)[1] == f[1],
        merged_fields(scheme, f)[2] == f[2],
        forall|i: int|
            9 <= i < 17 ==> merged_fields(scheme, f)[i] == #[trigger] f[i - 17 + f.len()],
{
}

proof fn lemma_merged_stops(
    scheme: Scheme,
    path: Seq<char>,
    lines: Seq<Seq<char>>,
    k: int,
    n: int,
)
    requires
        1 <= k <= n,
        merged(scheme, path, lines, k).1 is Some,
    ensures
        merged(scheme, path, lines, n) == merged(scheme, path, lines, k),
    decreases n - k,
{
    if k < n {
        lemma_merged_stops(scheme, path, lines, k, n - 1);
    }
}

fn push_fields(v: &mut Vec<String>, f: &Vec<Vec<char>>, from: usize, to: usize)
    requires
        from <= to <= f@.len(),
    ensures
        texts(final(v)@) == texts(old(v)@) + parts(f@).subrange(from as int, to as int),
{
    let ghost before = texts(v@);
    let mut i: usize = from;
    assert(texts(v@) =~= before + parts(f@).subrange(from as int, i as int));
    while i < to
        invariant
            from <= i <= to <= f@.len(),
            texts(v@) == before + parts(f@).subrange(from as int, i as int),
        decreases to - i,
    {
        let ghost mid = texts(v@);
        push_string(v, text_of(f[i].as_slice()));
        assert(texts(v@) =~= before + parts(f@).subrange(from as int, i + 1));
        i = i + 1;
    }
}

fn merge_row(scheme: Scheme, f: &Vec<Vec<char>>) -> (r: String)
    requires
        f@.len() == row_len(scheme),
    ensures
        r@ == merged_row(scheme, parts(f@)),
{
    let ghost g = parts(f@);
    let mut v: Vec<String> = Vec::new();
    if scheme == Scheme::UpSpaQuorum {
        push_text(&mut v, "upspa_quorum");
        push_fields(&mut v, f, 1, 4);
        push_text(&mut v, "0");
        push_fields(&mut v, f, 4, 16);
    } else {
        push_fields(&mut v, f, 0, 3);
        let op = text_of(f[2].as_slice());
        push_text(&mut v, network_profile(op.as_str()));
        push_fields(&mut v, f, 3, 6);
        push_text(&mut v, "0");
        push_text(&mut v, "0");
        push_fields(&mut v, f, 6, 14);
    }
    assert(texts(v@) =~= merged_fields(scheme, g));
    join_texts(&v, " ")
}

/// Brings the rows of one scheme's results into the common columns: the rows before the
/// first line with the wrong number of fields, and the message for that line.
pub fn merge_rows(scheme: Scheme, path: &str, contents: &str) -> (r: (Vec<String>, Option<String>))
    ensures
        ({
            let lines = split(contents@, '\n');
            let m = merged(scheme, path@, lines, lines.len() as int);
            &&& texts(r.0@) == m.0
            &&& match r.1 {
                Some(e) => m.1 == Some(e@),
                None => m.1 is None,
            }
        }),
{
    let lines = split_at_each(chars_of(contents).as_slice(), '\n');
    let ghost g = split(contents@, '\n');
    let mut rows: Vec<String> = Vec::new();
    let n: usize = lines.len();
    assert(texts(rows@) =~= Seq::<Seq<char>>::empty());
    if n == 0 {
        return (rows, None);
    }
    let mut k: usize = 1;
    while k < n
        invariant
            1 <= k <= n,
            n == lines@.len(),
            g == parts(lines@),
            g == split(contents@, '\n'),
            merged(scheme, path@, g, k as int) == (texts(rows@), None::<Seq<char>>),
        decreases n - k,
    {
        let f = split_words(lines[k].as_slice());
        assert(parts(f@) == words(g[k as int]));
        assert(parts(f@).len() == f@.len());
        if f.len() > 0 {
            let expected: usize = if scheme == Scheme::UpSpaQuorum {
                16
            } else {
                14
            };
            if f.len() != expected {
                let mut e = if scheme == Scheme::UpSpaQuorum {
                    copy_text("invalid quorum row at ")
                } else {
                    copy_text("invalid baseline row at ")
                };
                append(&mut e, path);
                append(&mut e, ":");
                append(&mut e, number_text(k as u128 + 1).as_str());
                proof {
                    assert(merged(scheme, path@, g, k + 1) == (texts(rows@), Some(e@)));
                    lemma_merged_stops(scheme, path@, g, k + 1, n as int);
                    assert(n as int == g.len());
                }
                return (rows, Some(e));
            }
            push_string(&mut rows, merge_row(scheme, &f));
        }
        k = k + 1;
    }
    (rows, None)
}

/// The name of a file that holds the results of a scheme until they are merged.
pub fn temporary_name(stem: &str, scheme: Scheme, process: u32) -> (r: String)
    ensures
        r@ == "."@ + stem@ + "."@ + scheme_name(scheme) + "."@ + numeral(process as nat) + ".tmp"@,
{
    let mut r = after(".", stem);
    append(&mut r, ".");
    append(&mut r, scheme.name());
    append(&mut r, ".");
    append(&mut r, number_text(process as u128).as_str());
    append(&mut r, ".tmp");
    r
}

} // verus!
