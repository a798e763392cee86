//! What a unified run is for: which setting an argument sets, which pairs of numbers are run,
//! what each scheme is told, and what stands in each column of the merged results.
use vstd::prelude::*;

use crate::float_text::is_float;
use crate::text::{is_space, join, lower, numeral, parsed, replaced, split, trim, words};
use crate::text_law::{
    joined_parts_split_back, joined_words_read_back, lacks, numerals_are_solid,
    numerals_read_back, solid, solid_texts_stay, words_are_the_solid_runs,
};
use crate::unified::{
    kind_name, kind_named, list_of, listed, offline_of, offline_text, scheme_name, scheme_named,
    supported_kinds, Kind, Kinds, Offline, Scheme,
};
use crate::unified_config::{
    default_settings, flag_named, given, settings_from, switched, takes_value, Flag, LinkState,
    Settings,
};
use crate::unified_plan::{
    args_for, merged, merged_fields, merged_row, numerals, profile_of, selected_names, selection,
};
use crate::unified_run::{
    absolute_row, grid, max_unavailable, percent_row, refusal, threshold_at, works, LinkFault,
};

verus! {

/// In a merged row of a baseline scheme, scheme, kind and operation come first, then the network
/// that the operation speaks of, then whether random draws were timed, the number of servers
/// and the threshold as they stand in the line, two zeros, and the other eight fields.
pub proof fn baseline_columns(scheme: Scheme, f: Seq<Seq<char>>)
    requires
        scheme != Scheme::UpSpaQuorum,
        f.len() == 14,
    ensures
        ({
            let m = merged_fields(scheme, f);
            &&& m.len() == 17
            &&& m[0] == f[0]
            &&& m[1] == f[1]
            &&& m[2] == f[2]
            &&& m[3] == profile_of(f[2])
            &&& m[4] == f[3]
            &&& m[5] == f[4]
            &&& m[6] == f[5]
            &&& m[7] == "0"@
            &&& m[8] == "0"@
            &&& forall|i: int| 9 <= i < 17 ==> #[trigger] m[i] == f[i - 3]
        }),
{
}

/// In a merged row of the quorum scheme, its name comes first, then kind, operation and network,
/// a zero for random draws, and then the number of providers, the threshold, the quorum, how
/// many were unavailable and the other eight fields as they stand in the line.
pub proof fn quorum_columns(f: Seq<Seq<char>>)
    requires
        f.len() == 16,
    ensures
        ({
            let m = merged_fields(Scheme::UpSpaQuorum, f);
            &&& m.len() == 17
            &&& m[0] == "upspa_quorum"@
            &&& m[1] == f[1]
            &&& m[2] == f[2]
            &&& m[3] == f[3]
            &&& m[4] == "0"@
            &&& m[5] == f[4]
            &&& m[6] == f[5]
            &&& m[7] == f[6]
            &&& m[8] == f[7]
            &&& forall|i: int| 9 <= i < 17 ==> #[trigger] m[i] == f[i - 1]
        }),
{
}

/// The words of a merged row are its seventeen fields, so each column is found at its place.
pub proof fn merged_row_reads_back(scheme: Scheme, line: Seq<char>)
    requires
        words(line).len() == if scheme == Scheme::UpSpaQuorum {
            16nat
        } else {
            14nat
        },
    ensures
        words(merged_row(scheme, words(line))) == merged_fields(scheme, words(line)),
{
    let f = words(line);
    let m = merged_fields(scheme, f);
    words_are_the_solid_runs(line);
    reveal_strlit("0");
    reveal_strlit("lan");
    reveal_strlit("wan");
    reveal_strlit("none");
    reveal_strlit("upspa_quorum");
    reveal_strlit(" ");
    assert(" "@ =~= seq![' ']);
    assert(solid("0"@));
    assert(solid("upspa_quorum"@));
    assert(solid(profile_of(f[2])));
    assert forall|i: int| 0 <= i < m.len() implies solid(#[trigger] m[i]) by {
        if scheme == Scheme::UpSpaQuorum {
            quorum_columns(f);
            if 9 <= i {
                assert(m[i] == f[i - 1]);
            }
        } else {
            baseline_columns(scheme, f);
            if 9 <= i {
                assert(m[i] == f[i - 3]);
            }
        }
    }
    joined_words_read_back(m);
}

/// The first line gives no row. Each further line that is not blank gives one row, in order, up
/// to the first with the wrong number of words, which is named with its number and ends it.
pub proof fn each_line_gives_a_row(
    scheme: Scheme,
    path: Seq<char>,
    lines: Seq<Seq<char>>,
    k: int,
)
    requires
        1 <= k < lines.len(),
        merged(scheme, path, lines, k).1 is None,
    ensures
        ({
            let before = merged(scheme, path, lines, k).0;
            let now = merged(scheme, path, lines, k + 1);
            let n: nat = if scheme == Scheme::UpSpaQuorum {
                16
            } else {
                14
            };
            let w = words(lines[k]);
            &&& w.len() == 0 ==> now == (before, None::<Seq<char>>)
            &&& w.len() == n ==> now == (
                before.push(join(merged_fields(scheme, w), " "@)),
                None::<Seq<char>>,
            )
            &&& w.len() != 0 && w.len() != n ==> now == (
                before,
                Some(
                    (if scheme == Scheme::UpSpaQuorum {
                        "invalid quorum row at "@
                    } else {
                        "invalid baseline row at "@
                    }) + path + ":"@ + numeral((k + 1) as nat),
                ),
            )
        }),
        merged(scheme, path, lines, 1) == (Seq::<Seq<char>>::empty(), None::<Seq<char>>),
        merged(scheme, path, lines, 0) == (Seq::<Seq<char>>::empty(), None::<Seq<char>>),
{
}

/// The network of an operation is the word for it between underscores in its name: the local
/// one where both occur, and none where neither does.
pub proof fn operations_name_their_network(p: Seq<Seq<char>>)
    requires
        p.len() > 0,
        forall|i: int| 0 <= i < p.len() ==> lacks(#[trigger] p[i], '_'),
    ensures
        profile_of(join(p, seq!['_'])) == if p.contains("lan"@) {
            "lan"@
        } else if p.contains("wan"@) {
            "wan"@
        } else {
            "none"@
        },
{
    joined_parts_split_back(p, '_');
}

/// Every argument has its meaning.
#[verifier::rlimit(60)]
pub proof fn arguments_have_their_meaning()
    ensures
        flag_named("--help"@) == Some(Flag::Help),
        flag_named("-h"@) == Some(Flag::Help),
        flag_named("--scheme"@) == Some(Flag::Schemes),
        flag_named("--schemes"@) == Some(Flag::Schemes),
        flag_named("--kind"@) == Some(Flag::Kinds),
        flag_named("--ops"@) == Some(Flag::Ops),
        flag_named("--nsp"@) == Some(Flag::Nsp),
        flag_named("--tsp"@) == Some(Flag::Tsp),
        flag_named("--tsp-pct"@) == Some(Flag::TspPct),
        flag_named("--sample-size"@) == Some(Flag::SampleSize),
        flag_named("--samples"@) == Some(Flag::SampleSize),
        flag_named("--warmup-iters"@) == Some(Flag::WarmupIters),
        flag_named("--warmup"@) == Some(Flag::WarmupIters),
        flag_named("--proc-warmup"@) == Some(Flag::ProcWarmup),
        flag_named("--proc-samples"@) == Some(Flag::ProcSamples),
        flag_named("--net"@) == Some(Flag::Net),
        flag_named("--lan-rtt-ms"@) == Some(Flag::LanRtt),
        flag_named("--lan-jitter-ms"@) == Some(Flag::LanJitter),
        flag_named("--lan-bw-mbps"@) == Some(Flag::LanBandwidth),
        flag_named("--wan-rtt-ms"@) == Some(Flag::WanRtt),
        flag_named("--wan-jitter-ms"@) == Some(Flag::WanJitter),
        flag_named("--wan-bw-mbps"@) == Some(Flag::WanBandwidth),
        flag_named("--overhead-bytes"@) == Some(Flag::OverheadBytes),
        flag_named("--offline"@) == Some(Flag::Unavailable),
        flag_named("--unavailable"@) == Some(Flag::Unavailable),
        flag_named("--pwdupd"@) == Some(Flag::PasswordUpdate),
        flag_named("--out"@) == Some(Flag::Out),
        flag_named("--rng-in-timed"@) == Some(Flag::RngInTimed),
        flag_named("--rng"@) == Some(Flag::RngInTimed),
        flag_named("--dry-run"@) == Some(Flag::DryRun),
        flag_named("--bench"@) == Some(Flag::Ignored),
{
    reveal_strlit("--help");
    reveal_strlit("-h");
    reveal_strlit("--scheme");
    reveal_strlit("--schemes");
    reveal_strlit("--kind");
    reveal_strlit("--ops");
    reveal_strlit("--nsp");
    reveal_strlit("--tsp");
    reveal_strlit("--tsp-pct");
    reveal_strlit("--sample-size");
    reveal_strlit("--samples");
    reveal_strlit("--warmup-iters");
    reveal_strlit("--warmup");
    reveal_strlit("--proc-warmup");
    reveal_strlit("--proc-samples");
    reveal_strlit("--net");
    reveal_strlit("--lan-rtt-ms");
    reveal_strlit("--lan-jitter-ms");
    reveal_strlit("--lan-bw-mbps");
    reveal_strlit("--wan-rtt-ms");
    reveal_strlit("--wan-jitter-ms");
    reveal_strlit("--wan-bw-mbps");
    reveal_strlit("--overhead-bytes");
    reveal_strlit("--offline");
    reveal_strlit("--unavailable");
    reveal_strlit("--pwdupd");
    reveal_strlit("--out");
    reveal_strlit("--rng-in-timed");
    reveal_strlit("--rng");
    reveal_strlit("--dry-run");
    reveal_strlit("--bench");
    assert("--help"@.len() == 6);
    assert("-h"@.len() == 2);
    assert("--scheme"@.len() == 8);
    assert("--schemes"@.len() == 9);
    assert("--kind"@.len() == 6);
    assert("--ops"@.len() == 5);
    assert("--nsp"@.len() == 5);
    assert("--tsp"@.len() == 5);
    assert("--tsp-pct"@.len() == 9);
    assert("--sample-size"@.len() == 13);
    assert("--samples"@.len() == 9);
    assert("--warmup-iters"@.len() == 14);
    assert("--warmup"@.len() == 8);
    assert("--proc-warmup"@.len() == 13);
    assert("--proc-samples"@.len() == 14);
    assert("--net"@.len() == 5);
    assert("--lan-rtt-ms"@.len() == 12);
    assert("--lan-jitter-ms"@.len() == 15);
    assert("--lan-bw-mbps"@.len() == 13);
    assert("--wan-rtt-ms"@.len() == 12);
    assert("--wan-jitter-ms"@.len() == 15);
    assert("--wan-bw-mbps"@.len() == 13);
    assert("--overhead-bytes"@.len() == 16);
    assert("--offline"@.len() == 9);
    assert("--unavailable"@.len() == 13);
    assert("--pwdupd"@.len() == 8);
    assert("--out"@.len() == 5);
    assert("--rng-in-timed"@.len() == 14);
    assert("--rng"@.len() == 5);
    assert("--dry-run"@.len() == 9);
    assert("--bench"@.len() == 7);
    assert("--kind"@[2] != "--help"@[2]);
    assert("--nsp"@[2] != "--ops"@[2]);
    assert("--tsp"@[2] != "--ops"@[2]);
    assert("--tsp"@[2] != "--nsp"@[2]);
    assert("--tsp-pct"@[2] != "--schemes"@[2]);
    assert("--samples"@[3] != "--schemes"@[3]);
    assert("--samples"@[2] != "--tsp-pct"@[2]);
    assert("--warmup"@[2] != "--scheme"@[2]);
    assert("--proc-warmup"@[2] != "--sample-size"@[2]);
    assert("--proc-samples"@[2] != "--warmup-iters"@[2]);
    assert("--net"@[2] != "--ops"@[2]);
    assert("--net"@[3] != "--nsp"@[3]);
    assert("--net"@[2] != "--tsp"@[2]);
    assert("--lan-bw-mbps"@[2] != "--sample-size"@[2]);
    assert("--lan-bw-mbps"@[2] != "--proc-warmup"@[2]);
    assert("--wan-rtt-ms"@[2] != "--lan-rtt-ms"@[2]);
    assert("--wan-jitter-ms"@[2] != "--lan-jitter-ms"@[2]);
    assert("--wan-bw-mbps"@[2] != "--sample-size"@[2]);
    assert("--wan-bw-mbps"@[2] != "--proc-warmup"@[2]);
    assert("--wan-bw-mbps"@[2] != "--lan-bw-mbps"@[2]);
    assert("--offline"@[2] != "--schemes"@[2]);
    assert("--offline"@[2] != "--tsp-pct"@[2]);
    assert("--offline"@[2] != "--samples"@[2]);
    assert("--unavailable"@[2] != "--sample-size"@[2]);
    assert("--unavailable"@[2] != "--proc-warmup"@[2]);
    assert("--unavailable"@[2] != "--lan-bw-mbps"@[2]);
    assert("--unavailable"@[2] != "--wan-bw-mbps"@[2]);
    assert("--pwdupd"@[2] != "--scheme"@[2]);
    assert("--pwdupd"@[2] != "--warmup"@[2]);
    assert("--out"@[3] != "--ops"@[3]);
    assert("--out"@[2] != "--nsp"@[2]);
    assert("--out"@[2] != "--tsp"@[2]);
    assert("--out"@[2] != "--net"@[2]);
    assert("--rng-in-timed"@[2] != "--warmup-iters"@[2]);
    assert("--rng-in-timed"@[2] != "--proc-samples"@[2]);
    assert("--rng"@[2] != "--ops"@[2]);
    assert("--rng"@[2] != "--nsp"@[2]);
    assert("--rng"@[2] != "--tsp"@[2]);
    assert("--rng"@[2] != "--net"@[2]);
    assert("--rng"@[2] != "--out"@[2]);
    assert("--dry-run"@[2] != "--schemes"@[2]);
    assert("--dry-run"@[2] != "--tsp-pct"@[2]);
    assert("--dry-run"@[2] != "--samples"@[2]);
    assert("--dry-run"@[2] != "--offline"@[2]);
}

/// Each argument with a value sets its own setting to that value and leaves the others.
pub proof fn arguments_set_one_setting(c: Settings, name: Seq<char>, v: Seq<char>, n: nat)
    ensures
        ({
            let max = usize::MAX as nat;
            let bad = Err::<Settings, Seq<char>>("invalid value '"@ + v + "' for "@ + name);
            &&& parsed(v, max) == Some(n) ==> {
                &&& given(c, Flag::SampleSize, name, v) == Ok::<Settings, Seq<char>>(
                    Settings { sample_size: n, ..c },
                )
                &&& given(c, Flag::WarmupIters, name, v) == Ok::<Settings, Seq<char>>(
                    Settings { warmup_iters: n, ..c },
                )
                &&& given(c, Flag::ProcWarmup, name, v) == Ok::<Settings, Seq<char>>(
                    Settings { proc_warmup: n, ..c },
                )
                &&& given(c, Flag::ProcSamples, name, v) == Ok::<Settings, Seq<char>>(
                    Settings { proc_samples: n, ..c },
                )
                &&& given(c, Flag::OverheadBytes, name, v) == Ok::<Settings, Seq<char>>(
                    Settings { overhead_bytes: n, ..c },
                )
            }
            &&& parsed(v, max) is None ==> {
                &&& given(c, Flag::SampleSize, name, v) == bad
                &&& given(c, Flag::WarmupIters, name, v) == bad
                &&& given(c, Flag::ProcWarmup, name, v) == bad
                &&& given(c, Flag::ProcSamples, name, v) == bad
                &&& given(c, Flag::OverheadBytes, name, v) == bad
            }
            &&& is_float(v) ==> {
                &&& given(c, Flag::LanRtt, name, v) == Ok::<Settings, Seq<char>>(
                    Settings { lan: LinkState { rtt_ms: v, ..c.lan }, ..c },
                )
                &&& given(c, Flag::LanJitter, name, v) == Ok::<Settings, Seq<char>>(
                    Settings { lan: LinkState { jitter_ms: v, ..c.lan }, ..c },
                )
                &&& given(c, Flag::LanBandwidth, name, v) == Ok::<Settings, Seq<char>>(
                    Settings { lan: LinkState { bw_mbps: v, ..c.lan }, ..c },
                )
                &&& given(c, Flag::WanRtt, name, v) == Ok::<Settings, Seq<char>>(
                    Settings { wan: LinkState { rtt_ms: v, ..c.wan }, ..c },
                )
                &&& given(c, Flag::WanJitter, name, v) == Ok::<Settings, Seq<char>>(
                    Settings { wan: LinkState { jitter_ms: v, ..c.wan }, ..c },
                )
                &&& given(c, Flag::WanBandwidth, name, v) == Ok::<Settings, Seq<char>>(
                    Settings { wan: LinkState { bw_mbps: v, ..c.wan }, ..c },
                )
            }
            &&& !is_float(v) ==> {
                &&& given(c, Flag::LanRtt, name, v) == bad
                &&& given(c, Flag::LanJitter, name, v) == bad
                &&& given(c, Flag::LanBandwidth, name, v) == bad
                &&& given(c, Flag::WanRtt, name, v) == bad
                &&& given(c, Flag::WanJitter, name, v) == bad
                &&& given(c, Flag::WanBandwidth, name, v) == bad
            }
            &&& given(c, Flag::Net, name, v) == Ok::<Settings, Seq<char>>(
                Settings { net: lower(v), ..c },
            )
            &&& given(c, Flag::Ops, name, v) == Ok::<Settings, Seq<char>>(
                Settings { ops: lower(v), ..c },
            )
            &&& given(c, Flag::PasswordUpdate, name, v) == Ok::<Settings, Seq<char>>(
                Settings { pwdupd: lower(v), ..c },
            )
            &&& given(c, Flag::Out, name, v) == Ok::<Settings, Seq<char>>(
                Settings { out: v, ..c },
            )
            &&& switched(c, Flag::RngInTimed) == (Settings { rng_in_timed: true, ..c })
            &&& switched(c, Flag::DryRun) == (Settings { dry_run: true, ..c })
            &&& switched(c, Flag::Help) == (Settings { help: true, ..c })
            &&& switched(c, Flag::Ignored) == c
        }),
{
}

/// A list of numbers as it is handed on is read back as those numbers.
pub proof fn number_lists_read_back(v: Seq<nat>, max: nat, name: Seq<char>)
    requires
        v.len() > 0,
        forall|i: int| 0 <= i < v.len() ==> #[trigger] v[i] <= max,
    ensures
        list_of(join(numerals(v), ","@), max, name) == Ok::<Seq<nat>, Seq<char>>(v),
{
    let p = numerals(v);
    reveal_strlit(",");
    assert(","@ =~= seq![',']);
    assert forall|i: int| 0 <= i < p.len() implies lacks(#[trigger] p[i], ',') by {
        numerals_are_solid(v[i]);
    }
    joined_parts_split_back(p, ',');
    lemma_listed(v, max, name, v.len() as int);
    assert(v.take(v.len() as int) =~= v);
}

proof fn lemma_listed(v: Seq<nat>, max: nat, name: Seq<char>, k: int)
    requires
        0 <= k <= v.len(),
        forall|i: int| 0 <= i < v.len() ==> #[trigger] v[i] <= max,
    ensures
        listed(numerals(v), max, name, k) == Ok::<Seq<nat>, Seq<char>>(v.take(k)),
    decreases k,
{
    if k > 0 {
        lemma_listed(v, max, name, k - 1);
        let n = v[k - 1];
        numerals_are_solid(n);
        numerals_read_back(n, max);
        assert(numerals(v)[k - 1] == numeral(n));
        assert(!is_space(numeral(n)[0]));
        assert(!is_space(numeral(n)[numeral(n).len() - 1]));
        solid_texts_stay(numeral(n));
        assert(v.take(k) =~= v.take(k - 1).push(n));
    } else {
        assert(v.take(0) =~= Seq::empty());
    }
}

/// A list of numbers keeps its order and passes over blank parts; the first part that is no
/// number below the bound is refused by its text.
pub proof fn lists_keep_their_order(p: Seq<Seq<char>>, max: nat, name: Seq<char>, k: int)
    requires
        0 < k <= p.len(),
    ensures
        listed(p, max, name, k - 1) matches Ok(v) ==> listed(p, max, name, k) == (if trim(
            p[k - 1],
        ).len() == 0 {
            Ok::<Seq<nat>, Seq<char>>(v)
        } else {
            match parsed(trim(p[k - 1]), max) {
                Some(n) => Ok::<Seq<nat>, Seq<char>>(v.push(n)),
                None => Err("invalid value '"@ + trim(p[k - 1]) + "' for "@ + name),
            }
        }),
        listed(p, max, name, k - 1) is Err ==> listed(p, max, name, k) == listed(
            p,
            max,
            name,
            k - 1,
        ),
{
}

/// What is written for unavailable providers is read back.
pub proof fn offline_reads_back(o: Offline)
    ensures
        offline_of(offline_text(o)) == Some(o),
{
    reveal_strlit("max");
    reveal_strlit("none");
    assert(lower("max"@) =~= "max"@);
    assert(lower("none"@) =~= "none"@);
    assert("max"@.len() != "none"@.len());
    if o is Count {
        let n = o->Count_0 as nat;
        numerals_read_back(n, usize::MAX as nat);
        let s = numeral(n);
        assert(crate::text::is_digit(s[0]));
        assert forall|i: int| 0 <= i < s.len() implies lower(s)[i] == s[i] by {
            assert(crate::text::is_digit(s[i]));
        }
        assert(lower(s) =~= s);
        assert("max"@[0] == 'm');
        assert("none"@[0] == 'n');
    }
}

/// The names of kinds are read back as those kinds, and `quorum` is one of them.
pub proof fn kinds_read_back(k: Kind)
    ensures
        kind_named(kind_name(k)) == Some(k),
        kind_named("quorum"@) == Some(Kind::QuorumOverhead),
{
    reveal_strlit("quorum");
    reveal_strlit("proto");
    reveal_strlit("prim");
    reveal_strlit("sp");
    reveal_strlit("net");
    reveal_strlit("full");
    reveal_strlit("full_no_net");
    reveal_strlit("full_net");
    reveal_strlit("quorum_overhead");
    assert("quorum"@.len() == 6);
    assert("proto"@.len() == 5);
    assert("prim"@.len() == 4);
    assert("sp"@.len() == 2);
    assert("net"@.len() == 3);
    assert("full"@.len() == 4);
    assert("full_no_net"@.len() == 11);
    assert("full_net"@.len() == 8);
    assert("quorum_overhead"@.len() == 15);
    assert("full"@[0] != "prim"@[0]);
}

/// The names of schemes are read back as those schemes, and so are their other names.
pub proof fn schemes_read_back(s: Scheme)
    ensures
        scheme_named(scheme_name(s)) == Some(s),
        scheme_named("pas_ta_u"@) == Some(Scheme::PasTaU),
        scheme_named("quorum"@) == Some(Scheme::UpSpaQuorum),
        scheme_named("upspa_abd"@) == Some(Scheme::UpSpaQuorum),
{
    reveal_strlit("upspa");
    reveal_strlit("pastau");
    reveal_strlit("pas_ta_u");
    reveal_strlit("augsso");
    reveal_strlit("quorum");
    reveal_strlit("upspa_quorum");
    reveal_strlit("upspa_abd");
    assert("upspa"@.len() == 5);
    assert("pastau"@.len() == 6);
    assert("pas_ta_u"@.len() == 8);
    assert("augsso"@.len() == 6);
    assert("quorum"@.len() == 6);
    assert("upspa_quorum"@.len() == 12);
    assert("upspa_abd"@.len() == 9);
    assert("augsso"@[0] != "pastau"@[0]);
    assert("quorum"@[0] != "pastau"@[0]);
    assert("quorum"@[0] != "augsso"@[0]);
    assert(replaced("upspa"@, '-', '_') =~= "upspa"@);
    assert(replaced("pastau"@, '-', '_') =~= "pastau"@);
    assert(replaced("pas_ta_u"@, '-', '_') =~= "pas_ta_u"@);
    assert(replaced("augsso"@, '-', '_') =~= "augsso"@);
    assert(replaced("quorum"@, '-', '_') =~= "quorum"@);
    assert(replaced("upspa_quorum"@, '-', '_') =~= "upspa_quorum"@);
    assert(replaced("upspa_abd"@, '-', '_') =~= "upspa_abd"@);
}

/// A set of kinds holds a kind exactly where it was put in, and the empty and full sets none
/// and all.
pub proof fn kinds_are_a_set(s: Kinds, k: Kind, other: Kind)
    ensures
        s.plus(k).has(k),
        other != k ==> s.plus(k).has(other) == s.has(other),
        !Kinds::empty().has(k),
        Kinds::all().has(k),
        (supported_kinds(Scheme::UpSpaQuorum).contains(k) <==> k == Kind::FullNoNet || k
            == Kind::FullNet || k == Kind::QuorumOverhead),
        (supported_kinds(Scheme::AugSso).contains(k) <==> !(k == Kind::FullNoNet || k
            == Kind::FullNet || k == Kind::QuorumOverhead)),
        supported_kinds(Scheme::PasTaU) == supported_kinds(Scheme::AugSso),
        supported_kinds(Scheme::UpSpa) == supported_kinds(Scheme::AugSso),
{
    let q = supported_kinds(Scheme::UpSpaQuorum);
    let b = supported_kinds(Scheme::AugSso);
    assert(q[0] == Kind::FullNoNet && q[1] == Kind::FullNet && q[2] == Kind::QuorumOverhead);
    assert(b[0] == Kind::Proto && b[1] == Kind::Prim && b[2] == Kind::Sp && b[3] == Kind::Net
        && b[4] == Kind::Full);
}

/// A threshold of so many percent is the least number that is at least that share.
pub proof fn percentages_round_up(nsp: nat, pct: nat)
    ensures
        100 * threshold_at(nsp, pct) >= nsp * pct,
        threshold_at(nsp, pct) > 0 ==> 100 * (threshold_at(nsp, pct) - 1) < nsp * pct,
        nsp > 0 && pct > 0 ==> threshold_at(nsp, pct) > 0,
        pct == 100 ==> threshold_at(nsp, pct) == nsp,
{
    assert(nsp > 0 && pct > 0 ==> nsp * pct > 0) by (nonlinear_arith);
    assert(pct == 100 ==> nsp * pct == 100 * nsp) by (nonlinear_arith);
}

/// Rows of thresholds keep the order of the list: absolute ones as they stand, percentages as
/// the share of the number of providers.
pub proof fn rows_keep_their_order(nsp: nat, list: Seq<nat>, k: int, i: int)
    requires
        0 <= i < k <= list.len(),
    ensures
        absolute_row(nsp, list, k) matches Ok(v) ==> v.len() == k && v[i] == (nsp, list[i]) && 1
            <= list[i] <= nsp,
        percent_row(nsp, list, k) matches Ok(v) ==> v.len() == k && v[i] == (
            nsp,
            threshold_at(nsp, list[i]),
        ) && 1 <= list[i] <= 100,
    decreases k,
{
    if i < k - 1 {
        rows_keep_their_order(nsp, list, k - 1, i);
    } else if k > 1 {
        rows_keep_their_order(nsp, list, k - 1, 0);
    } else {
        reveal_with_fuel(absolute_row, 2);
        reveal_with_fuel(percent_row, 2);
    }
}

/// A row is refused exactly where one of its values is out of range, with the message for the
/// first that is.
pub proof fn rows_refuse_the_first_bad_value(nsp: nat, list: Seq<nat>, k: int)
    requires
        0 <= k <= list.len(),
    ensures
        match absolute_row(nsp, list, k) {
            Ok(_) => forall|i: int| 0 <= i < k ==> 1 <= #[trigger] list[i] <= nsp,
            Err(e) => exists|i: int|
                0 <= i < k && !(1 <= #[trigger] list[i] <= nsp) && e == "tsp="@ + numeral(list[i])
                    + " is invalid for nsp="@ + numeral(nsp) + "; require 1 <= tsp <= nsp"@
                    && forall|j: int| 0 <= j < i ==> 1 <= #[trigger] list[j] <= nsp,
        },
        match percent_row(nsp, list, k) {
            Ok(_) => forall|i: int| 0 <= i < k ==> 1 <= #[trigger] list[i] <= 100,
            Err(e) => exists|i: int|
                0 <= i < k && !(1 <= #[trigger] list[i] <= 100) && e == "tsp percentage "@
                    + numeral(list[i]) + " is outside 1..=100"@ && forall|j: int|
                    0 <= j < i ==> 1 <= #[trigger] list[j] <= 100,
        },
    decreases k,
{
    if k > 0 {
        rows_refuse_the_first_bad_value(nsp, list, k - 1);
        if absolute_row(nsp, list, k - 1) is Ok && absolute_row(nsp, list, k) is Err {
            assert(!(1 <= list[k - 1] <= nsp));
        }
        if percent_row(nsp, list, k - 1) is Ok && percent_row(nsp, list, k) is Err {
            assert(!(1 <= list[k - 1] <= 100));
        }
    }
}

/// The grid runs every number of providers with every threshold: the numbers in order, and with
/// each all thresholds in order.
pub proof fn grid_runs_every_pair(s: Settings, k: int, a: int, b: int)
    requires
        0 <= a < k <= s.nsp.len(),
        s.tsp matches Some(list) ==> 0 <= b < list.len(),
        s.tsp is None ==> (s.tsp_pct matches Some(list) && 0 <= b < list.len()),
    ensures
        grid(s, k) matches Ok(v) ==> {
            let list = match s.tsp {
                Some(list) => list,
                None => s.tsp_pct->Some_0,
            };
            let n = list.len() as int;
            &&& v.len() == k * n
            &&& v[a * n + b] == (
                s.nsp[a],
                if s.tsp is Some {
                    list[b]
                } else {
                    threshold_at(s.nsp[a], list[b])
                },
            )
        },
    decreases k,
{
    let list = match s.tsp {
        Some(list) => list,
        None => s.tsp_pct->Some_0,
    };
    let n = list.len() as int;
    if grid(s, k) is Ok {
        assert(grid(s, k - 1) is Ok);
        rows_keep_their_order(s.nsp[k - 1], list, n, b);
        assert(k * n == (k - 1) * n + n) by (nonlinear_arith);
        if k > 1 {
            if a < k - 1 {
                grid_runs_every_pair(s, k - 1, a, b);
                assert(a * n + b < (k - 1) * n && a * n >= 0) by (nonlinear_arith)
                    requires
                        0 <= a <= k - 2,
                        0 <= b < n,
                ;
            } else {
                grid_runs_every_pair(s, k - 1, 0, b);
            }
        } else {
            assert(0 * n == 0);
            reveal_with_fuel(grid, 2);
        }
    }
}

/// As many providers may be unavailable as leave a quorum: one more would leave too few, where
/// a quorum with itself and any threshold of providers have one in common.
pub proof fn unavailable_leaves_a_quorum(nsp: nat, tsp: nat)
    requires
        1 <= tsp <= nsp,
    ensures
        2 * (nsp - max_unavailable(nsp, tsp)) >= nsp + tsp,
        2 * (nsp - max_unavailable(nsp, tsp) - 1) < nsp + tsp,
{
}

/// Settings are refused for one of these reasons, of which the first that holds is named.
pub proof fn settings_are_refused_in_order(
    s: Settings,
    lan: Option<LinkFault>,
    wan: Option<LinkFault>,
)
    ensures
        s.nsp.contains(0) ==> refusal(s, lan, wan) == Some("all --nsp values must be positive"@),
        !s.nsp.contains(0) && (s.sample_size == 0 || s.proc_samples == 0) ==> refusal(s, lan, wan)
            == Some("--sample-size and --proc-samples must be positive"@),
        !s.nsp.contains(0) && s.sample_size > 0 && s.proc_samples > 0 && s.net != "lan"@ && s.net
            != "wan"@ && s.net != "all"@ ==> refusal(s, lan, wan) == Some(
            "--net must be lan, wan, or all"@,
        ),
        refusal(s, lan, wan) is None ==> {
            &&& !s.nsp.contains(0)
            &&& s.sample_size > 0
            &&& s.proc_samples > 0
            &&& s.net == "lan"@ || s.net == "wan"@ || s.net == "all"@
            &&& lan is None
            &&& wan is None
            &&& grid(s, s.nsp.len() as int) is Ok
            &&& exists|i: int| 0 <= i < s.schemes.len() && works(#[trigger] s.schemes[i], s.kinds)
        },
{
    if s.nsp.contains(0) {
        let i = s.nsp.index_of(0);
        assert(s.nsp[i] == 0);
    }
}

/// Settings are accepted exactly where every number is positive, the words are known, the link
/// values are in order, the grid is, the number of absent providers leaves every quorum where
/// the quorum scheme is among the schemes, and some scheme has something to run.
pub proof fn settings_are_accepted_exactly(
    s: Settings,
    lan: Option<LinkFault>,
    wan: Option<LinkFault>,
)
    ensures
        refusal(s, lan, wan) is None <==> {
            &&& !s.nsp.contains(0)
            &&& s.sample_size > 0
            &&& s.proc_samples > 0
            &&& s.net == "lan"@ || s.net == "wan"@ || s.net == "all"@
            &&& lan is None
            &&& wan is None
            &&& s.pwdupd == "1"@ || s.pwdupd == "2"@ || s.pwdupd == "v1"@ || s.pwdupd == "v2"@
                || s.pwdupd == "both"@ || s.pwdupd == "all"@
            &&& trim(s.ops) == "all"@ || forall|i: int|
                0 <= i < split(s.ops, ',').len() ==> {
                    let op = trim(#[trigger] split(s.ops, ',')[i]);
                    op == "reg"@ || op == "secupd"@ || op == "pwdupd"@
                }
            &&& grid(s, s.nsp.len() as int) matches Ok(v) && (s.schemes.contains(
                Scheme::UpSpaQuorum,
            ) ==> (s.offline matches Offline::Count(n) ==> forall|i: int|
                0 <= i < v.len() ==> n <= max_unavailable((#[trigger] v[i]).0, v[i].1)))
            &&& exists|i: int| 0 <= i < s.schemes.len() && works(#[trigger] s.schemes[i], s.kinds)
        },
{
    if s.nsp.contains(0) {
        let i = s.nsp.index_of(0);
        assert(s.nsp[i] == 0);
    }
    let p = split(s.ops, ',');
    let a = forall|i: int|
        0 <= i < p.len() ==> {
            let op = trim(#[trigger] p[i]);
            op == "reg"@ || op == "secupd"@ || op == "pwdupd"@
        };
    let b = forall|i: int| 0 <= i < p.len() ==> crate::unified_run::known_op(trim(#[trigger] p[i]));
    if a {
        assert(b);
    }
    if b {
        assert forall|i: int| 0 <= i < p.len() implies {
            let op = trim(#[trigger] p[i]);
            op == "reg"@ || op == "secupd"@ || op == "pwdupd"@
        } by {
            assert(crate::unified_run::known_op(trim(p[i])));
        }
        assert(a);
    }
    if let Ok(v) = grid(s, s.nsp.len() as int) {
        if let Offline::Count(n) = s.offline {
            lemma_offline_accepted(v, n as nat, 0);
        }
    }
}

proof fn lemma_offline_accepted(v: Seq<(nat, nat)>, n: nat, k: int)
    requires
        0 <= k <= v.len(),
    ensures
        crate::unified_run::offline_error(v, n, k) is None <==> forall|i: int|
            k <= i < v.len() ==> n <= max_unavailable((#[trigger] v[i]).0, v[i].1),
    decreases v.len() - k,
{
    if k < v.len() {
        lemma_offline_accepted(v, n, k + 1);
        assert(v[k] == v[k]);
    }
}

/// Without arguments all schemes run all kinds on these numbers.
pub proof fn defaults_are_documented()
    ensures
        ({
            let d = default_settings();
            &&& d.schemes == seq![
                Scheme::UpSpa,
                Scheme::PasTaU,
                Scheme::AugSso,
                Scheme::UpSpaQuorum,
            ]
            &&& d.kinds == Kinds::all()
            &&& d.ops == "all"@
            &&& d.nsp == seq![20nat, 40nat, 60nat]
            &&& d.tsp is None
            &&& d.tsp_pct == Some(seq![60nat])
            &&& d.sample_size == 200
            &&& d.warmup_iters == 50
            &&& d.proc_warmup == 200
            &&& d.proc_samples == 1000
            &&& d.net == "all"@
            &&& d.lan == (LinkState { rtt_ms: "0.5"@, jitter_ms: "0.05"@, bw_mbps: "1000"@ })
            &&& d.wan == (LinkState { rtt_ms: "60"@, jitter_ms: "5"@, bw_mbps: "50"@ })
            &&& d.overhead_bytes == 64
            &&& d.offline == Offline::Max
            &&& d.pwdupd == "v2"@
            &&& !d.rng_in_timed
            &&& d.out == "results/unified_bench.dat"@
        }),
{
}

/// Arguments are read one after the other: a value belongs to the argument before it, a later
/// one counts over an earlier, and help ends the reading.
pub proof fn arguments_are_read_in_turn(c: Settings, args: Seq<Seq<char>>, i: int, f: Flag)
    requires
        0 <= i < args.len(),
    ensures
        flag_named(args[i]) is None ==> settings_from(c, args, i) == Err::<Settings, Seq<char>>(
            "unknown argument '"@ + args[i] + "'; use --help"@,
        ),
        flag_named(args[i]) == Some(Flag::Help) ==> settings_from(c, args, i) == Ok::<
            Settings,
            Seq<char>,
        >(Settings { help: true, ..c }),
        flag_named(args[i]) == Some(f) && takes_value(f) && i + 1 == args.len() ==> settings_from(
            c,
            args,
            i,
        ) == Err::<Settings, Seq<char>>("missing value for "@ + args[i]),
        flag_named(args[i]) == Some(f) && takes_value(f) && i + 1 < args.len() ==> (given(
            c,
            f,
            args[i],
            args[i + 1],
        ) matches Ok(d) ==> settings_from(c, args, i) == settings_from(d, args, i + 2)),
        flag_named(args[i]) == Some(Flag::DryRun) ==> settings_from(c, args, i) == settings_from(
            Settings { dry_run: true, ..c },
            args,
            i + 1,
        ),
        flag_named(args[i]) == Some(Flag::RngInTimed) ==> settings_from(c, args, i)
            == settings_from(Settings { rng_in_timed: true, ..c }, args, i + 1),
        takes_value(f) <==> f != Flag::Help && f != Flag::RngInTimed && f != Flag::DryRun && f
            != Flag::Ignored,
{
}

/// The arguments hold a flag with a value behind it.
pub open spec fn says(args: Seq<Seq<char>>, flag: Seq<char>, value: Seq<char>) -> bool {
    exists|i: int| 0 <= i < args.len() - 1 && #[trigger] args[i] == flag && args[i + 1] == value
}

/// Each scheme is told the settings: the networks, the numbers of providers, how often to
/// measure, both links as they are, the framing, the file, and the thresholds or percentages.
pub proof fn schemes_are_told_the_settings(
    scheme: Scheme,
    s: Settings,
    lan: LinkState,
    wan: LinkState,
    out: Seq<char>,
)
    requires
        s.tsp is Some || s.tsp_pct is Some,
    ensures
        ({
            let a = args_for(scheme, s, lan, wan, out);
            &&& says(
                a,
                "--kind"@,
                replaced(selection(s.kinds, supported_kinds(scheme)), '_', '-'),
            )
            &&& says(a, "--net"@, s.net)
            &&& says(a, "--nsp"@, join(numerals(s.nsp), ","@))
            &&& says(a, "--sample-size"@, numeral(s.sample_size))
            &&& says(a, "--warmup-iters"@, numeral(s.warmup_iters))
            &&& says(a, "--lan-rtt-ms"@, lan.rtt_ms)
            &&& says(a, "--lan-jitter-ms"@, lan.jitter_ms)
            &&& says(a, "--lan-bw-mbps"@, lan.bw_mbps)
            &&& says(a, "--wan-rtt-ms"@, wan.rtt_ms)
            &&& says(a, "--wan-jitter-ms"@, wan.jitter_ms)
            &&& says(a, "--wan-bw-mbps"@, wan.bw_mbps)
            &&& says(a, "--overhead-bytes"@, numeral(s.overhead_bytes))
            &&& says(a, "--out"@, out)
            &&& s.tsp matches Some(t) ==> says(a, "--tsp"@, join(numerals(t), ","@))
            &&& s.tsp is None ==> says(
                a,
                "--tsp-pct"@,
                join(numerals(s.tsp_pct->Some_0), ","@),
            )
            &&& scheme == Scheme::UpSpaQuorum ==> says(a, "--ops"@, s.ops) && says(
                a,
                "--offline"@,
                offline_text(s.offline),
            )
            &&& scheme != Scheme::UpSpaQuorum ==> says(
                a,
                "--proc-warmup"@,
                numeral(s.proc_warmup),
            ) && says(a, "--proc-samples"@, numeral(s.proc_samples)) && (s.rng_in_timed
                ==> a.last() == "--rng-in-timed"@)
            &&& scheme == Scheme::UpSpa ==> says(a, "--scheme"@, "upspa"@) && says(
                a,
                "--pwdupd"@,
                s.pwdupd,
            )
            &&& scheme == Scheme::AugSso ==> a[0] == "bench_augsso"@
            &&& scheme == Scheme::PasTaU ==> a[0] == "bench_pastau"@
        }),
{
    let a = args_for(scheme, s, lan, wan, out);
    let o: int = if scheme == Scheme::AugSso || scheme == Scheme::PasTaU {
        1
    } else {
        0
    };
    assert(a[o] == "--kind"@);
    assert(a[o + 2] == "--net"@);
    assert(a[o + 4] == "--nsp"@);
    assert(a[o + 6] == "--sample-size"@);
    assert(a[o + 8] == "--warmup-iters"@);
    assert(a[o + 10] == "--lan-rtt-ms"@);
    assert(a[o + 12] == "--lan-jitter-ms"@);
    assert(a[o + 14] == "--lan-bw-mbps"@);
    assert(a[o + 16] == "--wan-rtt-ms"@);
    assert(a[o + 18] == "--wan-jitter-ms"@);
    assert(a[o + 20] == "--wan-bw-mbps"@);
    assert(a[o + 22] == "--overhead-bytes"@);
    assert(a[o + 24] == "--out"@);
    if s.tsp is Some {
        assert(a[o + 26] == "--tsp"@);
    } else {
        assert(a[o + 26] == "--tsp-pct"@);
    }
    if scheme == Scheme::UpSpaQuorum {
        assert(a[28] == "--ops"@);
        assert(a[30] == "--offline"@);
    } else if scheme == Scheme::UpSpa {
        assert(a[28] == "--scheme"@);
        assert(a[30] == "--pwdupd"@);
        assert(a[32] == "--proc-warmup"@);
        assert(a[34] == "--proc-samples"@);
    } else {
        assert(a[29] == "--proc-warmup"@);
        assert(a[31] == "--proc-samples"@);
    }
}

/// The kinds that a scheme is told are exactly those selected that it supports, by name and in
/// its order, and the word for all where it supports no other.
pub proof fn selected_kinds_are_named(kinds: Kinds, supported: Seq<Kind>, k: int)
    requires
        0 < k <= supported.len(),
    ensures
        kinds.has(supported[k - 1]) ==> selected_names(kinds, supported, k) == selected_names(
            kinds,
            supported,
            k - 1,
        ).push(kind_name(supported[k - 1])),
        !kinds.has(supported[k - 1]) ==> selected_names(kinds, supported, k) == selected_names(
            kinds,
            supported,
            k - 1,
        ),
        selected_names(kinds, supported, 0) == Seq::<Seq<char>>::empty(),
        selection(kinds, supported) == if forall|i: int|
            0 <= i < supported.len() ==> kinds.has(#[trigger] supported[i]) {
            "all"@
        } else {
            join(selected_names(kinds, supported, supported.len() as int), ","@)
        },
{
}

/// The printed plan names the schemes, the kinds, the numbers of providers, the thresholds or
/// percentages, the samples, the processing samples, and the network, in this order.
pub proof fn plans_name_the_settings(s: Settings)
    ensures
        crate::unified_plan::plan(s).len() == 7,
        crate::unified_plan::plan(s)[0] == "schemes="@ + join(
            s.schemes.map(|i: int, x: Scheme| scheme_name(x)),
            ","@,
        ),
        crate::unified_plan::plan(s)[1] == "kinds="@ + join(
            selected_names(
                s.kinds,
                seq![
                    Kind::Full,
                    Kind::FullNet,
                    Kind::FullNoNet,
                    Kind::Net,
                    Kind::Prim,
                    Kind::Proto,
                    Kind::QuorumOverhead,
                    Kind::Sp,
                ],
                8,
            ),
            ","@,
        ),
        crate::unified_plan::plan(s)[2] == "nsp="@ + join(numerals(s.nsp), ","@),
        s.tsp matches Some(v) ==> crate::unified_plan::plan(s)[3] == "tsp="@ + join(
            numerals(v),
            ","@,
        ),
        s.tsp is None && s.tsp_pct is Some ==> crate::unified_plan::plan(s)[3] == "tsp_pct="@
            + join(numerals(s.tsp_pct->Some_0), ","@),
        crate::unified_plan::plan(s)[4] == "samples="@ + numeral(s.sample_size) + " warmup="@
            + numeral(s.warmup_iters),
        crate::unified_plan::plan(s)[5] == "proc_samples="@ + numeral(s.proc_samples)
            + " proc_warmup="@ + numeral(s.proc_warmup),
        crate::unified_plan::plan(s)[6] == "net="@ + s.net + " offline="@
            + crate::unified::offline_text(s.offline) + " out="@ + s.out,
{
    assert(s.schemes.map(|i: int, x: Scheme| scheme_name(x))
        =~= crate::unified_plan::scheme_names(s.schemes));
}

} // verus!
