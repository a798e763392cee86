//! What reports are for: which times the statistics are, which times count, and what stands in
//! each column of a row.
use vstd::prelude::*;

use crate::quorum::quorum;
use crate::sampling::counted;
use crate::stats::{
    ascends, baseline_row, in_order, lemma_in_order, p95_place, p95_place_inclusive, quorum_row,
    stats_of, Stats,
};
use crate::text::{join, numeral, words};
use crate::text_law::{joined_words_read_back, numerals_are_solid, solid};

verus! {

/// The least and the greatest of the times are times, and bound all; the median stands behind
/// half of the times in order, and the 95th percentile behind the stated share of them.
pub proof fn statistics_stand_at_their_ranks(st: Stats, xs: Seq<int>, p95: int)
    requires
        xs.len() > 0,
        0 <= p95 < xs.len(),
        stats_of(st, in_order(xs), p95),
    ensures
        st.n == xs.len(),
        xs.contains(st.min_ns as int),
        xs.contains(st.max_ns as int),
        forall|i: int| 0 <= i < xs.len() ==> st.min_ns <= #[trigger] xs[i] <= st.max_ns,
        in_order(xs).to_multiset() == xs.to_multiset(),
        ascends(in_order(xs)),
        exists|p: int| 2 * p <= xs.len() < 2 * p + 2 && st.p50_ns == #[trigger] in_order(xs)[p],
        st.p95_ns == in_order(xs)[p95],
{
    lemma_in_order(xs);
    let s = in_order(xs);
    let n = s.len() as int;
    assert forall|i: int| 0 <= i < xs.len() implies st.min_ns <= #[trigger] xs[i] <= st.max_ns by {
        assert(xs.contains(xs[i]));
        let k = choose|k: int| 0 <= k < n && s[k] == xs[i];
        assert(s[0] <= s[k] <= s[n - 1]);
    }
    assert(s.contains(s[0]));
    assert(s.contains(s[n - 1]));
    assert(s[n / 2] == st.p50_ns);
}

/// The place of the 95th percentile is the last one that is not behind 95 hundredths of the
/// number of times, or of the last place.
pub proof fn percentile_places_are_exact(n: int)
    requires
        n >= 1,
    ensures
        100 * p95_place(n) <= 95 * n < 100 * (p95_place(n) + 1),
        100 * p95_place_inclusive(n) <= 95 * (n - 1) < 100 * (p95_place_inclusive(n) + 1),
        0 <= p95_place_inclusive(n) <= p95_place(n) < n,
{
}

/// The times that count are those after the warmup, in order, and no more than asked for.
pub proof fn warmup_does_not_count(all: Seq<u128>, warmup: nat, samples: nat, i: int)
    ensures
        counted(all, warmup, samples).len() <= samples,
        all.len() <= warmup ==> counted(all, warmup, samples).len() == 0,
        warmup <= all.len() <= warmup + samples ==> counted(all, warmup, samples).len()
            == all.len() - warmup,
        0 <= i < counted(all, warmup, samples).len() ==> counted(all, warmup, samples)[i]
            == all[warmup + i],
{
}

/// The fields of a row of a baseline scheme.
pub open spec fn baseline_fields(
    names: (Seq<char>, Seq<char>, Seq<char>),
    rng_in_timed: bool,
    nsp: nat,
    tsp: nat,
    warmup: nat,
    st: Stats,
    mean: Seq<char>,
    deviation: Seq<char>,
) -> Seq<Seq<char>> {
    seq![
        names.0,
        names.1,
        names.2,
        if rng_in_timed {
            "1"@
        } else {
            "0"@
        },
        numeral(nsp),
        numeral(tsp),
        numeral(st.n as nat),
        numeral(warmup),
        numeral(st.min_ns as nat),
        numeral(st.p50_ns as nat),
        numeral(st.p95_ns as nat),
        numeral(st.max_ns as nat),
        mean,
        deviation,
    ]
}

/// The words of a row of a baseline scheme are: scheme, kind, operation, whether random draws
/// were timed, the number of servers, the threshold, the numbers of samples and of warmup runs,
/// the least time, the median, the 95th percentile, the greatest, the mean and the deviation.
pub proof fn baseline_rows_read_back(
    names: (Seq<char>, Seq<char>, Seq<char>),
    rng_in_timed: bool,
    nsp: nat,
    tsp: nat,
    warmup: nat,
    st: Stats,
    mean: Seq<char>,
    deviation: Seq<char>,
)
    requires
        solid(names.0),
        solid(names.1),
        solid(names.2),
        solid(mean),
        solid(deviation),
    ensures
        words(baseline_row(names, rng_in_timed, nsp, tsp, warmup, st, mean, deviation))
            == baseline_fields(names, rng_in_timed, nsp, tsp, warmup, st, mean, deviation),
{
    let f = baseline_fields(names, rng_in_timed, nsp, tsp, warmup, st, mean, deviation);
    lemma_numbers_solid(nsp, tsp, warmup, st);
    lemma_marks();
    assert forall|i: int| 0 <= i < f.len() implies solid(#[trigger] f[i]) by {
    }
    lemma_join14(f);
    assert(join(f, " "@) =~= baseline_row(
        names,
        rng_in_timed,
        nsp,
        tsp,
        warmup,
        st,
        mean,
        deviation,
    ));
    joined_words_read_back(f);
}

proof fn lemma_marks()
    ensures
        " "@ == seq![' '],
        solid("0"@),
        solid("1"@),
        solid("upspa_abd"@),
{
    reveal_strlit("0");
    reveal_strlit("1");
    reveal_strlit(" ");
    reveal_strlit("upspa_abd");
    assert(" "@ =~= seq![' ']);
}

proof fn lemma_numbers_solid(nsp: nat, tsp: nat, warmup: nat, st: Stats)
    ensures
        solid(numeral(nsp)),
        solid(numeral(tsp)),
        solid(numeral(warmup)),
        solid(numeral(st.n as nat)),
        solid(numeral(st.min_ns as nat)),
        solid(numeral(st.p50_ns as nat)),
        solid(numeral(st.p95_ns as nat)),
        solid(numeral(st.max_ns as nat)),
{
    numerals_are_solid(nsp);
    numerals_are_solid(tsp);
    numerals_are_solid(warmup);
    numerals_are_solid(st.n as nat);
    numerals_are_solid(st.min_ns as nat);
    numerals_are_solid(st.p50_ns as nat);
    numerals_are_solid(st.p95_ns as nat);
    numerals_are_solid(st.max_ns as nat);
}

/// What a sequence of texts joins to, one text at a time.
proof fn lemma_join_step(f: Seq<Seq<char>>, k: int)
    requires
        1 < k <= f.len(),
    ensures
        join(f.take(k), " "@) == join(f.take(k - 1), " "@) + " "@ + f[k - 1],
{
    assert(f.take(k).drop_last() =~= f.take(k - 1));
}

proof fn lemma_join14(f: Seq<Seq<char>>)
    requires
        f.len() == 14,
    ensures
        join(f, " "@) == f[0] + " "@ + f[1] + " "@ + f[2] + " "@ + f[3] + " "@ + f[4] + " "@ + f[5]
            + " "@ + f[6] + " "@ + f[7] + " "@ + f[8] + " "@ + f[9] + " "@ + f[10] + " "@ + f[11]
            + " "@ + f[12] + " "@ + f[13],
{
    assert(f.take(1) =~= seq![f[0]]);
    lemma_join_step(f, 2);
    lemma_join_step(f, 3);
    lemma_join_step(f, 4);
    lemma_join_step(f, 5);
    lemma_join_step(f, 6);
    lemma_join_step(f, 7);
    lemma_join_step(f, 8);
    lemma_join_step(f, 9);
    lemma_join_step(f, 10);
    lemma_join_step(f, 11);
    lemma_join_step(f, 12);
    lemma_join_step(f, 13);
    lemma_join_step(f, 14);
    assert(f.take(14) =~= f);
}

proof fn lemma_join16(f: Seq<Seq<char>>)
    requires
        f.len() == 16,
    ensures
        join(f, " "@) == f[0] + " "@ + f[1] + " "@ + f[2] + " "@ + f[3] + " "@ + f[4] + " "@ + f[5]
            + " "@ + f[6] + " "@ + f[7] + " "@ + f[8] + " "@ + f[9] + " "@ + f[10] + " "@ + f[11]
            + " "@ + f[12] + " "@ + f[13] + " "@ + f[14] + " "@ + f[15],
{
    let g = f.take(14);
    lemma_join14(g);
    lemma_join_step(f, 15);
    lemma_join_step(f, 16);
    assert(f.take(16) =~= f);
}

/// The fields of a row of the quorum scheme.
pub open spec fn quorum_fields(
    names: (Seq<char>, Seq<char>, Seq<char>),
    nsp: nat,
    tsp: nat,
    unavailable: nat,
    warmup: nat,
    st: Stats,
    mean: Seq<char>,
    deviation: Seq<char>,
) -> Seq<Seq<char>> {
    seq![
        "upspa_abd"@,
        names.0,
        names.1,
        names.2,
        numeral(nsp),
        numeral(tsp),
        numeral((nsp + tsp + 1) / 2),
        numeral(unavailable),
        numeral(st.n as nat),
        numeral(warmup),
        numeral(st.min_ns as nat),
        numeral(st.p50_ns as nat),
        numeral(st.p95_ns as nat),
        numeral(st.max_ns as nat),
        mean,
        deviation,
    ]
}

/// The words of a row of the quorum scheme are: its name, kind, operation, network, the number
/// of providers, the threshold, the quorum, how many were unavailable, the numbers of samples
/// and of warmup runs, the least time, the median, the 95th percentile, the greatest, the mean
/// and the deviation.
pub proof fn quorum_rows_read_back(
    names: (Seq<char>, Seq<char>, Seq<char>),
    nsp: nat,
    tsp: nat,
    unavailable: nat,
    warmup: nat,
    st: Stats,
    mean: Seq<char>,
    deviation: Seq<char>,
)
    requires
        solid(names.0),
        solid(names.1),
        solid(names.2),
        solid(mean),
        solid(deviation),
    ensures
        words(
            quorum_row(
                names,
                nsp,
                tsp,
                quorum(nsp, tsp),
                unavailable,
                warmup,
                st,
                mean,
                deviation,
            ),
        ) == quorum_fields(names, nsp, tsp, unavailable, warmup, st, mean, deviation),
{
    let f = quorum_fields(names, nsp, tsp, unavailable, warmup, st, mean, deviation);
    lemma_numbers_solid(nsp, tsp, warmup, st);
    numerals_are_solid((nsp + tsp + 1) / 2);
    numerals_are_solid(unavailable);
    lemma_marks();
    assert forall|i: int| 0 <= i < f.len() implies solid(#[trigger] f[i]) by {
    }
    lemma_join16(f);
    assert(join(f, " "@) =~= quorum_row(
        names,
        nsp,
        tsp,
        quorum(nsp, tsp),
        unavailable,
        warmup,
        st,
        mean,
        deviation,
    ));
    joined_words_read_back(f);
}

/// A quorum is the least number of providers of which any two sets share the threshold.
pub proof fn quorum_is_least(nsp: nat, tsp: nat)
    requires
        1 <= tsp <= nsp,
    ensures
        2 * quorum(nsp, tsp) - nsp >= tsp,
        2 * (quorum(nsp, tsp) - 1) - nsp < tsp,
        tsp <= quorum(nsp, tsp) <= nsp,
{
}

} // verus!
