//! Order statistics of measured times.
use vstd::prelude::*;
use vstd::relations::{sorted_by, total_ordering};
use vstd::seq_lib::*;

use crate::text::{append, copy_text, number_text, numeral};

verus! {

/// The order of numbers.
pub open spec fn at_most() -> spec_fn(int, int) -> bool {
    |a: int, b: int| a <= b
}

/// The numbers in ascending order.
pub open spec fn in_order(s: Seq<int>) -> Seq<int> {
    s.sort_by(at_most())
}

/// Each number is at most the ones after it.
pub open spec fn ascends(s: Seq<int>) -> bool {
    forall|i: int, j: int| 0 <= i < j < s.len() ==> s[i] <= s[j]
}

/// The values of measured times.
pub open spec fn ints(s: Seq<u128>) -> Seq<int> {
    Seq::new(s.len(), |i: int| s[i] as int)
}

/// Numbers that ascend, and are those of `s`, are `s` in order.
pub proof fn lemma_in_order_is(s: Seq<int>, t: Seq<int>)
    requires
        s.to_multiset() == t.to_multiset(),
        ascends(t),
    ensures
        in_order(s) == t,
{
    let leq = at_most();
    assert(total_ordering(leq));
    s.lemma_sort_by_ensures(leq);
    assert(sorted_by(t, leq));
    lemma_sorted_unique(in_order(s), t, leq);
}

/// Putting numbers in order keeps how many there are and which they are.
pub proof fn lemma_in_order(s: Seq<int>)
    ensures
        in_order(s).len() == s.len(),
        in_order(s).to_multiset() == s.to_multiset(),
        ascends(in_order(s)),
        forall|x: int| in_order(s).contains(x) <==> s.contains(x),
{
    broadcast use group_to_multiset_ensures;

    let leq = at_most();
    assert(total_ordering(leq));
    s.lemma_sort_by_ensures(leq);
    assert(s.to_multiset().len() == s.len());
    assert(in_order(s).to_multiset().len() == in_order(s).len());
    assert forall|x: int| in_order(s).contains(x) <==> s.contains(x) by {
        assert(s.contains(x) <==> s.to_multiset().count(x) > 0);
        assert(in_order(s).contains(x) <==> in_order(s).to_multiset().count(x) > 0);
    }
    assert(sorted_by(in_order(s), leq));
    assert forall|i: int, j: int| 0 <= i < j < in_order(s).len() implies in_order(s)[i] <= in_order(
        s,
    )[j] by {
        assert(leq(in_order(s)[i], in_order(s)[j]));
    }
}

fn merge(a: &Vec<u128>, b: &Vec<u128>) -> (r: Vec<u128>)
    requires
        ascends(ints(a@)),
        ascends(ints(b@)),
    ensures
        ascends(ints(r@)),
        ints(r@).to_multiset() == ints(a@).to_multiset().add(ints(b@).to_multiset()),
{
    broadcast use group_to_multiset_ensures;

    let ghost s = ints(a@);
    let ghost t = ints(b@);
    let mut r: Vec<u128> = Vec::new();
    let mut i: usize = 0;
    let mut j: usize = 0;
    proof {
        assert(ints(r@) =~= Seq::<int>::empty());
        assert(s.take(0) =~= Seq::<int>::empty());
        assert(t.take(0) =~= Seq::<int>::empty());
        assert(ints(r@).to_multiset() =~= s.take(0).to_multiset().add(t.take(0).to_multiset()));
    }
    while i < a.len() || j < b.len()
        invariant
            s == ints(a@),
            t == ints(b@),
            ascends(s),
            ascends(t),
            i <= a@.len(),
            j <= b@.len(),
            ascends(ints(r@)),
            ints(r@).to_multiset() == s.take(i as int).to_multiset().add(
                t.take(j as int).to_multiset(),
            ),
            forall|k: int| #![trigger ints(r@)[k]] 0 <= k < r@.len() ==> {
                &&& i < s.len() ==> ints(r@)[k] <= s[i as int]
                &&& j < t.len() ==> ints(r@)[k] <= t[j as int]
            },
        decreases a@.len() - i + b@.len() - j,
    {
        broadcast use group_to_multiset_ensures;

        let ghost before = ints(r@);
        if j >= b.len() || (i < a.len() && a[i] <= b[j]) {
            r.push(a[i]);
            proof {
                assert(ints(r@) =~= before.push(s[i as int]));
                assert(s.take(i + 1) =~= s.take(i as int).push(s[i as int]));
                assert(ints(r@).to_multiset() =~= s.take(i + 1).to_multiset().add(
                    t.take(j as int).to_multiset(),
                ));
                assert forall|k: int| #![trigger ints(r@)[k]] 0 <= k < r@.len() implies {
                    &&& i + 1 < s.len() ==> ints(r@)[k] <= s[i + 1]
                    &&& j < t.len() ==> ints(r@)[k] <= t[j as int]
                } by {
                    if k < before.len() {
                        assert(before[k] <= s[i as int]);
                    }
                }
            }
            i = i + 1;
        } else {
            r.push(b[j]);
            proof {
                assert(ints(r@) =~= before.push(t[j as int]));
                assert(t.take(j + 1) =~= t.take(j as int).push(t[j as int]));
                assert(ints(r@).to_multiset() =~= s.take(i as int).to_multiset().add(
                    t.take(j + 1).to_multiset(),
                ));
                assert forall|k: int| #![trigger ints(r@)[k]] 0 <= k < r@.len() implies {
                    &&& i < s.len() ==> ints(r@)[k] <= s[i as int]
                    &&& j + 1 < t.len() ==> ints(r@)[k] <= t[j + 1]
                } by {
                    if k < before.len() {
                        assert(before[k] <= t[j as int]);
                    }
                }
            }
            j = j + 1;
        }
    }
    assert(s.take(i as int) =~= s);
    assert(t.take(j as int) =~= t);
    r
}

fn sort_part(v: &Vec<u128>, from: usize, to: usize) -> (r: Vec<u128>)
    requires
        from <= to <= v@.len(),
    ensures
        ascends(ints(r@)),
        ints(r@).to_multiset() == ints(v@).subrange(from as int, to as int).to_multiset(),
    decreases to - from,
{
    let ghost s = ints(v@);
    if to - from == 0 {
        let r: Vec<u128> = Vec::new();
        assert(ints(r@) =~= s.subrange(from as int, to as int));
        r
    } else if to - from == 1 {
        let mut r: Vec<u128> = Vec::new();
        r.push(v[from]);
        assert(ints(r@) =~= s.subrange(from as int, to as int));
        r
    } else {
        let mid: usize = from + (to - from) / 2;
        let a = sort_part(v, from, mid);
        let b = sort_part(v, mid, to);
        proof {
            let x = s.subrange(from as int, mid as int);
            let y = s.subrange(mid as int, to as int);
            assert(s.subrange(from as int, to as int) =~= x + y);
            lemma_multiset_commutative(x, y);
        }
        merge(&a, &b)
    }
}

/// Puts times in ascending order.
pub fn sort_times(v: &Vec<u128>) -> (r: Vec<u128>)
    ensures
        ints(r@) == in_order(ints(v@)),
        r@.len() == v@.len(),
{
    let r = sort_part(v, 0, v.len());
    proof {
        assert(ints(v@).subrange(0, v@.len() as int) =~= ints(v@));
        lemma_in_order_is(ints(v@), ints(r@));
        lemma_in_order(ints(v@));
        assert(ints(r@).len() == r@.len());
        assert(ints(v@).len() == v@.len());
    }
    r
}

/// The smallest and the largest of some times, and two in between.
#[derive(Clone, Copy, Debug, PartialEq, Eq, Structural)]
pub struct Stats {
    pub n: usize,
    pub min_ns: u128,
    pub p50_ns: u128,
    pub p95_ns: u128,
    pub max_ns: u128,
}

/// The statistics are those of times in order, with the given place for the
/// 95th percentile.
pub open spec fn stats_of(st: Stats, sorted: Seq<int>, p95: int) -> bool {
    let n = sorted.len() as int;
    &&& st.n == n
    &&& st.min_ns == sorted[0]
    &&& st.p50_ns == sorted[n / 2]
    &&& st.p95_ns == sorted[p95]
    &&& st.max_ns == sorted[n - 1]
}

fn pick(v: &Vec<u128>, p95: usize) -> (r: Stats)
    requires
        p95 < v@.len(),
    ensures
        stats_of(r, ints(v@), p95 as int),
{
    let n: usize = v.len();
    assert(ints(v@).len() == n);
    Stats { n, min_ns: v[0], p50_ns: v[n / 2], p95_ns: v[p95], max_ns: v[n - 1] }
}

/// The place of the 95th percentile at 95 hundredths of a number of times.
pub open spec fn p95_place(n: int) -> int {
    n * 95 / 100
}

/// The place of the 95th percentile at 95 hundredths of the last place.
pub open spec fn p95_place_inclusive(n: int) -> int {
    (n - 1) * 95 / 100
}

/// The statistics of times, and the times in order. The 95th percentile stands at
/// 95 hundredths of their number.
pub fn compute_stats(xs: &Vec<u128>) -> (r: (Stats, Vec<u128>))
    requires
        xs@.len() > 0,
    ensures
        ints(r.1@) == in_order(ints(xs@)),
        stats_of(r.0, in_order(ints(xs@)), p95_place(xs@.len() as int)),
        100 * p95_place(xs@.len() as int) <= 95 * xs@.len() < 100 * (p95_place(xs@.len() as int)
            + 1),
{
    let v = sort_times(xs);
    let p95: usize = (v.len() as u128 * 95 / 100) as usize;
    (pick(&v, p95), v)
}

/// The statistics of times, and the times in order. The 95th percentile stands at
/// 95 hundredths of the last place.
pub fn compute_stats_inclusive(xs: &Vec<u128>) -> (r: (Stats, Vec<u128>))
    requires
        xs@.len() > 0,
    ensures
        ints(r.1@) == in_order(ints(xs@)),
        stats_of(r.0, in_order(ints(xs@)), p95_place_inclusive(xs@.len() as int)),
        100 * p95_place_inclusive(xs@.len() as int) <= 95 * (xs@.len() - 1) < 100 * (
        p95_place_inclusive(xs@.len() as int) + 1),
{
    let v = sort_times(xs);
    let p95: usize = ((v.len() - 1) as u128 * 95 / 100) as usize;
    (pick(&v, p95), v)
}

/// The values of shorter times.
pub open spec fn short_ints(s: Seq<u64>) -> Seq<int> {
    Seq::new(s.len(), |i: int| s[i] as int)
}

/// Puts shorter times in ascending order.
pub fn sort_short(v: &Vec<u64>) -> (r: Vec<u64>)
    ensures
        short_ints(r@) == in_order(short_ints(v@)),
        r@.len() == v@.len(),
{
    let mut wide: Vec<u128> = Vec::with_capacity(v.len());
    let mut i: usize = 0;
    while i < v.len()
        invariant
            i <= v@.len(),
            wide@.len() == i,
            forall|k: int| 0 <= k < i ==> wide@[k] == v@[k],
        decreases v@.len() - i,
    {
        wide.push(v[i] as u128);
        i = i + 1;
    }
    let ghost s = short_ints(v@);
    assert(ints(wide@) =~= s);
    let sorted = sort_times(&wide);
    let mut r: Vec<u64> = Vec::with_capacity(v.len());
    let mut k: usize = 0;
    while k < sorted.len()
        invariant
            k <= sorted@.len(),
            s == short_ints(v@),
            ints(sorted@) == in_order(s),
            r@.len() == k,
            forall|m: int| 0 <= m < k ==> r@[m] == sorted@[m],
        decreases sorted@.len() - k,
    {
        proof {
            lemma_in_order(s);
            let x = ints(sorted@)[k as int];
            assert(in_order(s).contains(x));
            assert(s.contains(x));
        }
        r.push(sorted[k] as u64);
        k = k + 1;
    }
    assert(short_ints(r@) =~= in_order(s));
    r
}

/// The time in the middle of times in order.
pub fn median_ns(xs: &Vec<u64>) -> (r: u64)
    requires
        xs@.len() > 0,
    ensures
        r == in_order(short_ints(xs@))[xs@.len() as int / 2],
        exists|p: int|
            2 * p <= xs@.len() < 2 * p + 2 && r == #[trigger] in_order(short_ints(xs@))[p],
{
    let v = sort_short(xs);
    let r = v[v.len() / 2];
    assert(short_ints(v@)[v@.len() as int / 2] == r);
    assert(in_order(short_ints(xs@))[v@.len() as int / 2] == r);
    r
}

/// The statistics of times ascend, bound the times, and are times that were measured.
pub proof fn statistics_are_ordered(st: Stats, xs: Seq<int>, p95: int)
    requires
        xs.len() > 0,
        xs.len() / 2 <= p95 < xs.len(),
        stats_of(st, in_order(xs), p95),
    ensures
        st.min_ns <= st.p50_ns <= st.p95_ns <= st.max_ns,
        forall|i: int| 0 <= i < xs.len() ==> st.min_ns <= #[trigger] xs[i] <= st.max_ns,
        xs.contains(st.min_ns as int),
        xs.contains(st.p50_ns as int),
        xs.contains(st.p95_ns as int),
        xs.contains(st.max_ns as int),
{
    lemma_in_order(xs);
    let s = in_order(xs);
    let n = s.len() as int;
    assert forall|i: int| 0 <= i < xs.len() implies st.min_ns <= #[trigger] xs[i] <= st.max_ns by {
        assert(xs.contains(xs[i]));
        let k = choose|k: int| 0 <= k < n && s[k] == xs[i];
        assert(s[0] <= s[k] <= s[n - 1]);
    }
    assert(s.contains(s[0]));
    assert(s.contains(s[n / 2]));
    assert(s.contains(s[p95]));
    assert(s.contains(s[n - 1]));
}

/// The row that reports the statistics of a baseline scheme. The mean and the deviation
/// are given as they are written.
pub open spec fn baseline_row(
    names: (Seq<char>, Seq<char>, Seq<char>),
    rng_in_timed: bool,
    nsp: nat,
    tsp: nat,
    warmup: nat,
    st: Stats,
    mean: Seq<char>,
    deviation: Seq<char>,
) -> Seq<char> {
    names.0 + " "@ + names.1 + " "@ + names.2 + " "@ + (if rng_in_timed {
        "1"@
    } else {
        "0"@
    }) + " "@ + numeral(nsp) + " "@ + numeral(tsp) + " "@ + numeral(st.n as nat) + " "@ + numeral(
        warmup,
    ) + " "@ + times(st) + " "@ + mean + " "@ + deviation
}

/// The four times of some statistics.
pub open spec fn times(st: Stats) -> Seq<char> {
    numeral(st.min_ns as nat) + " "@ + numeral(st.p50_ns as nat) + " "@ + numeral(st.p95_ns as nat)
        + " "@ + numeral(st.max_ns as nat)
}

fn add_field(out: &mut String, s: &str)
    ensures
        final(out)@ == old(out)@ + " "@ + s@,
{
    append(out, " ");
    append(out, s);
}

fn add_number(out: &mut String, n: u128)
    ensures
        final(out)@ == old(out)@ + " "@ + numeral(n as nat),
{
    append(out, " ");
    append(out, number_text(n).as_str());
}

fn add_times(out: &mut String, st: &Stats)
    ensures
        final(out)@ == old(out)@ + " "@ + times(*st),
{
    let ghost before = out@;
    add_number(out, st.min_ns);
    add_number(out, st.p50_ns);
    add_number(out, st.p95_ns);
    add_number(out, st.max_ns);
    assert(out@ =~= before + " "@ + times(*st));
}

/// The row that reports the statistics of a baseline scheme.
pub fn baseline_row_text(
    scheme: &str,
    kind: &str,
    op: &str,
    rng_in_timed: bool,
    nsp: usize,
    tsp: usize,
    warmup: usize,
    st: &Stats,
    mean: &str,
    deviation: &str,
) -> (r: String)
    ensures
        r@ == baseline_row(
            (scheme@, kind@, op@),
            rng_in_timed,
            nsp as nat,
            tsp as nat,
            warmup as nat,
            *st,
            mean@,
            deviation@,
        ),
{
    let mut r = copy_text(scheme);
    add_field(&mut r, kind);
    add_field(&mut r, op);
    if rng_in_timed {
        add_field(&mut r, "1");
    } else {
        add_field(&mut r, "0");
    }
    add_number(&mut r, nsp as u128);
    add_number(&mut r, tsp as u128);
    add_number(&mut r, st.n as u128);
    add_number(&mut r, warmup as u128);
    add_times(&mut r, st);
    add_field(&mut r, mean);
    add_field(&mut r, deviation);
    r
}

/// The row that reports the statistics of the quorum scheme.
pub open spec fn quorum_row(
    names: (Seq<char>, Seq<char>, Seq<char>),
    nsp: nat,
    tsp: nat,
    qsp: nat,
    unavailable: nat,
    warmup: nat,
    st: Stats,
    mean: Seq<char>,
    deviation: Seq<char>,
) -> Seq<char> {
    "upspa_abd"@ + " "@ + names.0 + " "@ + names.1 + " "@ + names.2 + " "@ + numeral(nsp) + " "@
        + numeral(tsp) + " "@ + numeral(qsp) + " "@ + numeral(unavailable) + " "@ + numeral(
        st.n as nat,
    ) + " "@ + numeral(warmup) + " "@ + times(st) + " "@ + mean + " "@ + deviation
}

/// The row that reports the statistics of the quorum scheme.
pub fn quorum_row_text(
    kind: &str,
    op: &str,
    net_profile: &str,
    nsp: usize,
    tsp: usize,
    unavailable: usize,
    warmup: usize,
    st: &Stats,
    mean: &str,
    deviation: &str,
) -> (r: String)
    requires
        crate::quorum::valid_threshold(nsp as nat, tsp as nat),
        nsp + tsp < usize::MAX,
    ensures
        r@ == quorum_row(
            (kind@, op@, net_profile@),
            nsp as nat,
            tsp as nat,
            crate::quorum::quorum(nsp as nat, tsp as nat),
            unavailable as nat,
            warmup as nat,
            *st,
            mean@,
            deviation@,
        ),
{
    let mut r = copy_text("upspa_abd");
    add_field(&mut r, kind);
    add_field(&mut r, op);
    add_field(&mut r, net_profile);
    add_number(&mut r, nsp as u128);
    add_number(&mut r, tsp as u128);
    add_number(&mut r, crate::quorum::quorum_size(nsp, tsp) as u128);
    add_number(&mut r, unavailable as u128);
    add_number(&mut r, st.n as u128);
    add_number(&mut r, warmup as u128);
    add_times(&mut r, st);
    add_field(&mut r, mean);
    add_field(&mut r, deviation);
    r
}

} // verus!
