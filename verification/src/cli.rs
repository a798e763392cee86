//! Arguments, rows and sample files of the connection experiments.
use vstd::prelude::*;

use crate::stats::Stats;
use crate::text::{
    append, chars_of, copy_text, is_text, number_text, numeral, parse_number, parse_wide, parsed,
    parts, split, split_at_each, texts, trim, trimmed,
};

verus! {

/// The place of the first argument from place `i` on that has a name and a successor.
pub open spec fn arg_place(args: Seq<Seq<char>>, name: Seq<char>, i: int) -> Option<int>
    decreases args.len() - i,
{
    if i + 1 >= args.len() {
        None
    } else if args[i] == name {
        Some(i)
    } else {
        arg_place(args, name, i + 1)
    }
}

/// The value behind the first argument with a name.
pub open spec fn arg_value(args: Seq<Seq<char>>, name: Seq<char>) -> Option<Seq<char>> {
    match arg_place(args, name, 0) {
        Some(i) => Some(args[i + 1]),
        None => None,
    }
}

/// Finds the value behind the first argument with a name.
pub fn arg(args: &Vec<String>, name: &str) -> (r: Option<String>)
    ensures
        match r {
            Some(v) => arg_value(texts(args@), name@) == Some(v@),
            None => arg_value(texts(args@), name@) is None,
        },
{
    let ghost g = texts(args@);
    let mut i: usize = 0;
    while i < args.len() && i + 1 < args.len()
        invariant
            i <= args@.len(),
            g == texts(args@),
            arg_place(g, name@, i as int) == arg_place(g, name@, 0),
        decreases args@.len() - i,
    {
        assert(g[i as int] == args@[i as int]@);
        assert(g[i + 1] == args@[i + 1]@);
        if is_text(chars_of(args[i].as_str()).as_slice(), name) {
            return Some(copy_text(args[i + 1].as_str()));
        }
        i = i + 1;
    }
    None
}

/// Finds the number behind the first argument with a name; without one, or where it cannot
/// be read, the default.
pub fn arg_usize(args: &Vec<String>, name: &str, default: usize) -> (r: usize)
    ensures
        r == match arg_value(texts(args@), name@) {
            Some(v) => match parsed(v, usize::MAX as nat) {
                Some(n) => n,
                None => default as nat,
            },
            None => default as nat,
        },
{
    match arg(args, name) {
        Some(v) => match parse_number(chars_of(v.as_str()).as_slice(), usize::MAX as u64) {
            Some(n) => n as usize,
            None => default,
        },
        None => default,
    }
}

/// The row that reports an experiment. The network is left out where there is none.
pub open spec fn experiment_row(
    head: Seq<char>,
    metric: Seq<char>,
    network: Option<Seq<char>>,
    n: nat,
    t: nat,
    warmup: nat,
    st: Stats,
    mean: Seq<char>,
    deviation: Seq<char>,
) -> Seq<char> {
    let start = head + " "@ + metric;
    let named = match network {
        Some(w) => start + " "@ + w,
        None => start,
    };
    named + " "@ + numeral(n) + " "@ + numeral(t) + " "@ + numeral(st.n as nat) + " "@ + numeral(
        warmup,
    ) + " "@ + numeral(st.min_ns as nat) + " "@ + numeral(st.p50_ns as nat) + " "@ + numeral(
        st.p95_ns as nat,
    ) + " "@ + numeral(st.max_ns as nat) + " "@ + mean + " "@ + deviation
}

fn add_field(out: &mut String, s: &str)
    ensures
        final(out)@ == old(out)@ + " "@ + s@,
{
    append(out, " ");
    append(out, s);
}

fn add_number(out: &mut String, n: u128)
    ensures
        final(out)@ == old(out)@ + " "@ + numeral(n as nat),
{
    append(out, " ");
    append(out, number_text(n).as_str());
}

/// The network as a sequence of characters.
pub open spec fn opt_text(s: Option<&str>) -> Option<Seq<char>> {
    match s {
        Some(s) => Some(s@),
        None => None,
    }
}

/// The row that reports an experiment.
pub fn experiment_row_text(
    head: &str,
    metric: &str,
    network: Option<&str>,
    n: usize,
    t: usize,
    warmup: usize,
    st: &Stats,
    mean: &str,
    deviation: &str,
) -> (r: String)
    ensures
        r@ == experiment_row(
            head@,
            metric@,
            opt_text(network),
            n as nat,
            t as nat,
            warmup as nat,
            *st,
            mean@,
            deviation@,
        ),
{
    let mut r = copy_text(head);
    add_field(&mut r, metric);
    match network {
        Some(w) => add_field(&mut r, w),
        None => {},
    }
    add_number(&mut r, n as u128);
    add_number(&mut r, t as u128);
    add_number(&mut r, st.n as u128);
    add_number(&mut r, warmup as u128);
    add_number(&mut r, st.min_ns);
    add_number(&mut r, st.p50_ns);
    add_number(&mut r, st.p95_ns);
    add_number(&mut r, st.max_ns);
    add_field(&mut r, mean);
    add_field(&mut r, deviation);
    r
}

/// The lines of a text: what a last line break leaves over is no line.
pub open spec fn lines(s: Seq<char>) -> Seq<Seq<char>> {
    let p = split(s, '\n');
    if p.len() > 0 && p.last().len() == 0 {
        p.drop_last()
    } else {
        p
    }
}

/// The numbers in the first `k` lines, or the place of the first line without one.
pub open spec fn samples_in(v: Seq<Seq<char>>, k: int) -> Result<Seq<nat>, int>
    decreases k,
{
    if k <= 0 {
        Ok(Seq::empty())
    } else {
        match samples_in(v, k - 1) {
            Err(i) => Err(i),
            Ok(s) => match parsed(trim(v[k - 1]), u128::MAX as nat) {
                Some(n) => Ok(s.push(n)),
                None => Err(k - 1),
            },
        }
    }
}

/// What is wrong with a file of samples.
#[derive(Clone, Copy, Debug, PartialEq, Eq, Structural)]
pub enum SampleFault {
    /// The line at this place is not a number.
    Line(usize),
    /// There are this many samples, and not as many as expected.
    Count(usize),
}

proof fn lemma_sample_error(v: Seq<Seq<char>>, k: int, n: int)
    requires
        0 <= k <= n,
    ensures
        samples_in(v, k) matches Err(i) ==> samples_in(v, n) == Err::<Seq<nat>, int>(i),
    decreases n - k,
{
    if k < n {
        lemma_sample_error(v, k + 1, n);
    }
}

/// Longer numbers as naturals.
pub open spec fn wide_nats(v: Seq<u128>) -> Seq<nat> {
    Seq::new(v.len(), |i: int| v[i] as nat)
}

/// Reads a file of samples, one in each line, of which as many must be there as expected.
pub fn read_samples(contents: &str, expected: usize) -> (r: Result<Vec<u128>, SampleFault>)
    ensures
        ({
            let v = lines(contents@);
            match samples_in(v, v.len() as int) {
                Err(i) => r == Err::<Vec<u128>, SampleFault>(SampleFault::Line(i as usize)),
                Ok(s) => if s.len() == expected {
                    r matches Ok(x) && wide_nats(x@) == s
                } else {
                    r == Err::<Vec<u128>, SampleFault>(SampleFault::Count(s.len() as usize))
                },
            }
        }),
{
    let p = split_at_each(chars_of(contents).as_slice(), '\n');
    let ghost g = parts(p@);
    let ghost all = lines(contents@);
    let mut count: usize = p.len();
    if count > 0 && p[count - 1].len() == 0 {
        count = count - 1;
    }
    proof {
        assert(g.len() == p@.len());
        if g.len() > 0 {
            assert(g.last() == p@[p@.len() - 1]@);
        }
        assert(all.len() == count);
        assert forall|i: int| 0 <= i < count implies #[trigger] all[i] == p@[i]@ by {
            assert(g[i] == p@[i]@);
        }
    }
    let mut out: Vec<u128> = Vec::new();
    let mut k: usize = 0;
    assert(wide_nats(out@) =~= Seq::<nat>::empty());
    while k < count
        invariant
            k <= count <= p@.len(),
            all == lines(contents@),
            all.len() == count,
            forall|i: int| 0 <= i < count ==> #[trigger] all[i] == p@[i]@,
            samples_in(all, k as int) == Ok::<Seq<nat>, int>(wide_nats(out@)),
            out@.len() == k,
        decreases count - k,
    {
        assert(all[k as int] == p@[k as int]@);
        proof {
            lemma_sample_error(all, k + 1, count as int);
        }
        match parse_wide(trimmed(p[k].as_slice()).as_slice(), u128::MAX) {
            Some(n) => {
                let ghost before = wide_nats(out@);
                out.push(n);
                assert(wide_nats(out@) =~= before.push(n as nat));
            },
            None => {
                return Err(SampleFault::Line(k));
            },
        }
        k = k + 1;
    }
    if out.len() != expected {
        return Err(SampleFault::Count(out.len()));
    }
    Ok(out)
}

} // verus!
