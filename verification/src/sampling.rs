//! Which of the measured times count.
use vstd::prelude::*;

verus! {

/// The times that count: as many as asked for, after the warmup.
pub open spec fn counted(all: Seq<u128>, warmup: nat, samples: nat) -> Seq<u128> {
    if all.len() <= warmup {
        Seq::empty()
    } else if all.len() - warmup <= samples {
        all.skip(warmup as int)
    } else {
        all.subrange(warmup as int, (warmup + samples) as int)
    }
}

/// Times that are measured one after the other.
pub struct Sampler {
    warmup: usize,
    samples: usize,
    seen: usize,
    times: Vec<u128>,
    all: Ghost<Seq<u128>>,
}

impl Sampler {
    /// How many times are measured before those that count.
    pub closed spec fn warmup(self) -> nat {
        self.warmup as nat
    }

    /// How many times count.
    pub closed spec fn samples(self) -> nat {
        self.samples as nat
    }

    /// All times that were measured.
    pub closed spec fn all(self) -> Seq<u128> {
        self.all@
    }

    #[verifier::type_invariant]
    closed spec fn consistent(self) -> bool {
        &&& self.times@ == counted(self.all@, self.warmup as nat, self.samples as nat)
        &&& self.all@.len() <= self.warmup + self.samples
        &&& if self.all@.len() <= self.warmup {
            self.seen == self.all@.len()
        } else {
            self.seen == self.warmup
        }
    }

    /// No times yet.
    pub fn new(warmup: usize, samples: usize) -> (r: Sampler)
        ensures
            r.warmup() == warmup,
            r.samples() == samples,
            r.all() == Seq::<u128>::empty(),
    {
        Sampler { warmup, samples, seen: 0, times: Vec::new(), all: Ghost(Seq::empty()) }
    }

    /// Whether a time is still to be measured: the warmup and the times that count are not
    /// complete.
    pub fn needs_more(&self) -> (r: bool)
        ensures
            r == (self.all().len() < self.warmup() + self.samples()),
    {
        proof {
            use_type_invariant(self);
        }
        self.seen < self.warmup || self.times.len() < self.samples
    }

    /// Takes in a measured time.
    pub fn record(self, ns: u128) -> (r: Sampler)
        requires
            self.all().len() < self.warmup() + self.samples(),
        ensures
            r.warmup() == self.warmup(),
            r.samples() == self.samples(),
            r.all() == self.all().push(ns),
    {
        proof {
            use_type_invariant(&self);
        }
        let ghost all = self.all@.push(ns);
        let Sampler { warmup, samples, mut seen, mut times, all: _ } = self;
        if seen < warmup {
            seen = seen + 1;
            assert(counted(all, warmup as nat, samples as nat) =~= Seq::<u128>::empty());
        } else {
            let ghost had = times@;
            times.push(ns);
            assert(counted(all, warmup as nat, samples as nat) =~= had.push(ns));
        }
        Sampler { warmup, samples, seen, times, all: Ghost(all) }
    }

    /// The times that count.
    pub fn times(&self) -> (r: &Vec<u128>)
        ensures
            r@ == counted(self.all(), self.warmup(), self.samples()),
    {
        proof {
            use_type_invariant(self);
        }
        &self.times
    }
}

/// Once no time is to be measured, exactly the times after the warmup count, in the order in
/// which they were measured.
pub proof fn complete_samples(all: Seq<u128>, warmup: nat, samples: nat)
    requires
        all.len() == warmup + samples,
    ensures
        counted(all, warmup, samples) == all.skip(warmup as int),
        counted(all, warmup, samples).len() == samples,
{
    assert(counted(all, warmup, samples) =~= all.skip(warmup as int));
}

} // verus!
