//! Quorum arithmetic: how many providers a write or a recovery must reach.
use vstd::prelude::*;
use vstd::set_lib::*;

verus! {

/// The size of a quorum of `nsp` providers that tolerates threshold `tsp`.
pub open spec fn quorum(nsp: nat, tsp: nat) -> nat {
    (nsp + tsp + 1) / 2
}

/// A threshold between one and the number of providers.
pub open spec fn valid_threshold(nsp: nat, tsp: nat) -> bool {
    0 < tsp <= nsp
}

/// More than half of the providers.
pub fn majority_quorum(nsp: usize) -> (r: usize)
    ensures
        r == nsp as nat / 2 + 1,
        2 * r > nsp,
{
    nsp / 2 + 1
}

/// The quorum size for `nsp` providers and threshold `tsp`.
pub fn quorum_size(nsp: usize, tsp: usize) -> (r: usize)
    requires
        valid_threshold(nsp as nat, tsp as nat),
        nsp + tsp < usize::MAX,
    ensures
        r == quorum(nsp as nat, tsp as nat),
{
    (nsp + tsp + 1) / 2
}

/// Confirms what every accepted pair of numbers promises: the quorum lies between the
/// threshold and the number of providers, and two quorums share more than
/// `tsp - 1` providers.
pub fn validate_threshold(nsp: usize, tsp: usize)
    requires
        valid_threshold(nsp as nat, tsp as nat),
        nsp + tsp < usize::MAX,
    ensures
        tsp <= quorum(nsp as nat, tsp as nat) <= nsp,
        2 * quorum(nsp as nat, tsp as nat) - nsp > tsp - 1,
{
}

/// How many providers may be unavailable while a quorum remains.
pub fn max_quorum_unavailable(nsp: usize, tsp: usize) -> (r: usize)
    requires
        valid_threshold(nsp as nat, tsp as nat),
        nsp + tsp < usize::MAX,
    ensures
        r == nsp - quorum(nsp as nat, tsp as nat),
{
    nsp - quorum_size(nsp, tsp)
}

/// How many providers may be unavailable while every phase can run.
pub fn max_executable_unavailable(nsp: usize, tsp: usize) -> (r: usize)
    requires
        valid_threshold(nsp as nat, tsp as nat),
        nsp + tsp < usize::MAX,
    ensures
        r == nsp - quorum(nsp as nat, tsp as nat),
{
    nsp - quorum_size(nsp, tsp)
}

/// With at most `max_quorum_unavailable` providers missing, those left form a quorum
/// and reach the threshold.
pub proof fn quorum_survives(nsp: nat, tsp: nat, unavailable: nat)
    requires
        valid_threshold(nsp, tsp),
        unavailable <= nsp - quorum(nsp, tsp),
    ensures
        nsp - unavailable >= quorum(nsp, tsp) >= tsp,
{
}

/// Any two quorums have at least `tsp` providers in common.
pub proof fn quorums_intersect(nsp: nat, tsp: nat, a: Set<int>, b: Set<int>)
    requires
        valid_threshold(nsp, tsp),
        a.subset_of(set_int_range(0, nsp as int)),
        b.subset_of(set_int_range(0, nsp as int)),
        a.len() >= quorum(nsp, tsp),
        b.len() >= quorum(nsp, tsp),
    ensures
        a.intersect(b).len() >= tsp,
{
    let all = set_int_range(0, nsp as int);
    lemma_int_range(0, nsp as int);
    lemma_len_subset(a, all);
    lemma_len_subset(b, all);
    lemma_set_intersect_union_lens(a, b);
    assert(a.union(b).subset_of(all));
    lemma_len_subset(a.union(b), all);
}

} // verus!
