//! Lists of server identifiers: sorting and finding.
use vstd::prelude::*;
use vstd::relations::{sorted_by, total_ordering};
use vstd::seq_lib::*;

verus! {

/// The ascending order of identifiers.
pub open spec fn ascending() -> spec_fn(u32, u32) -> bool {
    |a: u32, b: u32| a <= b
}

/// The identifiers in ascending order.
pub open spec fn sorted(s: Seq<u32>) -> Seq<u32> {
    s.sort_by(ascending())
}

/// A list in order is its own sorted form.
pub proof fn lemma_sorted_fixed(s: Seq<u32>, t: Seq<u32>)
    requires
        s.to_multiset() == t.to_multiset(),
        forall|i: int, j: int| 0 <= i < j < t.len() ==> t[i] <= t[j],
    ensures
        sorted(s) == t,
{
    let leq = ascending();
    assert(total_ordering(leq));
    s.lemma_sort_by_ensures(leq);
    assert(sorted_by(t, leq));
    lemma_sorted_unique(sorted(s), t, leq);
}

/// Sorting keeps the number of identifiers and which ones occur.
pub proof fn lemma_sorted(s: Seq<u32>)
    ensures
        sorted(s).len() == s.len(),
        sorted(s).to_multiset() == s.to_multiset(),
        forall|x: u32| sorted(s).contains(x) <==> s.contains(x),
{
    broadcast use group_to_multiset_ensures;

    let leq = ascending();
    assert(total_ordering(leq));
    s.lemma_sort_by_ensures(leq);
    assert(s.to_multiset().len() == s.len());
    assert(sorted(s).to_multiset().len() == sorted(s).len());
    assert forall|x: u32| sorted(s).contains(x) <==> s.contains(x) by {
        assert(s.contains(x) <==> s.to_multiset().count(x) > 0);
        assert(sorted(s).contains(x) <==> sorted(s).to_multiset().count(x) > 0);
    }
}

/// Sorts identifiers.
pub fn sort_ids(ids: &[u32]) -> (r: Vec<u32>)
    ensures
        r@ == sorted(ids@),
        r@.len() == ids@.len(),
{
    let mut out: Vec<u32> = Vec::with_capacity(ids.len());
    let mut i: usize = 0;
    assert(ids@.take(0) =~= out@);
    while i < ids.len()
        invariant
            i <= ids@.len(),
            out@.len() == i,
            out@.to_multiset() == ids@.take(i as int).to_multiset(),
            forall|a: int, b: int| 0 <= a < b < out@.len() ==> out@[a] <= out@[b],
        decreases ids@.len() - i,
    {
        let x = ids[i];
        let mut k: usize = out.len();
        while k > 0 && out[k - 1] > x
            invariant
                k <= out@.len(),
                forall|a: int, b: int| 0 <= a < b < out@.len() ==> out@[a] <= out@[b],
                forall|a: int| k <= a < out@.len() ==> out@[a] > x,
            decreases k,
        {
            k = k - 1;
        }
        let ghost before = out@;
        out.insert(k, x);
        proof {
            broadcast use group_to_multiset_ensures;

            lemma_insert_multiset(before, k as int, x);
            assert(ids@.take(i + 1) =~= ids@.take(i as int).push(x));
        }
        i = i + 1;
    }
    proof {
        assert(ids@.take(i as int) =~= ids@);
        lemma_sorted_fixed(ids@, out@);
    }
    out
}

proof fn lemma_insert_multiset(s: Seq<u32>, k: int, x: u32)
    requires
        0 <= k <= s.len(),
    ensures
        s.insert(k, x).to_multiset() == s.to_multiset().insert(x),
{
    broadcast use group_to_multiset_ensures;

    let t = s.insert(k, x);
    assert(t.remove(k) =~= s);
    assert(t.remove(k).to_multiset() =~= t.to_multiset().remove(t[k]));
    assert(t.contains(x)) by {
        assert(t[k] == x);
    }
    assert(t.to_multiset().count(x) > 0);
    assert(t.to_multiset() =~= s.to_multiset().insert(x));
}

/// Whether two lists of identifiers are equal.
pub fn same_ids(a: &[u32], b: &[u32]) -> (r: bool)
    ensures
        r == (a@ == b@),
{
    if a.len() != b.len() {
        return false;
    }
    let mut i: usize = 0;
    while i < a.len()
        invariant
            i <= a@.len(),
            a@.len() == b@.len(),
            forall|j: int| 0 <= j < i ==> a@[j] == b@[j],
        decreases a@.len() - i,
    {
        if a[i] != b[i] {
            return false;
        }
        i = i + 1;
    }
    assert(a@ =~= b@);
    true
}

/// A copy of a list of identifiers.
pub fn copy_ids(a: &[u32]) -> (r: Vec<u32>)
    ensures
        r@ == a@,
{
    let mut r: Vec<u32> = Vec::with_capacity(a.len());
    let mut i: usize = 0;
    while i < a.len()
        invariant
            i <= a@.len(),
            r@ == a@.take(i as int),
        decreases a@.len() - i,
    {
        r.push(a[i]);
        assert(a@.take(i + 1) =~= a@.take(i as int).push(a@[i as int]));
        i = i + 1;
    }
    assert(a@.take(i as int) =~= a@);
    r
}

/// The first place of an identifier.
pub open spec fn place_of(ids: Seq<u32>, id: u32) -> Option<int>
    decreases ids.len(),
{
    if ids.len() == 0 {
        None
    } else {
        match place_of(ids.drop_last(), id) {
            Some(i) => Some(i),
            None => if ids.last() == id {
                Some(ids.len() - 1)
            } else {
                None
            },
        }
    }
}

/// The first place is one where the identifier stands, and none comes before.
pub proof fn lemma_place_of(ids: Seq<u32>, id: u32)
    ensures
        match place_of(ids, id) {
            Some(i) => 0 <= i < ids.len() && ids[i] == id && forall|j: int|
                0 <= j < i ==> ids[j] != id,
            None => forall|j: int| 0 <= j < ids.len() ==> ids[j] != id,
        },
    decreases ids.len(),
{
    if ids.len() > 0 {
        let front = ids.drop_last();
        lemma_place_of(front, id);
        assert forall|j: int| 0 <= j < front.len() implies front[j] == ids[j] by {}
        if place_of(front, id) is None {
            assert forall|j: int| 0 <= j < front.len() implies ids[j] != id by {
                assert(front[j] != id);
            }
        }
    }
}

/// Finds the first place of an identifier.
pub fn find_id(ids: &[u32], id: u32) -> (r: Option<usize>)
    ensures
        match r {
            Some(i) => place_of(ids@, id) == Some(i as int) && i < ids@.len() && ids@[i as int]
                == id,
            None => place_of(ids@, id) is None && forall|j: int|
                0 <= j < ids@.len() ==> ids@[j] != id,
        },
{
    let mut i: usize = 0;
    while i < ids.len()
        invariant
            i <= ids@.len(),
            forall|j: int| 0 <= j < i ==> ids@[j] != id,
        decreases ids@.len() - i,
    {
        if ids[i] == id {
            proof {
                lemma_place_of(ids@, id);
            }
            return Some(i);
        }
        i = i + 1;
    }
    proof {
        lemma_place_of(ids@, id);
    }
    None
}

/// The last place of an identifier.
pub open spec fn last_place_of(ids: Seq<u32>, id: u32) -> Option<int>
    decreases ids.len(),
{
    if ids.len() == 0 {
        None
    } else if ids.last() == id {
        Some(ids.len() - 1)
    } else {
        last_place_of(ids.drop_last(), id)
    }
}

/// Finds the last place of an identifier.
pub fn find_last_id(ids: &[u32], id: u32) -> (r: Option<usize>)
    ensures
        match r {
            Some(i) => last_place_of(ids@, id) == Some(i as int) && i < ids@.len() && ids@[i as int]
                == id,
            None => last_place_of(ids@, id) is None,
        },
{
    let mut i: usize = ids.len();
    assert(ids@.take(i as int) =~= ids@);
    while i > 0
        invariant
            i <= ids@.len(),
            last_place_of(ids@.take(i as int), id) == last_place_of(ids@, id),
        decreases i,
    {
        let ghost part = ids@.take(i as int);
        assert(part.drop_last() =~= ids@.take(i - 1));
        assert(part.last() == ids@[i - 1]);
        i = i - 1;
        if ids[i] == id {
            return Some(i);
        }
    }
    None
}

/// The last place is one where the identifier stands; there is one where it occurs.
pub proof fn lemma_last_place_of(ids: Seq<u32>, id: u32)
    ensures
        match last_place_of(ids, id) {
            Some(i) => 0 <= i < ids.len() && ids[i] == id,
            None => !ids.contains(id),
        },
    decreases ids.len(),
{
    if ids.len() > 0 {
        let front = ids.drop_last();
        lemma_last_place_of(front, id);
        if last_place_of(ids, id) is None && ids.contains(id) {
            let j = ids.index_of(id);
            assert(front[j] == id);
            assert(front.contains(id));
        }
    }
}

/// Without repetition, first and last place are the place.
pub proof fn lemma_only_place(ids: Seq<u32>, i: int)
    requires
        0 <= i < ids.len(),
        forall|a: int, b: int| 0 <= a < b < ids.len() ==> ids[a] != ids[b],
    ensures
        place_of(ids, ids[i]) == Some(i),
        last_place_of(ids, ids[i]) == Some(i),
{
    let id = ids[i];
    lemma_place_of(ids, id);
    lemma_last_place_of(ids, id);
    assert(ids.contains(id));
}

} // verus!
