//! Records found by a 32-byte key.
use vstd::prelude::*;

use crate::bytes::same_bytes;

verus! {

/// The map that a list of keyed records stands for: of two records under one key the
/// later counts.
pub open spec fn as_map<T>(s: Seq<([u8; 32], T)>) -> Map<Seq<u8>, T>
    decreases s.len(),
{
    if s.len() == 0 {
        Map::empty()
    } else {
        as_map(s.drop_last()).insert(s.last().0@, s.last().1)
    }
}

proof fn lemma_has<T>(s: Seq<([u8; 32], T)>, i: int)
    requires
        0 <= i < s.len(),
        forall|j: int| i < j < s.len() ==> (#[trigger] s[j]).0@ != s[i].0@,
    ensures
        as_map(s).dom().contains(s[i].0@),
        as_map(s)[s[i].0@] == s[i].1,
    decreases s.len(),
{
    if i < s.len() - 1 {
        let t = s.drop_last();
        assert(t[i] == s[i]);
        assert forall|j: int| i < j < t.len() implies (#[trigger] t[j]).0@ != t[i].0@ by {
            assert(t[j] == s[j]);
        }
        lemma_has(t, i);
        assert(s[s.len() - 1].0@ != s[i].0@);
    }
}

proof fn lemma_key_listed<T>(s: Seq<([u8; 32], T)>, i: int)
    requires
        0 <= i < s.len(),
    ensures
        as_map(s).dom().contains(s[i].0@),
    decreases s.len(),
{
    if i < s.len() - 1 {
        let t = s.drop_last();
        assert(t[i] == s[i]);
        lemma_key_listed(t, i);
    }
}

proof fn lemma_lacks<T>(s: Seq<([u8; 32], T)>, k: Seq<u8>)
    requires
        forall|i: int| 0 <= i < s.len() ==> (#[trigger] s[i]).0@ != k,
    ensures
        !as_map(s).dom().contains(k),
    decreases s.len(),
{
    if s.len() > 0 {
        let t = s.drop_last();
        assert forall|i: int| 0 <= i < t.len() implies (#[trigger] t[i]).0@ != k by {
            assert(t[i] == s[i]);
        }
        lemma_lacks(t, k);
        assert(s[s.len() - 1].0@ != k);
    }
}

proof fn lemma_index_of<T>(s: Seq<([u8; 32], T)>, k: Seq<u8>) -> (i: int)
    requires
        as_map(s).dom().contains(k),
    ensures
        0 <= i < s.len(),
        s[i].0@ == k,
    decreases s.len(),
{
    if s.last().0@ == k {
        s.len() - 1
    } else {
        lemma_index_of(s.drop_last(), k)
    }
}

proof fn lemma_update<T>(s: Seq<([u8; 32], T)>, i: int, e: ([u8; 32], T))
    requires
        0 <= i < s.len(),
        s[i].0@ == e.0@,
        forall|j: int| i < j < s.len() ==> (#[trigger] s[j]).0@ != s[i].0@,
    ensures
        as_map(s.update(i, e)) == as_map(s).insert(e.0@, e.1),
    decreases s.len(),
{
    let u = s.update(i, e);
    let t = s.drop_last();
    if i == s.len() - 1 {
        assert(u.drop_last() =~= t);
    } else {
        assert(t[i] == s[i]);
        assert forall|j: int| i < j < t.len() implies (#[trigger] t[j]).0@ != t[i].0@ by {
            assert(t[j] == s[j]);
        }
        lemma_update(t, i, e);
        assert(u.drop_last() =~= t.update(i, e));
        assert(s[s.len() - 1].0@ != s[i].0@);
    }
    assert(as_map(u) =~= as_map(s).insert(e.0@, e.1));
}

/// Records under distinct keys, in the order in which the keys came.
#[derive(Clone, Debug)]
pub struct Store<T> {
    entries: Vec<([u8; 32], T)>,
}

impl<T> View for Store<T> {
    type V = Map<Seq<u8>, T>;

    closed spec fn view(&self) -> Map<Seq<u8>, T> {
        as_map(self.entries@)
    }
}

impl<T> Store<T> {
    /// The keys in the order in which they came.
    pub closed spec fn keys(self) -> Seq<[u8; 32]> {
        Seq::new(self.entries@.len(), |i: int| self.entries@[i].0)
    }

    /// The store without records.
    pub fn new() -> (r: Store<T>)
        ensures
            r@ == Map::<Seq<u8>, T>::empty(),
            r.keys().len() == 0,
    {
        Store { entries: Vec::new() }
    }

    fn find(&self, key: &[u8; 32]) -> (r: Option<usize>)
        ensures
            match r {
                Some(i) => {
                    &&& i < self.entries@.len()
                    &&& self.entries@[i as int].0@ == key@
                    &&& forall|j: int|
                        i < j < self.entries@.len() ==> (#[trigger] self.entries@[j]).0@ != key@
                    &&& self@.dom().contains(key@)
                    &&& self@[key@] == self.entries@[i as int].1
                },
                None => !self@.dom().contains(key@),
            },
    {
        let mut i: usize = self.entries.len();
        while i > 0
            invariant
                i <= self.entries@.len(),
                forall|j: int|
                    i <= j < self.entries@.len() ==> (#[trigger] self.entries@[j]).0@ != key@,
            decreases i,
        {
            i = i - 1;
            if same_bytes(&self.entries[i].0, key) {
                proof {
                    lemma_has(self.entries@, i as int);
                }
                return Some(i);
            }
        }
        proof {
            lemma_lacks(self.entries@, key@);
        }
        None
    }

    /// Whether there is a record under `key`.
    pub fn contains_key(&self, key: &[u8; 32]) -> (r: bool)
        ensures
            r == self@.dom().contains(key@),
    {
        self.find(key).is_some()
    }

    /// The record under `key`.
    pub fn get(&self, key: &[u8; 32]) -> (r: Option<&T>)
        ensures
            r is Some <==> self@.dom().contains(key@),
            r matches Some(v) ==> *v == self@[key@],
    {
        match self.find(key) {
            Some(i) => Some(&self.entries[i].1),
            None => None,
        }
    }

    /// The record under `key`, for change.
    pub fn get_mut(&mut self, key: &[u8; 32]) -> (r: Option<&mut T>)
        ensures
            match r {
                Some(v) => {
                    &&& old(self)@.dom().contains(key@)
                    &&& *v == old(self)@[key@]
                    &&& final(self)@ == old(self)@.insert(key@, *final(v))
                },
                None => !old(self)@.dom().contains(key@) && final(self)@ == old(self)@,
            },
    {
        match self.find(key) {
            Some(i) => {
                let ghost before = self.entries@;
                proof {
                    assert forall|e: ([u8; 32], T)| e.0@ == key@ implies #[trigger] as_map(
                        before.update(i as int, e),
                    ) == as_map(before).insert(key@, e.1) by {
                        lemma_update(before, i as int, e);
                    }
                }
                Some(&mut self.entries[i].1)
            },
            None => None,
        }
    }

    /// Puts a record under `key`, in place of the one that was there.
    pub fn insert(&mut self, key: [u8; 32], value: T)
        ensures
            final(self)@ == old(self)@.insert(key@, value),
    {
        let ghost before = self.entries@;
        match self.find(&key) {
            Some(i) => {
                proof {
                    lemma_update(before, i as int, (key, value));
                }
                self.entries[i] = (key, value);
            },
            None => {
                proof {
                    assert(before.push((key, value)).drop_last() =~= before);
                }
                self.entries.push((key, value));
            },
        }
    }

    /// The number of records.
    pub fn len(&self) -> (r: usize)
        ensures
            r == self.keys().len(),
    {
        self.entries.len()
    }

    /// The key at a place in the order.
    pub fn key_at(&self, i: usize) -> (r: [u8; 32])
        requires
            i < self.keys().len(),
        ensures
            r == self.keys()[i as int],
            self@.dom().contains(r@),
    {
        proof {
            lemma_key_listed(self.entries@, i as int);
        }
        self.entries[i].0
    }

    /// Without keys there are no records.
    pub proof fn lemma_no_keys(self)
        ensures
            self.keys().len() == 0 ==> self@ == Map::<Seq<u8>, T>::empty(),
    {
        if self.keys().len() == 0 {
            assert(self@ =~= Map::<Seq<u8>, T>::empty());
        }
    }

    /// Every key of the map has a place in the order.
    pub proof fn lemma_listed(self, key: Seq<u8>) -> (i: int)
        requires
            self@.dom().contains(key),
        ensures
            0 <= i < self.keys().len(),
            self.keys()[i]@ == key,
    {
        lemma_index_of(self.entries@, key)
    }
}

impl<T: Copy> Store<T> {
    /// A copy of the store.
    pub fn copy(&self) -> (r: Store<T>)
        ensures
            r@ == self@,
            r.keys() == self.keys(),
    {
        let mut entries: Vec<([u8; 32], T)> = Vec::with_capacity(self.entries.len());
        let mut i: usize = 0;
        while i < self.entries.len()
            invariant
                i <= self.entries@.len(),
                entries@ == self.entries@.take(i as int),
            decreases self.entries@.len() - i,
        {
            entries.push((self.entries[i].0, self.entries[i].1));
            assert(entries@ =~= self.entries@.take(i + 1));
            i = i + 1;
        }
        assert(entries@ =~= self.entries@);
        Store { entries }
    }
}

} // verus!
