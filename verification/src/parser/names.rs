//! Text equality, and maps from names to values that keep the order in
//! which names were first inserted.

use vstd::prelude::*;
use vstd::utf8::{encode_utf8, encode_utf8_decode_utf8};

verus! {

/// Whether two strings are equal.
pub fn str_eq(a: &str, b: &str) -> (r: bool)
    ensures
        r == (a@ == b@),
{
    let x = a.as_bytes();
    let y = b.as_bytes();
    proof {
        encode_utf8_decode_utf8(a@);
        encode_utf8_decode_utf8(b@);
    }
    if x.len() != y.len() {
        return false;
    }
    let mut i: usize = 0;
    while i < x.len()
        invariant
            x@.len() == y@.len(),
            x@ == encode_utf8(a@),
            y@ == encode_utf8(b@),
            i <= x@.len(),
            forall|k: int| 0 <= k < i ==> x@[k] == y@[k],
        decreases x@.len() - i,
    {
        if x[i] != y[i] {
            return false;
        }
        i = i + 1;
    }
    assert(x@ =~= y@);
    true
}

/// The index of the first entry whose name is `k`, looking from `i` on.
pub open spec fn assoc_index_from<V>(m: Seq<(Seq<char>, V)>, k: Seq<char>, i: int) -> Option<int>
    decreases m.len() - i,
{
    if i < 0 || i >= m.len() {
        None
    } else if m[i].0 == k {
        Some(i)
    } else {
        assoc_index_from(m, k, i + 1)
    }
}

/// The index of the first entry whose name is `k`.
pub open spec fn assoc_index<V>(m: Seq<(Seq<char>, V)>, k: Seq<char>) -> Option<int> {
    assoc_index_from(m, k, 0)
}

/// The value of the first entry whose name is `k`.
pub open spec fn assoc_get<V>(m: Seq<(Seq<char>, V)>, k: Seq<char>) -> Option<V> {
    match assoc_index(m, k) {
        Some(i) => Some(m[i].1),
        None => None,
    }
}

/// Inserting `v` under `k`: the first entry named `k` gets `v`; without one,
/// the entry goes last.
pub open spec fn assoc_insert<V>(m: Seq<(Seq<char>, V)>, k: Seq<char>, v: V) -> Seq<(Seq<char>, V)> {
    match assoc_index(m, k) {
        Some(i) => m.update(i, (m[i].0, v)),
        None => m.push((k, v)),
    }
}

/// The index found for a name from `i` on holds that name; when none is
/// found, no entry from `i` on holds it.
pub proof fn lemma_assoc_index_from_bounds<V>(m: Seq<(Seq<char>, V)>, k: Seq<char>, i: int)
    requires
        0 <= i,
    ensures
        assoc_index_from(m, k, i) matches Some(j) ==> i <= j < m.len() && m[j].0 == k,
        assoc_index_from(m, k, i) is None ==> forall|j: int| i <= j < m.len() ==> m[j].0 != k,
    decreases m.len() - i,
{
    if 0 <= i < m.len() && m[i].0 != k {
        lemma_assoc_index_from_bounds(m, k, i + 1);
    }
}

/// Names mapped to values, in the order in which each name was first inserted.
#[derive(Debug, Clone)]
pub struct NameMap<T> {
    entries: Vec<(String, T)>,
}

impl<T: View> View for NameMap<T> {
    type V = Seq<(Seq<char>, T::V)>;

    closed spec fn view(&self) -> Seq<(Seq<char>, T::V)> {
        self.entries@.map_values(|e: (String, T)| (e.0@, e.1@))
    }
}

impl<T: View> NameMap<T> {
    pub fn new() -> (r: Self)
        ensures
            r@ == Seq::<(Seq<char>, T::V)>::empty(),
    {
        let r = NameMap { entries: Vec::new() };
        assert(r@ =~= Seq::<(Seq<char>, T::V)>::empty());
        r
    }

    pub fn len(&self) -> (n: usize)
        ensures
            n == self@.len(),
    {
        self.entries.len()
    }

    pub fn is_empty(&self) -> (r: bool)
        ensures
            r == (self@.len() == 0),
    {
        self.entries.len() == 0
    }

    /// The index of the entry named `key`.
    fn find(&self, key: &str) -> (r: Option<usize>)
        ensures
            r matches Some(i) ==> assoc_index(self@, key@) == Some(i as int) && i < self@.len(),
            r is None ==> assoc_index(self@, key@) is None,
    {
        let mut i: usize = 0;
        while i < self.entries.len()
            invariant
                i <= self.entries@.len(),
                assoc_index(self@, key@) == assoc_index_from(self@, key@, i as int),
            decreases self.entries@.len() - i,
        {
            assert(self@[i as int] == (self.entries@[i as int].0@, self.entries@[i as int].1@));
            if str_eq(self.entries[i].0.as_str(), key) {
                return Some(i);
            }
            i = i + 1;
        }
        None
    }

    /// The value named `key`.
    pub fn get(&self, key: &str) -> (r: Option<&T>)
        ensures
            match assoc_get(self@, key@) {
                Some(v) => r matches Some(x) && x@ == v,
                None => r is None,
            },
    {
        proof { lemma_assoc_index_from_bounds(self@, key@, 0); }
        match self.find(key) {
            Some(i) => {
                assert(self@[i as int] == (self.entries@[i as int].0@, self.entries@[i as int].1@));
                Some(&self.entries[i].1)
            },
            None => None,
        }
    }

    pub fn contains_key(&self, key: &str) -> (r: bool)
        ensures
            r == (assoc_index(self@, key@) is Some),
    {
        self.find(key).is_some()
    }

    /// Maps `key` to `value`, in place of the value it had.
    pub fn insert(&mut self, key: String, value: T)
        ensures
            final(self)@ == assoc_insert(old(self)@, key@, value@),
    {
        proof { lemma_assoc_index_from_bounds(self@, key@, 0); }
        let ghost kv = key@;
        let ghost vv = value@;
        let ghost old_view = self@;
        match self.find(key.as_str()) {
            Some(i) => {
                let k = self.entries[i].0.clone();
                assert(old_view[i as int] == (self.entries@[i as int].0@, self.entries@[i as int].1@));
                self.entries.set(i, (k, value));
                proof {
                    assert(self@ =~= old_view.update(i as int, (old_view[i as int].0, vv)));
                }
            },
            None => {
                self.entries.push((key, value));
                proof {
                    assert(self@ =~= old_view.push((kv, vv)));
                }
            },
        }
        assert(self@ == assoc_insert(old_view, kv, vv));
    }

    /// The names, in order.
    pub fn keys(&self) -> (r: Vec<String>)
        ensures
            r@.len() == self@.len(),
            forall|i: int| 0 <= i < r@.len() ==> r@[i]@ == self@[i].0,
    {
        let mut r: Vec<String> = Vec::new();
        let mut i: usize = 0;
        while i < self.entries.len()
            invariant
                i <= self.entries@.len(),
                r@.len() == i,
                forall|j: int| 0 <= j < i ==> r@[j]@ == self@[j].0,
            decreases self.entries@.len() - i,
        {
            r.push(self.entries[i].0.clone());
            i = i + 1;
        }
        r
    }

    /// The entries, in order.
    pub fn into_entries(self) -> (r: Vec<(String, T)>)
        ensures
            r@.map_values(|e: (String, T)| (e.0@, e.1@)) == self@,
    {
        self.entries
    }

    /// The entry at `i`.
    pub fn entry(&self, i: usize) -> (r: (&String, &T))
        requires
            i < self@.len(),
        ensures
            r.0@ == self@[i as int].0,
            r.1@ == self@[i as int].1,
    {
        (&self.entries[i].0, &self.entries[i].1)
    }
}

impl<T: View + Copy> NameMap<T> {
    /// A copy of this map.
    pub fn copied(&self) -> (r: Self)
        ensures
            r@ == self@,
    {
        let mut entries: Vec<(String, T)> = Vec::new();
        let mut i: usize = 0;
        while i < self.entries.len()
            invariant
                i <= self.entries@.len(),
                entries@.len() == i,
                forall|j: int| 0 <= j < i ==> #[trigger] entries@[j].0@ == self.entries@[j].0@
                    && entries@[j].1 == self.entries@[j].1,
            decreases self.entries@.len() - i,
        {
            let k = self.entries[i].0.clone();
            let v = self.entries[i].1;
            entries.push((k, v));
            i = i + 1;
        }
        let r = NameMap { entries };
        assert(r@ =~= self@);
        r
    }
}

} // verus!
