//! Maps kept as lists of entries with distinct keys, for keys that can only
//! be compared for equality.
use vstd::prelude::*;
use crate::strings::str_equal;

verus! {

/// A key type: equality of keys is equality of their deep views.
pub trait MapKey: DeepView + Sized {
    /// Whether the key is in a shape in which it can be compared.
    spec fn key_wf(&self) -> bool;

    /// Whether two keys are equal.
    fn same_key(&self, other: &Self) -> (r: bool)
        requires
            self.key_wf(),
            other.key_wf(),
        ensures
            r == (self.deep_view() == other.deep_view()),
    ;
}

impl MapKey for String {
    open spec fn key_wf(&self) -> bool {
        true
    }

    fn same_key(&self, other: &Self) -> (r: bool) {
        str_equal(self.as_str(), other.as_str())
    }
}

/// The map that a list of entries denotes: later entries win.
pub open spec fn entries_view<K: DeepView, V: DeepView>(e: Seq<(K, V)>) -> Map<K::V, V::V>
    decreases e.len(),
{
    if e.len() == 0 {
        Map::empty()
    } else {
        entries_view(e.drop_last()).insert(e.last().0.deep_view(), e.last().1.deep_view())
    }
}

/// No two entries share a key, and every key can be compared.
pub open spec fn entries_wf<K: MapKey, V>(e: Seq<(K, V)>) -> bool {
    &&& forall|i: int, j: int|
        0 <= i < j < e.len() ==> (#[trigger] e[i]).0.deep_view() != (#[trigger] e[j]).0.deep_view()
    &&& forall|i: int| 0 <= i < e.len() ==> (#[trigger] e[i]).0.key_wf()
}

pub proof fn lemma_entries_dom<K: DeepView, V: DeepView>(e: Seq<(K, V)>, k: K::V)
    ensures
        entries_view(e).contains_key(k) <==> exists|i: int|
            0 <= i < e.len() && (#[trigger] e[i]).0.deep_view() == k,
    decreases e.len(),
{
    if e.len() > 0 {
        lemma_entries_dom(e.drop_last(), k);
        if entries_view(e.drop_last()).contains_key(k) {
            let i = choose|i: int|
                0 <= i < e.drop_last().len() && (#[trigger] e.drop_last()[i]).0.deep_view() == k;
            assert(e[i] == e.drop_last()[i]);
        }
        if exists|i: int| 0 <= i < e.len() && (#[trigger] e[i]).0.deep_view() == k {
            let i = choose|i: int| 0 <= i < e.len() && (#[trigger] e[i]).0.deep_view() == k;
            if i < e.len() - 1 {
                assert(e.drop_last()[i] == e[i]);
            }
        }
    }
}

pub proof fn lemma_entries_value<K: DeepView, V: DeepView>(e: Seq<(K, V)>, i: int)
    requires
        0 <= i < e.len(),
        forall|j: int| i < j < e.len() ==> (#[trigger] e[j]).0.deep_view() != e[i].0.deep_view(),
    ensures
        entries_view(e).contains_key(e[i].0.deep_view()),
        entries_view(e)[e[i].0.deep_view()] == e[i].1.deep_view(),
    decreases e.len(),
{
    if i < e.len() - 1 {
        assert forall|j: int| i < j < e.drop_last().len() implies (#[trigger] e.drop_last()[j]).0.deep_view()
            != e.drop_last()[i].0.deep_view() by {
            assert(e.drop_last()[j] == e[j]);
        }
        lemma_entries_value(e.drop_last(), i);
        assert(e.last() == e[e.len() - 1]);
    }
}

pub proof fn lemma_entries_update<K: DeepView, V: DeepView>(e: Seq<(K, V)>, i: int, p: (K, V))
    requires
        0 <= i < e.len(),
        p.0.deep_view() == e[i].0.deep_view(),
        forall|j: int| i < j < e.len() ==> (#[trigger] e[j]).0.deep_view() != e[i].0.deep_view(),
    ensures
        entries_view(e.update(i, p)) == entries_view(e).insert(p.0.deep_view(), p.1.deep_view()),
    decreases e.len(),
{
    let u = e.update(i, p);
    if i == e.len() - 1 {
        assert(u.drop_last() =~= e.drop_last());
        assert(entries_view(u) =~= entries_view(e).insert(p.0.deep_view(), p.1.deep_view()));
    } else {
        assert(u.drop_last() =~= e.drop_last().update(i, p));
        assert forall|j: int| i < j < e.drop_last().len() implies (#[trigger] e.drop_last()[j]).0.deep_view()
            != e.drop_last()[i].0.deep_view() by {
            assert(e.drop_last()[j] == e[j]);
        }
        lemma_entries_update(e.drop_last(), i, p);
        assert(e.last() == e[e.len() - 1]);
        assert(entries_view(u) =~= entries_view(e).insert(p.0.deep_view(), p.1.deep_view()));
    }
}

/// A map kept as a list of entries with distinct keys.
#[derive(Debug, Clone)]
pub struct AssocMap<K, V> {
    entries: Vec<(K, V)>,
}

/// A map keyed by strings.
pub type StrMap<V> = AssocMap<String, V>;

impl<K: MapKey, V: DeepView> AssocMap<K, V> {
    /// The entries, in the order in which their keys first arrived.
    pub closed spec fn entries(&self) -> Seq<(K, V)> {
        self.entries@
    }

    /// The map from the keys' deep views to the values' deep views.
    pub open spec fn view(&self) -> Map<K::V, V::V> {
        entries_view(self.entries())
    }

    /// No key occurs twice and every key can be compared.
    pub open spec fn wf(&self) -> bool {
        entries_wf(self.entries())
    }

    /// Every entry is in the map, with its value.
    pub proof fn lemma_entry_in_view(&self, i: int)
        requires
            self.wf(),
            0 <= i < self.entries().len(),
        ensures
            self.view().contains_key(self.entries()[i].0.deep_view()),
            self.view()[self.entries()[i].0.deep_view()] == self.entries()[i].1.deep_view(),
    {
        lemma_entries_value(self.entries(), i);
    }

    /// The keys of the map are those of the entries.
    pub proof fn lemma_view_dom(&self, k: K::V)
        ensures
            self.view().contains_key(k) <==> exists|i: int|
                0 <= i < self.entries().len() && (#[trigger] self.entries()[i]).0.deep_view() == k,
    {
        lemma_entries_dom(self.entries(), k);
    }

    /// An empty map.
    pub fn new() -> (m: Self)
        ensures
            m.wf(),
            m.view() == Map::<K::V, V::V>::empty(),
            m.entries().len() == 0,
    {
        AssocMap { entries: Vec::new() }
    }

    /// The number of keys.
    pub fn len(&self) -> (n: usize)
        ensures
            n == self.entries().len(),
    {
        self.entries.len()
    }

    /// The key of the entry at `i`.
    pub fn key_at(&self, i: usize) -> (k: &K)
        requires
            i < self.entries().len(),
        ensures
            *k == self.entries()[i as int].0,
    {
        &self.entries[i].0
    }

    /// The value of the entry at `i`.
    pub fn value_at(&self, i: usize) -> (v: &V)
        requires
            i < self.entries().len(),
        ensures
            *v == self.entries()[i as int].1,
    {
        &self.entries[i].1
    }

    /// The value of the entry at `i`, to change it in place.
    pub fn value_at_mut(&mut self, i: usize) -> (v: &mut V)
        requires
            i < old(self).entries().len(),
        ensures
            *v == old(self).entries()[i as int].1,
            final(self).entries() == old(self).entries().update(
                i as int,
                (old(self).entries()[i as int].0, *final(v)),
            ),
    {
        &mut self.entries[i].1
    }

    /// Where the entry with key `k` stands, if there is one.
    pub fn index_of(&self, k: &K) -> (r: Option<usize>)
        requires
            self.wf(),
            k.key_wf(),
        ensures
            match r {
                Some(i) => i < self.entries().len() && self.entries()[i as int].0.deep_view()
                    == k.deep_view() && self.view().contains_key(k.deep_view()),
                None => !self.view().contains_key(k.deep_view()),
            },
    {
        let n = self.entries.len();
        let mut i: usize = 0;
        while i < n
            invariant
                self.wf(),
                k.key_wf(),
                n == self.entries().len(),
                i <= n,
                forall|j: int| 0 <= j < i ==> (#[trigger] self.entries()[j]).0.deep_view() != k.deep_view(),
            decreases n - i,
        {
            assert(self.entries()[i as int].0.key_wf());
            if self.entries[i].0.same_key(k) {
                proof {
                    self.lemma_entry_in_view(i as int);
                }
                return Some(i);
            }
            i = i + 1;
        }
        proof {
            self.lemma_view_dom(k.deep_view());
        }
        None
    }

    /// The value stored under `k`.
    pub fn get(&self, k: &K) -> (r: Option<&V>)
        requires
            self.wf(),
            k.key_wf(),
        ensures
            match r {
                Some(v) => self.view().contains_key(k.deep_view()) && self.view()[k.deep_view()]
                    == v.deep_view(),
                None => !self.view().contains_key(k.deep_view()),
            },
    {
        match self.index_of(k) {
            Some(i) => {
                proof {
                    self.lemma_entry_in_view(i as int);
                }
                Some(&self.entries[i].1)
            },
            None => None,
        }
    }

    /// Stores `v` under `k`, replacing what was stored there.
    pub fn insert(&mut self, k: K, v: V)
        requires
            old(self).wf(),
            k.key_wf(),
        ensures
            final(self).wf(),
            final(self).view() == old(self).view().insert(k.deep_view(), v.deep_view()),
            !old(self).view().contains_key(k.deep_view()) ==> final(self).entries()
                == old(self).entries().push((k, v)),
            old(self).view().contains_key(k.deep_view()) ==> final(self).entries().len()
                == old(self).entries().len(),
            forall|i: int|
                0 <= i < final(self).entries().len() ==> (#[trigger] final(self).entries()[i]).1 == v
                    || (i < old(self).entries().len() && final(self).entries()[i]
                    == old(self).entries()[i]),
            forall|i: int|
                0 <= i < old(self).entries().len() ==> (#[trigger] final(self).entries()[i]).0.deep_view()
                    == old(self).entries()[i].0.deep_view(),
    {
        match self.index_of(&k) {
            Some(i) => {
                let ghost e = self.entries@;
                let ghost p = (k, v);
                proof {
                    lemma_entries_update(e, i as int, p);
                }
                self.entries.set(i, (k, v));
                assert(self.entries@ == e.update(i as int, p));
            },
            None => {
                let ghost e = self.entries@;
                proof {
                    lemma_entries_dom(e, k.deep_view());
                }
                self.entries.push((k, v));
                assert(self.entries@.drop_last() =~= e);
            },
        }
    }
}

/// Values that can be copied with their deep view kept.
pub trait DeepCopy: DeepView + Sized {
    fn deep_copy(&self) -> (r: Self)
        ensures
            r.deep_view() == self.deep_view(),
    ;
}

impl DeepCopy for String {
    fn deep_copy(&self) -> (r: Self) {
        self.clone()
    }
}

/// Lists of entries whose keys and values have the same deep views denote
/// the same map.
pub proof fn lemma_entries_view_congruent<K: DeepView, V: DeepView>(a: Seq<(K, V)>, b: Seq<(K, V)>)
    requires
        a.len() == b.len(),
        forall|i: int|
            0 <= i < a.len() ==> (#[trigger] a[i]).0.deep_view() == b[i].0.deep_view()
                && a[i].1.deep_view() == b[i].1.deep_view(),
    ensures
        entries_view(a) == entries_view(b),
    decreases a.len(),
{
    if a.len() > 0 {
        assert forall|i: int| 0 <= i < a.drop_last().len() implies (#[trigger] a.drop_last()[i]).0.deep_view()
            == b.drop_last()[i].0.deep_view() && a.drop_last()[i].1.deep_view()
            == b.drop_last()[i].1.deep_view() by {
            assert(a.drop_last()[i] == a[i]);
            assert(b.drop_last()[i] == b[i]);
        }
        lemma_entries_view_congruent(a.drop_last(), b.drop_last());
        assert(a.last() == a[a.len() - 1]);
    }
}

impl<K: MapKey, V: DeepView> DeepView for AssocMap<K, V> {
    type V = Map<K::V, V::V>;

    open spec fn deep_view(&self) -> Map<K::V, V::V> {
        self.view()
    }
}

impl<V: DeepCopy> AssocMap<String, V> {
    /// A copy of the map, entry by entry.
    pub fn copy(&self) -> (r: Self)
        requires
            self.wf(),
        ensures
            r.wf(),
            r.view() == self.view(),
            r.entries().len() == self.entries().len(),
            forall|i: int|
                0 <= i < self.entries().len() ==> (#[trigger] r.entries()[i]).0@ == self.entries()[i].0@,
    {
        let n = self.entries.len();
        let mut out: Vec<(String, V)> = Vec::new();
        let mut i: usize = 0;
        while i < n
            invariant
                n == self.entries().len(),
                i <= n,
                out@.len() == i,
                forall|j: int|
                    0 <= j < i ==> (#[trigger] out@[j]).0@ == self.entries()[j].0@
                        && out@[j].1.deep_view() == self.entries()[j].1.deep_view(),
            decreases n - i,
        {
            let k = self.entries[i].0.clone();
            let v = self.entries[i].1.deep_copy();
            out.push((k, v));
            i = i + 1;
        }
        proof {
            lemma_entries_view_congruent(out@, self.entries@);
        }
        AssocMap { entries: out }
    }
}

} // verus!
