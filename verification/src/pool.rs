//! A map from names to values, kept as a list of entries with distinct names.
use vstd::prelude::*;

verus! {

/// A map from names to values: one entry per name, in order of first insertion.
#[derive(Debug, Clone)]
pub struct NamePool<V> {
    pub entries: Vec<(String, V)>,
}

/// The map the entries describe.
pub open spec fn entries_map<V: DeepView>(es: Seq<(String, V)>) -> Map<Seq<char>, V::V>
    decreases es.len(),
{
    if es.len() == 0 {
        Map::empty()
    } else {
        entries_map(es.drop_last()).insert(es.last().0@, es.last().1.deep_view())
    }
}

/// No two entries have the same name.
pub open spec fn keys_distinct<V>(es: Seq<(String, V)>) -> bool {
    forall|i: int, j: int| 0 <= i < j < es.len() ==> (#[trigger] es[i]).0@ != (#[trigger] es[j]).0@
}

pub proof fn lemma_entries_map<V: DeepView>(es: Seq<(String, V)>)
    requires
        keys_distinct(es),
    ensures
        forall|k: Seq<char>|
            #![trigger entries_map(es).dom().contains(k)]
            entries_map(es).dom().contains(k) <==> exists|i: int|
                0 <= i < es.len() && (#[trigger] es[i]).0@ == k,
        forall|i: int|
            0 <= i < es.len() ==> #[trigger] entries_map(es)[es[i].0@] == es[i].1.deep_view(),
    decreases es.len(),
{
    if es.len() > 0 {
        let d = es.drop_last();
        assert(keys_distinct(d)) by {
            assert forall|i: int, j: int| 0 <= i < j < d.len() implies (#[trigger] d[i]).0@ != (
            #[trigger] d[j]).0@ by {
                assert(d[i] == es[i] && d[j] == es[j]);
            }
        }
        lemma_entries_map(d);
        assert forall|k: Seq<char>|
            #![trigger entries_map(es).dom().contains(k)]
            entries_map(es).dom().contains(k) <==> exists|i: int|
                0 <= i < es.len() && (#[trigger] es[i]).0@ == k by {
            if entries_map(es).dom().contains(k) && k != es.last().0@ {
                assert(entries_map(d).dom().contains(k));
                let i = choose|i: int| 0 <= i < d.len() && (#[trigger] d[i]).0@ == k;
                assert(es[i] == d[i]);
            }
            if k == es.last().0@ {
                assert(es[es.len() - 1] == es.last());
            }
            if exists|i: int| 0 <= i < es.len() && (#[trigger] es[i]).0@ == k {
                let i = choose|i: int| 0 <= i < es.len() && (#[trigger] es[i]).0@ == k;
                if i < es.len() - 1 {
                    assert(d[i] == es[i]);
                    assert(entries_map(d).dom().contains(k));
                }
            }
        }
        assert forall|i: int| 0 <= i < es.len() implies #[trigger] entries_map(es)[es[i].0@]
            == es[i].1.deep_view() by {
            if i < es.len() - 1 {
                assert(d[i] == es[i]);
                assert(es[i].0@ != es[es.len() - 1].0@);
                assert(entries_map(d)[d[i].0@] == d[i].1.deep_view());
            }
        }
    }
}

/// Replacing the value of an entry replaces it in the map.
pub proof fn lemma_entries_map_update<V: DeepView>(es: Seq<(String, V)>, i: int, v: V)
    requires
        keys_distinct(es),
        0 <= i < es.len(),
    ensures
        entries_map(es.update(i, (es[i].0, v))) == entries_map(es).insert(es[i].0@, v.deep_view()),
    decreases es.len(),
{
    let u = es.update(i, (es[i].0, v));
    if i == es.len() - 1 {
        assert(u.drop_last() =~= es.drop_last());
        assert(entries_map(u) =~= entries_map(es).insert(es[i].0@, v.deep_view()));
    } else {
        let d = es.drop_last();
        assert(keys_distinct(d)) by {
            assert forall|a: int, b: int| 0 <= a < b < d.len() implies (#[trigger] d[a]).0@ != (
            #[trigger] d[b]).0@ by {
                assert(d[a] == es[a] && d[b] == es[b]);
            }
        }
        lemma_entries_map_update(d, i, v);
        assert(u.drop_last() =~= d.update(i, (d[i].0, v)));
        assert(es[i].0@ != es.last().0@) by {
            assert(es.last() == es[es.len() - 1]);
        }
        assert(entries_map(u) =~= entries_map(es).insert(es[i].0@, v.deep_view()));
    }
}

impl<V: DeepView> NamePool<V> {
    /// The map from names to the values' views.
    pub open spec fn map(&self) -> Map<Seq<char>, V::V> {
        entries_map(self.entries@)
    }

    /// No name has two entries.
    pub open spec fn wf(&self) -> bool {
        keys_distinct(self.entries@)
    }

    /// An empty pool.
    pub fn new() -> (r: Self)
        ensures
            r.wf(),
            r.map() == Map::<Seq<char>, V::V>::empty(),
            r.entries@.len() == 0,
    {
        NamePool { entries: Vec::new() }
    }

    /// The index of the entry named `k`.
    pub fn find(&self, k: &String) -> (r: Option<usize>)
        requires
            self.wf(),
        ensures
            match r {
                Some(i) => i < self.entries@.len() && self.entries@[i as int].0@ == k@,
                None => !self.map().dom().contains(k@),
            },
    {
        proof {
            lemma_entries_map(self.entries@);
        }
        let mut i: usize = 0;
        while i < self.entries.len()
            invariant
                i <= self.entries@.len(),
                forall|t: int| 0 <= t < i ==> (#[trigger] self.entries@[t]).0@ != k@,
            decreases self.entries.len() - i,
        {
            if self.entries[i].0 == *k {
                return Some(i);
            }
            i = i + 1;
        }
        None
    }

    /// The value named `k`, as `HashMap::get` gives it.
    pub fn get(&self, k: &String) -> (r: Option<&V>)
        requires
            self.wf(),
        ensures
            match r {
                Some(v) => self.map().dom().contains(k@) && self.map()[k@] == v.deep_view(),
                None => !self.map().dom().contains(k@),
            },
    {
        proof {
            lemma_entries_map(self.entries@);
        }
        match self.find(k) {
            Some(i) => {
                assert(self.map().dom().contains(k@));
                Some(&self.entries[i].1)
            },
            None => None,
        }
    }

    /// Sets the value named `k` to `v`, as `HashMap::insert` does.
    pub fn insert(&mut self, k: String, v: V)
        requires
            old(self).wf(),
        ensures
            final(self).wf(),
            final(self).map() == old(self).map().insert(k@, v.deep_view()),
            old(self).map().dom().contains(k@) ==> final(self).entries@.len() == old(
                self,
            ).entries@.len(),
            !old(self).map().dom().contains(k@) ==> final(self).entries@ == old(self).entries@.push(
                (k, v),
            ),
    {
        match self.find(&k) {
            Some(i) => {
                proof {
                    lemma_entries_map(self.entries@);
                    lemma_entries_map_update(self.entries@, i as int, v);
                }
                let ghost es = self.entries@;
                let (key, _) = self.entries.remove(i);
                self.entries.insert(i, (key, v));
                assert(self.entries@ =~= es.update(i as int, (es[i as int].0, v)));
            },
            None => {
                proof {
                    lemma_entries_map(self.entries@);
                }
                let ghost es = self.entries@;
                self.entries.push((k, v));
                assert forall|a: int, b: int| 0 <= a < b < self.entries@.len() implies (
                #[trigger] self.entries@[a]).0@ != (#[trigger] self.entries@[b]).0@ by {
                    if b == es.len() {
                        assert(es[a] == self.entries@[a]);
                    } else {
                        assert(es[a] == self.entries@[a] && es[b] == self.entries@[b]);
                    }
                }
                assert(self.entries@.drop_last() =~= es);
            },
        }
    }
}

} // verus!

verus! {

/// Entries with the same names whose values are `f` of the old values describe the
/// old map with `f` applied to every value.
pub proof fn lemma_entries_map_values<V: DeepView>(
    a: Seq<(String, V)>,
    b: Seq<(String, V)>,
    f: spec_fn(V::V) -> V::V,
)
    requires
        a.len() == b.len(),
        forall|i: int|
            0 <= i < a.len() ==> (#[trigger] b[i]).0@ == a[i].0@ && b[i].1.deep_view() == f(
                a[i].1.deep_view(),
            ),
    ensures
        entries_map(b) == entries_map(a).map_values(f),
    decreases a.len(),
{
    if a.len() == 0 {
        assert(entries_map(b) =~= entries_map(a).map_values(f));
    } else {
        let da = a.drop_last();
        let db = b.drop_last();
        assert forall|i: int| 0 <= i < da.len() implies (#[trigger] db[i]).0@ == da[i].0@
            && db[i].1.deep_view() == f(da[i].1.deep_view()) by {
            assert(db[i] == b[i] && da[i] == a[i]);
        }
        lemma_entries_map_values(da, db, f);
        assert(b.last() == b[b.len() - 1] && a.last() == a[a.len() - 1]);
        assert(entries_map(b) =~= entries_map(a).map_values(f));
    }
}

} // verus!
