//! Maps keyed by name.
use vstd::prelude::*;
use crate::text::same_text;

verus! {

/// The map that a list of entries denotes: a later entry overrides an earlier
/// one with the same name.
pub open spec fn map_of<V>(entries: Seq<(String, V)>) -> Map<Seq<char>, V>
    decreases entries.len(),
{
    if entries.len() == 0 {
        Map::empty()
    } else {
        map_of(entries.drop_last()).insert(entries.last().0@, entries.last().1)
    }
}

/// Whether no two entries carry the same name.
pub open spec fn unique_names<V>(entries: Seq<(String, V)>) -> bool {
    forall|i: int, j: int|
        0 <= i < entries.len() && 0 <= j < entries.len() && i != j ==> entries[i].0@
            != entries[j].0@
}

/// A map from names to values, kept as a list of entries with distinct names
/// in the order in which the names were first inserted.
#[derive(Debug)]
pub struct NameMap<V> {
    entries: Vec<(String, V)>,
}

impl<V> View for NameMap<V> {
    type V = Map<Seq<char>, V>;

    closed spec fn view(&self) -> Map<Seq<char>, V> {
        map_of(self.entries@)
    }
}

proof fn lemma_map_of_dom<V>(entries: Seq<(String, V)>, k: Seq<char>)
    ensures
        map_of(entries).contains_key(k) <==> exists|i: int|
            0 <= i < entries.len() && entries[i].0@ == k,
    decreases entries.len(),
{
    if entries.len() > 0 {
        let init = entries.drop_last();
        lemma_map_of_dom(init, k);
        if map_of(entries).contains_key(k) {
            if k != entries.last().0@ {
                let i = choose|i: int| 0 <= i < init.len() && init[i].0@ == k;
                assert(entries[i] == init[i]);
            } else {
                assert(entries[entries.len() - 1].0@ == k);
            }
        }
        if exists|i: int| 0 <= i < entries.len() && entries[i].0@ == k {
            let i = choose|i: int| 0 <= i < entries.len() && entries[i].0@ == k;
            if i < entries.len() - 1 {
                assert(init[i] == entries[i]);
            }
        }
    }
}

proof fn lemma_map_of_at<V>(entries: Seq<(String, V)>, i: int)
    requires
        unique_names(entries),
        0 <= i < entries.len(),
    ensures
        map_of(entries).contains_key(entries[i].0@),
        map_of(entries)[entries[i].0@] == entries[i].1,
    decreases entries.len(),
{
    if i < entries.len() - 1 {
        let init = entries.drop_last();
        assert(init[i] == entries[i]);
        assert(unique_names(init)) by {
            assert forall|a: int, b: int|
                0 <= a < init.len() && 0 <= b < init.len() && a != b implies init[a].0@
                != init[b].0@ by {
                assert(init[a] == entries[a] && init[b] == entries[b]);
            }
        }
        lemma_map_of_at(init, i);
        assert(entries.last().0@ != entries[i].0@);
    }
}

proof fn lemma_map_of_update<V>(entries: Seq<(String, V)>, i: int, e: (String, V))
    requires
        unique_names(entries),
        0 <= i < entries.len(),
        e.0@ == entries[i].0@,
    ensures
        map_of(entries.update(i, e)) == map_of(entries).insert(e.0@, e.1),
        unique_names(entries.update(i, e)),
    decreases entries.len(),
{
    let u = entries.update(i, e);
    let init = entries.drop_last();
    assert(unique_names(init)) by {
        assert forall|a: int, b: int|
            0 <= a < init.len() && 0 <= b < init.len() && a != b implies init[a].0@
            != init[b].0@ by {
            assert(init[a] == entries[a] && init[b] == entries[b]);
        }
    }
    if i == entries.len() - 1 {
        assert(u.drop_last() =~= init);
        assert(map_of(u) == map_of(init).insert(e.0@, e.1));
        assert(map_of(u) =~= map_of(entries).insert(e.0@, e.1));
    } else {
        lemma_map_of_update(init, i, e);
        assert(u.drop_last() =~= init.update(i, e));
        assert(entries.last().0@ != e.0@);
        assert(map_of(u) =~= map_of(entries).insert(e.0@, e.1));
    }
}

impl<V> NameMap<V> {
    /// The map's well-formedness: names are distinct.
    pub closed spec fn wf(&self) -> bool {
        unique_names(self.entries@)
    }

    /// The names in insertion order.
    pub closed spec fn names(&self) -> Seq<Seq<char>> {
        self.entries@.map_values(|e: (String, V)| e.0@)
    }

    /// An empty map.
    pub fn new() -> (r: Self)
        ensures
            r.wf(),
            r@ == Map::<Seq<char>, V>::empty(),
    {
        NameMap { entries: Vec::new() }
    }

    /// Number of names.
    pub fn len(&self) -> (r: usize)
        requires
            self.wf(),
        ensures
            r == self@.len(),
            r == self.names().len(),
    {
        proof {
            self.lemma_dom();
        }
        self.entries.len()
    }

    /// The `i`-th name and its value, in insertion order.
    pub fn entry(&self, i: usize) -> (r: (&String, &V))
        requires
            self.wf(),
            i < self.names().len(),
        ensures
            r.0@ == self.names()[i as int],
            self@.contains_key(r.0@),
            self@[r.0@] == *r.1,
    {
        proof {
            lemma_map_of_at(self.entries@, i as int);
        }
        let e = &self.entries[i];
        (&e.0, &e.1)
    }

    /// The names are exactly the keys of the map, each once.
    pub proof fn lemma_dom(&self)
        requires
            self.wf(),
        ensures
            forall|k: Seq<char>| self@.contains_key(k) <==> self.names().contains(k),
            forall|i: int, j: int|
                0 <= i < self.names().len() && 0 <= j < self.names().len() && i != j
                    ==> self.names()[i] != self.names()[j],
            self@.dom().finite(),
            self@.len() == self.names().len(),
    {
        let names = self.names();
        assert forall|k: Seq<char>| self@.contains_key(k) <==> names.contains(k) by {
            lemma_map_of_dom(self.entries@, k);
            if names.contains(k) {
                let i = choose|i: int| 0 <= i < names.len() && names[i] == k;
                assert(self.entries@[i].0@ == k);
            }
            if self@.contains_key(k) {
                let i = choose|i: int| 0 <= i < self.entries@.len() && self.entries@[i].0@ == k;
                assert(names[i] == k);
            }
        }
        assert(self@.dom() =~= names.to_set());
        names.unique_seq_to_set();
    }

    /// The value stored under `name`, if any.
    pub fn get(&self, name: &str) -> (r: Option<&V>)
        requires
            self.wf(),
        ensures
            r.is_some() == self@.contains_key(name@),
            r matches Some(v) ==> *v == self@[name@],
    {
        match self.index_of(name) {
            Some(i) => {
                proof {
                    lemma_map_of_at(self.entries@, i as int);
                }
                Some(&self.entries[i].1)
            },
            None => None,
        }
    }

    fn index_of(&self, name: &str) -> (r: Option<usize>)
        requires
            self.wf(),
        ensures
            r matches Some(i) ==> i < self.entries@.len() && self.entries@[i as int].0@ == name@,
            r is None ==> !self@.contains_key(name@),
    {
        let mut i: usize = 0;
        while i < self.entries.len()
            invariant
                0 <= i <= self.entries@.len(),
                forall|j: int| 0 <= j < i ==> self.entries@[j].0@ != name@,
            decreases self.entries@.len() - i,
        {
            if same_text(self.entries[i].0.as_str(), name) {
                return Some(i);
            }
            i = i + 1;
        }
        proof {
            lemma_map_of_dom(self.entries@, name@);
        }
        None
    }

    /// Stores `value` under `name`, replacing the value stored there before.
    pub fn insert(&mut self, name: String, value: V)
        requires
            old(self).wf(),
        ensures
            final(self).wf(),
            final(self)@ == old(self)@.insert(name@, value),
    {
        match self.index_of(name.as_str()) {
            Some(i) => {
                proof {
                    lemma_map_of_update(self.entries@, i as int, (name, value));
                }
                self.entries.set(i, (name, value));
            },
            None => {
                proof {
                    lemma_map_of_dom(self.entries@, name@);
                }
                let ghost before = self.entries@;
                self.entries.push((name, value));
                assert(self.entries@.drop_last() =~= before);
            },
        }
    }
}

impl<V> NameMap<V> {
    /// Stores every entry of `other`, replacing the values stored before
    /// under the same names.
    pub fn extend(&mut self, other: NameMap<V>)
        requires
            old(self).wf(),
        ensures
            final(self).wf(),
            final(self)@ == old(self)@.union_prefer_right(other@),
    {
        let ghost start = self@;
        let ghost all = other.entries@;
        let count = other.entries.len();
        let mut rest = other.entries;
        let mut i: usize = 0;
        assert(rest@ =~= all.subrange(0, all.len() as int));
        assert(all.subrange(0, 0) =~= Seq::<(String, V)>::empty());
        assert(start =~= start.union_prefer_right(Map::empty()));
        while rest.len() > 0
            invariant
                self.wf(),
                0 <= i <= all.len(),
                all.len() == count,
                rest@ == all.subrange(i as int, all.len() as int),
                self@ == start.union_prefer_right(map_of(all.subrange(0, i as int))),
            decreases rest@.len(),
        {
            let e = rest.remove(0);
            assert(e == all[i as int]);
            let ghost before = self@;
            self.insert(e.0, e.1);
            proof {
                let pre = all.subrange(0, i as int);
                let next = all.subrange(0, i + 1);
                assert(next.drop_last() =~= pre);
                assert(next.last() == all[i as int]);
                assert(self@ =~= start.union_prefer_right(map_of(next)));
            }
            i = i + 1;
        }
        assert(all.subrange(0, all.len() as int) =~= all);
    }
}

impl<V: Copy> NameMap<V> {
    /// A map with the same names and values.
    pub fn duplicate(&self) -> (r: Self)
        ensures
            r.wf(),
            r@ == self@,
    {
        let mut r = NameMap::new();
        let mut i: usize = 0;
        assert(self.entries@.subrange(0, 0) =~= Seq::<(String, V)>::empty());
        while i < self.entries.len()
            invariant
                r.wf(),
                0 <= i <= self.entries@.len(),
                r@ == map_of(self.entries@.subrange(0, i as int)),
            decreases self.entries@.len() - i,
        {
            let e = &self.entries[i];
            r.insert(e.0.clone(), e.1);
            proof {
                let next = self.entries@.subrange(0, i + 1);
                assert(next.drop_last() =~= self.entries@.subrange(0, i as int));
                assert(next.last() == self.entries@[i as int]);
            }
            i = i + 1;
        }
        assert(self.entries@.subrange(0, i as int) =~= self.entries@);
        r
    }
}

} // verus!
