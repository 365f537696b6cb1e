//! A map from names to values.
use vstd::prelude::*;

verus! {

/// A listing of a set: every element once, in any order.
pub open spec fn lists(names: Seq<Seq<char>>, set: Set<Seq<char>>) -> bool {
    names.no_duplicates() && names.to_set() == set
}

/// Values under names, no name twice.
pub struct NameMap<V> {
    entries: Vec<(String, V)>,
}

/// No name occurs twice.
spec fn distinct<V>(entries: Seq<(String, V)>) -> bool {
    forall|i: int, j: int|
        0 <= i < j < entries.len() ==> (#[trigger] entries[i]).0@ != (#[trigger] entries[j]).0@
}

spec fn has<V>(entries: Seq<(String, V)>, name: Seq<char>) -> bool {
    exists|i: int| 0 <= i < entries.len() && (#[trigger] entries[i]).0@ == name
}

spec fn place<V>(entries: Seq<(String, V)>, name: Seq<char>) -> int {
    choose|i: int| 0 <= i < entries.len() && (#[trigger] entries[i]).0@ == name
}

spec fn as_map<V>(entries: Seq<(String, V)>) -> Map<Seq<char>, V> {
    Map::new(|name: Seq<char>| has(entries, name), |name: Seq<char>| entries[place(entries, name)].1)
}

proof fn lemma_place<V>(entries: Seq<(String, V)>, i: int)
    requires
        distinct(entries),
        0 <= i < entries.len(),
    ensures
        as_map(entries).contains_key(entries[i].0@),
        place(entries, entries[i].0@) == i,
        as_map(entries)[entries[i].0@] == entries[i].1,
{
}

proof fn lemma_update<V>(entries: Seq<(String, V)>, i: int, value: V)
    requires
        distinct(entries),
        0 <= i < entries.len(),
    ensures
        distinct(entries.update(i, (entries[i].0, value))),
        as_map(entries.update(i, (entries[i].0, value))) == as_map(entries).insert(
            entries[i].0@,
            value,
        ),
{
    let after = entries.update(i, (entries[i].0, value));
    assert forall|name: Seq<char>| has(after, name) == has(entries, name) && (has(after, name)
        ==> place(after, name) == place(entries, name)) by {
        if has(entries, name) {
            let j = place(entries, name);
            assert(after[j].0@ == name);
        }
        if has(after, name) {
            let j = place(after, name);
            assert(entries[j].0@ == name);
        }
    }
    lemma_place(entries, i);
    assert(as_map(after) =~= as_map(entries).insert(entries[i].0@, value));
}

proof fn lemma_push<V>(entries: Seq<(String, V)>, name: String, value: V)
    requires
        distinct(entries),
        !as_map(entries).contains_key(name@),
    ensures
        distinct(entries.push((name, value))),
        as_map(entries.push((name, value))) == as_map(entries).insert(name@, value),
{
    let after = entries.push((name, value));
    assert forall|other: Seq<char>| has(after, other) == (other == name@ || has(entries, other)) by {
        if has(entries, other) {
            assert(after[place(entries, other)].0@ == other);
        }
        assert(after[entries.len() as int].0@ == name@);
    }
    assert forall|other: Seq<char>| has(entries, other) implies place(after, other) == place(
        entries,
        other,
    ) by {
        assert(after[place(entries, other)].0@ == other);
    }
    lemma_place(after, entries.len() as int);
    assert(as_map(after) =~= as_map(entries).insert(name@, value));
}

proof fn lemma_remove<V>(entries: Seq<(String, V)>, i: int)
    requires
        distinct(entries),
        0 <= i < entries.len(),
    ensures
        distinct(entries.remove(i)),
        as_map(entries.remove(i)) == as_map(entries).remove(entries[i].0@),
{
    let after = entries.remove(i);
    assert forall|j: int| 0 <= j < after.len() implies has(entries, (#[trigger] after[j]).0@)
        && after[j].0@ != entries[i].0@ && as_map(entries)[after[j].0@] == after[j].1 by {
        let k = if j < i { j } else { j + 1 };
        assert(after[j] == entries[k]);
        lemma_place(entries, k);
    }
    assert forall|j: int, k: int| 0 <= j < k < after.len() implies (#[trigger] after[j]).0@ != (
    #[trigger] after[k]).0@ by {
        let l = if j < i { j } else { j + 1 };
        let m = if k < i { k } else { k + 1 };
        assert(after[j] == entries[l] && after[k] == entries[m]);
    }
    assert forall|j: int| 0 <= j < entries.len() && j != i implies has(
        after,
        (#[trigger] entries[j]).0@,
    ) by {
        let k = if j < i { j } else { j - 1 };
        assert(after[k] == entries[j]);
    }
    assert forall|name: Seq<char>| has(after, name) == (name != entries[i].0@ && has(
        entries,
        name,
    )) by {
        if has(entries, name) {
            assert(entries[place(entries, name)].0@ == name);
        }
        if has(after, name) {
            assert(after[place(after, name)].0@ == name);
        }
    }
    assert(as_map(after) =~= as_map(entries).remove(entries[i].0@));
}

impl<V> View for NameMap<V> {
    type V = Map<Seq<char>, V>;

    closed spec fn view(&self) -> Map<Seq<char>, V> {
        as_map(self.entries@)
    }
}

impl<V> NameMap<V> {
    /// No name occurs twice.
    pub closed spec fn wf(&self) -> bool {
        distinct(self.entries@)
    }

    /// The names, in the order in which they were added.
    pub closed spec fn names(&self) -> Seq<Seq<char>> {
        self.entries@.map_values(|entry: (String, V)| entry.0@)
    }

    /// The names are those under which the map holds a value, each once.
    pub proof fn lemma_names(&self)
        requires
            self.wf(),
        ensures
            lists(self.names(), self@.dom()),
    {
        assert forall|name: Seq<char>| self.names().contains(name) == self@.contains_key(name) by {
            if self.names().contains(name) {
                let i = self.names().index_of(name);
                assert(self.entries@[i].0@ == name);
            }
            if has(self.entries@, name) {
                assert(self.names()[place(self.entries@, name)] == name);
            }
        }
        assert(self.names().to_set() =~= self@.dom());
    }

    /// A map without names.
    pub fn new() -> (m: Self)
        ensures
            m.wf(),
            m@ == Map::<Seq<char>, V>::empty(),
    {
        let m = NameMap { entries: Vec::new() };
        assert(m@ =~= Map::<Seq<char>, V>::empty());
        m
    }

    /// The place of `name` among the entries.
    fn find(&self, name: &String) -> (place: Option<usize>)
        requires
            self.wf(),
        ensures
            match place {
                Some(i) => i < self.entries@.len() && self.entries@[i as int].0@ == name@,
                None => !self@.contains_key(name@),
            },
    {
        let mut i: usize = 0;
        while i < self.entries.len()
            invariant
                self.wf(),
                i <= self.entries@.len(),
                forall|j: int| 0 <= j < i ==> (#[trigger] self.entries@[j]).0@ != name@,
            decreases self.entries@.len() - i,
        {
            if self.entries[i].0 == *name {
                return Some(i);
            }
            i = i + 1;
        }
        None
    }

    /// Whether there is a value under `name`.
    pub fn contains(&self, name: &String) -> (found: bool)
        requires
            self.wf(),
        ensures
            found == self@.contains_key(name@),
    {
        match self.find(name) {
            Some(i) => {
                proof {
                    lemma_place(self.entries@, i as int);
                }
                true
            },
            None => false,
        }
    }

    /// Whether there is no name at all.
    pub fn is_empty(&self) -> (empty: bool)
        requires
            self.wf(),
        ensures
            empty == (self@ == Map::<Seq<char>, V>::empty()),
    {
        proof {
            if self.entries@.len() == 0 {
                assert(self@ =~= Map::<Seq<char>, V>::empty());
            } else {
                lemma_place(self.entries@, 0);
            }
        }
        self.entries.len() == 0
    }

    /// The value under `name`.
    pub fn get(&self, name: &String) -> (value: Option<&V>)
        requires
            self.wf(),
        ensures
            match value {
                Some(v) => self@.contains_key(name@) && *v == self@[name@],
                None => !self@.contains_key(name@),
            },
    {
        match self.find(name) {
            Some(i) => {
                proof {
                    lemma_place(self.entries@, i as int);
                }
                Some(&self.entries[i].1)
            },
            None => None,
        }
    }

    /// The value under `name`, to be changed in place.
    pub fn get_mut(&mut self, name: &String) -> (value: Option<&mut V>)
        requires
            old(self).wf(),
        ensures
            final(self).wf(),
            match value {
                Some(v) => {
                    &&& old(self)@.contains_key(name@)
                    &&& *v == old(self)@[name@]
                    &&& final(self)@ == old(self)@.insert(name@, *final(v))
                    &&& final(self).names() == old(self).names()
                },
                None => !old(self)@.contains_key(name@) && *final(self) == *old(self),
            },
    {
        match self.find(name) {
            Some(i) => {
                proof {
                    lemma_place(self.entries@, i as int);
                }
                let ghost before = self.entries@;
                proof {
                    assert forall|v: V| #[trigger]
                        as_map(before.update(i as int, (before[i as int].0, v))) == as_map(
                            before,
                        ).insert(name@, v) && distinct(
                        before.update(i as int, (before[i as int].0, v)),
                    ) by {
                        lemma_update(before, i as int, v);
                    }
                }
                Some(&mut self.entries[i].1)
            },
            None => None,
        }
    }

    /// Puts a value under a new name.
    pub fn insert(&mut self, name: String, value: V)
        requires
            old(self).wf(),
            !old(self)@.contains_key(name@),
        ensures
            final(self).wf(),
            final(self)@ == old(self)@.insert(name@, value),
            final(self).names() == old(self).names().push(name@),
    {
        proof {
            lemma_push(self.entries@, name, value);
        }
        self.entries.push((name, value));
        assert(self.names() =~= old(self).names().push(name@));
    }

    /// Takes a name out of the map. Returns the value that it had.
    pub fn remove(&mut self, name: &String) -> (value: Option<V>)
        requires
            old(self).wf(),
        ensures
            final(self).wf(),
            final(self)@ == old(self)@.remove(name@),
            match value {
                Some(v) => old(self)@.contains_key(name@) && v == old(self)@[name@],
                None => !old(self)@.contains_key(name@) && *final(self) == *old(self),
            },
    {
        match self.find(name) {
            Some(i) => {
                proof {
                    lemma_place(self.entries@, i as int);
                    lemma_remove(self.entries@, i as int);
                }
                let (_, value) = self.entries.remove(i);
                Some(value)
            },
            None => None,
        }
    }

    /// The number of names.
    pub fn len(&self) -> (n: usize)
        ensures
            n == self.names().len(),
    {
        self.entries.len()
    }

    /// The name and the value at a place in the order of adding.
    pub fn entry(&self, i: usize) -> (entry: (&String, &V))
        requires
            self.wf(),
            i < self.names().len(),
        ensures
            entry.0@ == self.names()[i as int],
            self@.contains_key(entry.0@),
            *entry.1 == self@[entry.0@],
    {
        proof {
            lemma_place(self.entries@, i as int);
        }
        (&self.entries[i].0, &self.entries[i].1)
    }
}

/// A listing holds every element of the set, nothing else, and nothing twice.
pub proof fn law_listings_are_complete(names: Seq<Seq<char>>, set: Set<Seq<char>>)
    requires
        lists(names, set),
    ensures
        forall|name: Seq<char>| #[trigger]
            set.contains(name) ==> exists|i: int| 0 <= i < names.len() && names[i] == name,
        forall|i: int| 0 <= i < names.len() ==> set.contains(#[trigger] names[i]),
        forall|i: int, j: int|
            0 <= i < j < names.len() ==> #[trigger] names[i] != #[trigger] names[j],
{
    assert forall|name: Seq<char>| #[trigger] set.contains(name) implies exists|i: int|
        0 <= i < names.len() && names[i] == name by {
        assert(names.to_set().contains(name));
    }
    assert forall|i: int| 0 <= i < names.len() implies set.contains(#[trigger] names[i]) by {
        assert(names.to_set().contains(names[i]));
    }
}

} // verus!
