use vstd::prelude::*;

verus! {

/// A table from names to values. Binding a name again replaces what it was
/// bound to: the last value written for a name is the one that is read.
#[derive(Clone, Debug)]
pub struct Table<V> {
    entries: Vec<(String, V)>,
}

/// Whether position `i` is the first one of `entries` that holds `name`.
spec fn first_at<V>(entries: Seq<(String, V)>, name: Seq<char>, i: int) -> bool {
    &&& 0 <= i < entries.len()
    &&& entries[i].0@ == name
    &&& forall|j: int| 0 <= j < i ==> entries[j].0@ != name
}

/// Whether `entries` holds `name` at all.
spec fn holds<V>(entries: Seq<(String, V)>, name: Seq<char>) -> bool {
    exists|i: int| first_at(entries, name, i)
}

/// The value at the first position of `entries` that holds `name`.
spec fn value_of<V>(entries: Seq<(String, V)>, name: Seq<char>) -> V {
    entries[choose|i: int| first_at(entries, name, i)].1
}

/// The map that a list of entries stands for.
spec fn map_of<V>(entries: Seq<(String, V)>) -> Map<Seq<char>, V> {
    Map::new(|name: Seq<char>| holds(entries, name), |name: Seq<char>| value_of(entries, name))
}

/// A name that stands first at `i` is held, with the value at `i`.
proof fn lemma_found<V>(entries: Seq<(String, V)>, name: Seq<char>, i: int)
    requires
        first_at(entries, name, i),
    ensures
        holds(entries, name),
        value_of(entries, name) == entries[i].1,
{
    let j = choose|j: int| first_at(entries, name, j);
    assert(j == i);
}

/// A name that stands nowhere is not held.
proof fn lemma_absent<V>(entries: Seq<(String, V)>, name: Seq<char>)
    requires
        forall|i: int| 0 <= i < entries.len() ==> entries[i].0@ != name,
    ensures
        !holds(entries, name),
{
    if holds(entries, name) {
        let j = choose|j: int| first_at(entries, name, j);
        assert(entries[j].0@ == name);
    }
}

/// Replacing the entry at the first position of a name rebinds the name
/// and no other.
proof fn lemma_replace<V>(entries: Seq<(String, V)>, i: int, name: String, value: V)
    requires
        first_at(entries, name@, i),
    ensures
        map_of(entries.update(i, (name, value))) == map_of(entries).insert(name@, value),
{
    let after = entries.update(i, (name, value));
    let target = map_of(entries).insert(name@, value);
    assert forall|k: Seq<char>, p: int| first_at(entries, k, p) == first_at(after, k, p) by {
        if first_at(entries, k, p) {
            assert(after[p].0@ == k);
            assert forall|j: int| 0 <= j < p implies after[j].0@ != k by {
                assert(entries[j].0@ != k);
            }
        }
        if first_at(after, k, p) {
            assert(entries[p].0@ == k);
            assert forall|j: int| 0 <= j < p implies entries[j].0@ != k by {
                assert(after[j].0@ != k);
            }
        }
    }
    assert forall|k: Seq<char>| holds(after, k) == target.contains_key(k) && (holds(after, k)
        ==> value_of(after, k) == target[k]) by {
        if holds(entries, k) {
            let p = choose|p: int| first_at(entries, k, p);
            assert(first_at(after, k, p));
            lemma_found(entries, k, p);
            lemma_found(after, k, p);
            if k == name@ {
                lemma_found(entries, k, i);
            }
        }
        if holds(after, k) {
            let p = choose|p: int| first_at(after, k, p);
            assert(first_at(entries, k, p));
        }
        if k == name@ {
            lemma_found(after, k, i);
        }
    }
    assert(map_of(after) =~= target);
}

/// Adding an entry for a name that stands nowhere binds the name and no
/// other.
proof fn lemma_add<V>(entries: Seq<(String, V)>, name: String, value: V)
    requires
        forall|i: int| 0 <= i < entries.len() ==> entries[i].0@ != name@,
    ensures
        map_of(entries.push((name, value))) == map_of(entries).insert(name@, value),
{
    let after = entries.push((name, value));
    let last = entries.len() as int;
    let target = map_of(entries).insert(name@, value);
    lemma_absent(entries, name@);
    assert(first_at(after, name@, last));
    lemma_found(after, name@, last);
    assert forall|k: Seq<char>| holds(after, k) == target.contains_key(k) && (holds(after, k)
        ==> value_of(after, k) == target[k]) by {
        if k != name@ {
            if holds(entries, k) {
                let p = choose|p: int| first_at(entries, k, p);
                assert(after[p].0@ == k);
                assert forall|j: int| 0 <= j < p implies after[j].0@ != k by {
                    assert(entries[j].0@ != k);
                }
                assert(first_at(after, k, p));
                lemma_found(entries, k, p);
                lemma_found(after, k, p);
            }
            if holds(after, k) {
                let p = choose|p: int| first_at(after, k, p);
                assert(p != last);
                assert(entries[p].0@ == k);
                assert forall|j: int| 0 <= j < p implies entries[j].0@ != k by {
                    assert(after[j].0@ != k);
                }
                assert(first_at(entries, k, p));
            }
        }
    }
    assert(map_of(after) =~= target);
}

impl<V> Table<V> {
    /// The table as a map from names to values.
    pub closed spec fn map(self) -> Map<Seq<char>, V> {
        map_of(self.entries@)
    }

    /// An empty table.
    pub fn new() -> (t: Self)
        ensures
            t.map() == Map::<Seq<char>, V>::empty(),
    {
        let t = Table { entries: Vec::new() };
        assert(t.map() =~= Map::<Seq<char>, V>::empty());
        t
    }

    /// The first position that holds `name`, if there is one.
    fn find(&self, name: &String) -> (at: Option<usize>)
        ensures
            match at {
                Some(i) => first_at(self.entries@, name@, i as int),
                None => forall|i: int| 0 <= i < self.entries.len() ==> self.entries[i].0@ != name@,
            },
    {
        let mut i: usize = 0;
        while i < self.entries.len()
            invariant
                i <= self.entries.len(),
                forall|j: int| 0 <= j < i ==> self.entries[j].0@ != name@,
            decreases self.entries.len() - i,
        {
            if self.entries[i].0 == *name {
                return Some(i);
            }
            i = i + 1;
        }
        None
    }

    /// The value that the table holds for `name`, if it holds one.
    pub fn get(&self, name: &String) -> (r: Option<&V>)
        ensures
            match r {
                Some(value) => self.map().contains_key(name@) && self.map()[name@] == *value,
                None => !self.map().contains_key(name@),
            },
    {
        match self.find(name) {
            Some(i) => {
                proof {
                    lemma_found(self.entries@, name@, i as int);
                }
                Some(&self.entries[i].1)
            },
            None => {
                proof {
                    lemma_absent(self.entries@, name@);
                }
                None
            },
        }
    }

    /// Whether the table holds a value for `name`.
    pub fn contains_key(&self, name: &String) -> (b: bool)
        ensures
            b == self.map().contains_key(name@),
    {
        self.get(name).is_some()
    }

    /// Binds `name` to `value`, whatever it was bound to before.
    pub fn insert(&mut self, name: String, value: V)
        ensures
            final(self).map() == old(self).map().insert(name@, value),
    {
        match self.find(&name) {
            Some(i) => {
                proof {
                    lemma_replace(self.entries@, i as int, name, value);
                }
                self.entries.set(i, (name, value));
            },
            None => {
                proof {
                    lemma_add(self.entries@, name, value);
                }
                self.entries.push((name, value));
            },
        }
    }
}

} // verus!
