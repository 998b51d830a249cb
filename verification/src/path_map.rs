//! A map keyed by filesystem paths (held as strings).

use vstd::prelude::*;
use crate::json::str_eq;

verus! {

/// The value of the first entry whose key is `key`.
pub open spec fn lookup_in<T>(entries: Seq<(String, T)>, key: Seq<char>) -> Option<T>
    decreases entries.len(),
{
    if entries.len() == 0 {
        None
    } else if entries[0].0@ == key {
        Some(entries[0].1)
    } else {
        lookup_in(entries.drop_first(), key)
    }
}

proof fn lemma_lookup_push<T>(entries: Seq<(String, T)>, k: String, v: T, key: Seq<char>)
    requires lookup_in(entries, k@) is None,
    ensures lookup_in(entries.push((k, v)), key) == if key == k@ { Some(v) } else { lookup_in(entries, key) },
    decreases entries.len(),
{
    if entries.len() == 0 {
        assert(entries.push((k, v))[0] == (k, v));
        assert(entries.push((k, v)).drop_first() =~= Seq::<(String, T)>::empty());
        assert(lookup_in(entries.push((k, v)).drop_first(), key) is None);
        assert(lookup_in(entries, key) is None);
    } else {
        assert(entries.push((k, v))[0] == entries[0]);
        assert(entries.push((k, v)).drop_first() =~= entries.drop_first().push((k, v)));
        assert(entries[0].0@ != k@);
        lemma_lookup_push(entries.drop_first(), k, v, key);
        assert(lookup_in(entries.push((k, v)), key) == if entries[0].0@ == key { Some(entries[0].1) } else { lookup_in(entries.drop_first().push((k, v)), key) });
    }
}

proof fn lemma_lookup_update<T>(entries: Seq<(String, T)>, i: int, v: T, key: Seq<char>)
    requires
        0 <= i < entries.len(),
        forall|j: int| 0 <= j < i ==> entries[j].0@ != entries[i].0@,
    ensures
        lookup_in(entries.update(i, (entries[i].0, v)), key)
            == if key == entries[i].0@ { Some(v) } else { lookup_in(entries, key) },
    decreases entries.len(),
{
    let u = entries.update(i, (entries[i].0, v));
    if i > 0 {
        assert(u[0] == entries[0]);
        assert(u.drop_first() =~= entries.drop_first().update(i - 1, (entries[i].0, v)));
        assert(entries[0].0@ != entries[i].0@);
        lemma_lookup_update(entries.drop_first(), i - 1, v, key);
    } else {
        assert(u[0] == (entries[0].0, v));
        assert(u.drop_first() =~= entries.drop_first());
    }
}

/// A map from paths to values (a `HashMap<PathBuf, T>`).
pub struct PathMap<T> {
    entries: Vec<(String, T)>,
}

impl<T> PathMap<T> {
    /// The value stored under `key`.
    pub closed spec fn lookup(&self, key: Seq<char>) -> Option<T> {
        lookup_in(self.entries@, key)
    }

    /// An empty map.
    pub fn new() -> (r: Self)
        ensures forall|k: Seq<char>| #[trigger] r.lookup(k) is None,
    {
        PathMap { entries: Vec::new() }
    }

    fn position(&self, key: &str) -> (r: Option<usize>)
        ensures
            match r {
                Some(i) => i < self.entries@.len() && self.entries@[i as int].0@ == key@
                    && forall|j: int| 0 <= j < i ==> self.entries@[j].0@ != key@,
                None => forall|j: int| 0 <= j < self.entries@.len() ==> self.entries@[j].0@ != key@,
            },
    {
        let mut i: usize = 0;
        while i < self.entries.len()
            invariant
                i <= self.entries@.len(),
                forall|j: int| 0 <= j < i ==> self.entries@[j].0@ != key@,
            decreases self.entries.len() - i,
        {
            if str_eq(self.entries[i].0.as_str(), key) {
                return Some(i);
            }
            i = i + 1;
        }
        None
    }

    proof fn lemma_lookup_at(entries: Seq<(String, T)>, key: Seq<char>, i: int)
        requires
            0 <= i <= entries.len(),
            forall|j: int| 0 <= j < i ==> entries[j].0@ != key,
        ensures
            lookup_in(entries, key) == if i < entries.len() && entries[i].0@ == key {
                Some(entries[i].1)
            } else {
                lookup_in(entries.skip(i), key)
            },
        decreases i,
    {
        if i == 0 {
            assert(entries.skip(0) =~= entries);
        } else {
            Self::lemma_lookup_at(entries.drop_first(), key, i - 1);
            assert(entries.drop_first().skip(i - 1) =~= entries.skip(i));
        }
    }

    /// The value stored under `key`.
    pub fn get(&self, key: &str) -> (r: Option<&T>)
        ensures
            match r {
                Some(v) => self.lookup(key@) == Some(*v),
                None => self.lookup(key@) is None,
            },
    {
        match self.position(key) {
            Some(i) => {
                proof { Self::lemma_lookup_at(self.entries@, key@, i as int); }
                Some(&self.entries[i].1)
            },
            None => {
                proof {
                    Self::lemma_lookup_at(self.entries@, key@, self.entries@.len() as int);
                    assert(self.entries@.skip(self.entries@.len() as int) =~= Seq::<(String, T)>::empty());
                }
                None
            },
        }
    }

    /// Whether some value is stored under `key`.
    pub fn contains_key(&self, key: &str) -> (r: bool)
        ensures r == self.lookup(key@) is Some,
    {
        self.get(key).is_some()
    }

    /// Stores `value` under `key`, replacing any value stored there.
    pub fn insert(&mut self, key: String, value: T)
        ensures
            final(self).lookup(key@) == Some(value),
            forall|k: Seq<char>| k != key@ ==> #[trigger] final(self).lookup(k) == old(self).lookup(k),
    {
        match self.position(key.as_str()) {
            Some(i) => {
                let ghost before = self.entries@;
                let ghost k0 = self.entries@[i as int].0;
                let entry = (self.entries[i].0.clone(), value);
                self.entries.set(i, entry);
                assert(self.entries@ == before.update(i as int, (k0, entry.1)));
                proof {
                    assert forall|k: Seq<char>| true implies #[trigger] lookup_in(self.entries@, k)
                        == if k == k0@ { Some(entry.1) } else { lookup_in(before, k) } by {
                        lemma_lookup_update(before, i as int, entry.1, k);
                    }
                }
            },
            None => {
                let ghost before = self.entries@;
                proof {
                    Self::lemma_lookup_at(before, key@, before.len() as int);
                    assert(before.skip(before.len() as int) =~= Seq::<(String, T)>::empty());
                }
                let ghost k0 = key;
                let ghost v0 = value;
                self.entries.push((key, value));
                proof {
                    assert forall|k: Seq<char>| true implies #[trigger] lookup_in(self.entries@, k)
                        == if k == k0@ { Some(v0) } else { lookup_in(before, k) } by {
                        lemma_lookup_push(before, k0, v0, k);
                    }
                }
            },
        }
    }
}

} // verus!
