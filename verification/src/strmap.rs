//! A string-keyed map that keeps its entries in insertion order.
use vstd::prelude::*;
use crate::strings::to_owned_string;

verus! {

/// A map from strings to values. Keys are compared by their characters; each
/// key occurs once; entries keep the order of their first insertion.
pub struct StrMap<V> {
    entries: Vec<(String, V)>,
    contents: Ghost<Map<Seq<char>, V>>,
}

spec fn entries_inv<V>(entries: Seq<(String, V)>, contents: Map<Seq<char>, V>) -> bool {
    &&& forall|i: int, j: int|
        0 <= i < j < entries.len() ==> (#[trigger] entries[i]).0@ != (#[trigger] entries[j]).0@
    &&& forall|i: int|
        0 <= i < entries.len() ==> contents.contains_key((#[trigger] entries[i]).0@)
            && contents[entries[i].0@] == entries[i].1
    &&& forall|k: Seq<char>|
        #[trigger] contents.contains_key(k) ==> exists|i: int|
            0 <= i < entries.len() && (#[trigger] entries[i]).0@ == k
}

impl<V> StrMap<V> {
    #[verifier::type_invariant]
    spec fn inv(self) -> bool {
        entries_inv(self.entries@, self.contents@)
    }

    /// The keys in insertion order.
    pub closed spec fn keys(&self) -> Seq<Seq<char>> {
        self.entries@.map_values(|e: (String, V)| e.0@)
    }

    /// The values in insertion order.
    pub closed spec fn values(&self) -> Seq<V> {
        self.entries@.map_values(|e: (String, V)| e.1)
    }

    /// An empty map.
    pub fn new() -> (m: Self)
        ensures
            m@ == Map::<Seq<char>, V>::empty(),
            m.keys().len() == 0,
    {
        StrMap { entries: Vec::new(), contents: Ghost(Map::empty()) }
    }

    /// The number of entries, with the facts that link the ordered entries
    /// to the map view.
    pub fn len(&self) -> (n: usize)
        ensures
            n == self.keys().len(),
            n == self.values().len(),
            forall|i: int|
                0 <= i < self.keys().len() ==> self@.contains_key(#[trigger] self.keys()[i])
                    && self@[self.keys()[i]] == self.values()[i],
            forall|k: Seq<char>|
                #[trigger] self@.contains_key(k) ==> exists|i: int|
                    0 <= i < self.keys().len() && self.keys()[i] == k,
            forall|i: int, j: int|
                0 <= i < j < self.keys().len() ==> self.keys()[i] != self.keys()[j],
    {
        proof {
            use_type_invariant(self);
            assert forall|k: Seq<char>| #[trigger] self@.contains_key(k) implies exists|i: int|
                0 <= i < self.keys().len() && self.keys()[i] == k by {
                let i = choose|i: int|
                    0 <= i < self.entries@.len() && (#[trigger] self.entries@[i]).0@ == k;
                assert(self.keys()[i] == k);
            }
            assert forall|i: int, j: int| 0 <= i < j < self.keys().len() implies self.keys()[i]
                != self.keys()[j] by {
                assert(self.keys()[i] == self.entries@[i].0@);
                assert(self.keys()[j] == self.entries@[j].0@);
            }
        }
        self.entries.len()
    }

    /// The entry at position `i`.
    pub fn entry_at(&self, i: usize) -> (r: (&String, &V))
        requires
            i < self.keys().len(),
        ensures
            r.0@ == self.keys()[i as int],
            *r.1 == self.values()[i as int],
    {
        let e = &self.entries[i];
        (&e.0, &e.1)
    }

    fn index_of(&self, key: &String) -> (r: Option<usize>)
        ensures
            r matches Some(i) ==> i < self.entries@.len() && self.entries@[i as int].0@ == key@,
            r is None ==> !self@.contains_key(key@),
    {
        proof {
            use_type_invariant(self);
        }
        let mut i: usize = 0;
        while i < self.entries.len()
            invariant
                i <= self.entries@.len(),
                forall|j: int| 0 <= j < i ==> (#[trigger] self.entries@[j]).0@ != key@,
            decreases self.entries.len() - i,
        {
            if self.entries[i].0 == *key {
                return Some(i);
            }
            i += 1;
        }
        None
    }

    /// The value stored under `key`, if any.
    pub fn get(&self, key: &str) -> (r: Option<&V>)
        ensures
            r matches Some(v) ==> self@.contains_key(key@) && *v == self@[key@],
            r is None ==> !self@.contains_key(key@),
    {
        proof {
            use_type_invariant(self);
        }
        let k = to_owned_string(key);
        match self.index_of(&k) {
            Some(i) => Some(&self.entries[i].1),
            None => None,
        }
    }

    /// Whether `key` is present.
    pub fn contains_key(&self, key: &str) -> (r: bool)
        ensures
            r == self@.contains_key(key@),
    {
        self.get(key).is_some()
    }

    /// Stores `value` under `key`, replacing any earlier value; a new key goes last.
    pub fn insert(&mut self, key: String, value: V)
        ensures
            final(self)@ == old(self)@.insert(key@, value),
            old(self)@.contains_key(key@) ==> final(self).keys() == old(self).keys(),
            !old(self)@.contains_key(key@) ==> final(self).keys() == old(self).keys().push(key@),
    {
        let mut tmp = StrMap::new();
        std::mem::swap(&mut tmp, self);
        proof {
            use_type_invariant(&tmp);
        }
        let found = tmp.index_of(&key);
        let ghost kv = key@;
        let ghost old_map = tmp.contents@;
        let StrMap { mut entries, contents } = tmp;
        let ghost old_entries = entries@;
        let ghost new_contents = old_map.insert(kv, value);
        match found {
            Some(i) => {
                entries.set(i, (key, value));
                proof {
                    assert forall|j: int| 0 <= j < entries@.len() implies new_contents.contains_key(
                        (#[trigger] entries@[j]).0@,
                    ) && new_contents[entries@[j].0@] == entries@[j].1 by {
                        if j != i {
                            assert(old_entries[j] == entries@[j]);
                            assert(old_map.contains_key(old_entries[j].0@));
                        }
                    }
                    assert forall|k: Seq<char>| #[trigger] new_contents.contains_key(k) implies exists|
                        j: int,
                    | 0 <= j < entries@.len() && (#[trigger] entries@[j]).0@ == k by {
                        if k == kv {
                            assert(entries@[i as int].0@ == k);
                        } else {
                            let j = choose|j: int|
                                0 <= j < old_entries.len() && (#[trigger] old_entries[j]).0@ == k;
                            assert(entries@[j].0@ == k);
                        }
                    }
                    assert forall|a: int, b: int| 0 <= a < b < entries@.len() implies (#[trigger] entries@[a]).0@
                        != (#[trigger] entries@[b]).0@ by {
                        assert(old_entries[a].0@ != old_entries[b].0@);
                        assert(entries@[a].0@ == old_entries[a].0@);
                        assert(entries@[b].0@ == old_entries[b].0@);
                    }
                    assert(entries_inv(entries@, new_contents));
                }
                *self = StrMap { entries, contents: Ghost(new_contents) };
                proof {
                    assert(self.keys() =~= old(self).keys());
                }
            },
            None => {
                entries.push((key, value));
                proof {
                    let n = old_entries.len() as int;
                    assert forall|j: int| 0 <= j < entries@.len() implies new_contents.contains_key(
                        (#[trigger] entries@[j]).0@,
                    ) && new_contents[entries@[j].0@] == entries@[j].1 by {
                        if j < n {
                            assert(old_entries[j] == entries@[j]);
                            assert(old_map.contains_key(old_entries[j].0@));
                        }
                    }
                    assert forall|k: Seq<char>| #[trigger] new_contents.contains_key(k) implies exists|
                        j: int,
                    | 0 <= j < entries@.len() && (#[trigger] entries@[j]).0@ == k by {
                        if k == kv {
                            assert(entries@[n].0@ == k);
                        } else {
                            let j = choose|j: int|
                                0 <= j < old_entries.len() && (#[trigger] old_entries[j]).0@ == k;
                            assert(entries@[j].0@ == k);
                        }
                    }
                    assert forall|a: int, b: int| 0 <= a < b < entries@.len() implies (#[trigger] entries@[a]).0@
                        != (#[trigger] entries@[b]).0@ by {
                        if b == n {
                            assert(old_entries[a] == entries@[a]);
                            assert(old_map.contains_key(old_entries[a].0@));
                        } else {
                            assert(old_entries[a] == entries@[a]);
                            assert(old_entries[b] == entries@[b]);
                        }
                    }
                    assert(entries_inv(entries@, new_contents));
                }
                *self = StrMap { entries, contents: Ghost(new_contents) };
                proof {
                    assert(self.keys() =~= old(self).keys().push(kv));
                }
            },
        }
    }

    /// Removes every entry.
    pub fn clear(&mut self)
        ensures
            final(self)@ == Map::<Seq<char>, V>::empty(),
            final(self).keys().len() == 0,
    {
        *self = StrMap::new();
    }
}

impl<V> View for StrMap<V> {
    type V = Map<Seq<char>, V>;

    closed spec fn view(&self) -> Map<Seq<char>, V> {
        self.contents@
    }
}

} // verus!
