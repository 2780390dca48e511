//! A map keyed by strings, kept as a list of entries with distinct keys.

use vstd::prelude::*;

verus! {

/// Whether no two entries share a key.
pub open spec fn keys_distinct<V>(s: Seq<(String, V)>) -> bool {
    forall|i: int, j: int| 0 <= i < j < s.len() ==> s[i].0@ != s[j].0@
}

/// The map that a list of entries describes.
pub open spec fn map_of<V>(s: Seq<(String, V)>) -> Map<Seq<char>, V>
    decreases s.len(),
{
    if s.len() == 0 {
        Map::empty()
    } else {
        map_of(s.drop_last()).insert(s.last().0@, s.last().1)
    }
}

/// The keys of a list of entries, in order.
pub open spec fn keys_of<V>(s: Seq<(String, V)>) -> Seq<Seq<char>> {
    s.map_values(|e: (String, V)| e.0@)
}

/// The values of a list of entries, in order.
pub open spec fn values_of<V>(s: Seq<(String, V)>) -> Seq<V> {
    s.map_values(|e: (String, V)| e.1)
}

pub proof fn lemma_map_of<V>(s: Seq<(String, V)>)
    requires
        keys_distinct(s),
    ensures
        forall|k: Seq<char>| #[trigger]
            map_of(s).contains_key(k) <==> exists|i: int| 0 <= i < s.len() && s[i].0@ == k,
        forall|i: int| 0 <= i < s.len() ==> #[trigger] map_of(s)[s[i].0@] == s[i].1,
        map_of(s).dom().finite(),
        map_of(s).dom().len() == s.len(),
    decreases s.len(),
{
    if s.len() > 0 {
        let t = s.drop_last();
        lemma_map_of(t);
        assert forall|k: Seq<char>| #[trigger]
            map_of(s).contains_key(k) <==> exists|i: int| 0 <= i < s.len() && s[i].0@ == k by {
            if map_of(s).contains_key(k) && k != s.last().0@ {
                let i = choose|i: int| 0 <= i < t.len() && t[i].0@ == k;
                assert(s[i].0@ == k);
            }
            if exists|i: int| 0 <= i < s.len() && s[i].0@ == k {
                let i = choose|i: int| 0 <= i < s.len() && s[i].0@ == k;
                if i < t.len() {
                    assert(t[i].0@ == k);
                }
            }
        }
        assert forall|i: int| 0 <= i < s.len() implies #[trigger] map_of(s)[s[i].0@] == s[i].1 by {
            if i < t.len() {
                assert(t[i] == s[i]);
                assert(s[i].0@ != s.last().0@);
            }
        }
        assert(!map_of(t).contains_key(s.last().0@)) by {
            if map_of(t).contains_key(s.last().0@) {
                let i = choose|i: int| 0 <= i < t.len() && t[i].0@ == s.last().0@;
                assert(s[i].0@ == s[s.len() - 1].0@);
            }
        }
    }
}

proof fn lemma_entries_agree<V>(s: Seq<(String, V)>)
    requires
        keys_distinct(s),
    ensures
        forall|k: Seq<char>| #[trigger] map_of(s).contains_key(k) <==> keys_of(s).contains(k),
        forall|i: int| 0 <= i < s.len() ==> #[trigger] map_of(s)[keys_of(s)[i]] == values_of(s)[i],
        forall|i: int, j: int| 0 <= i < j < s.len() ==> keys_of(s)[i] != keys_of(s)[j],
{
    lemma_map_of(s);
    assert forall|k: Seq<char>| #[trigger] map_of(s).contains_key(k) <==> keys_of(s).contains(k) by {
        if map_of(s).contains_key(k) {
            let i = choose|i: int| 0 <= i < s.len() && s[i].0@ == k;
            assert(keys_of(s)[i] == k);
        }
        if keys_of(s).contains(k) {
            let i = choose|i: int| 0 <= i < keys_of(s).len() && keys_of(s)[i] == k;
            assert(s[i].0@ == k);
        }
    }
    assert forall|i: int| 0 <= i < s.len() implies #[trigger] map_of(s)[keys_of(s)[i]] == values_of(s)[i] by {
        assert(map_of(s)[s[i].0@] == s[i].1);
    }
}

/// A map from strings to values; entries keep the order in which their
/// keys were first inserted.
#[derive(Debug)]
pub struct StrMap<V> {
    entries: Vec<(String, V)>,
}

impl<V> View for StrMap<V> {
    type V = Map<Seq<char>, V>;

    closed spec fn view(&self) -> Map<Seq<char>, V> {
        map_of(self.entries@)
    }
}

impl<V> StrMap<V> {
    #[verifier::type_invariant]
    spec fn inv(&self) -> bool {
        keys_distinct(self.entries@)
    }

    /// The keys, in entry order.
    pub closed spec fn key_seq(&self) -> Seq<Seq<char>> {
        keys_of(self.entries@)
    }

    /// The values, in entry order.
    pub closed spec fn value_seq(&self) -> Seq<V> {
        values_of(self.entries@)
    }

    /// States that the entry order agrees with the map: distinct keys, one
    /// entry per key, each with the key's value. (Does nothing at run time.)
    pub fn entries_agree(&self)
        ensures
            self.key_seq().len() == self.value_seq().len(),
            self.key_seq().len() == self@.dom().len(),
            self@.dom().finite(),
            forall|i: int, j: int|
                0 <= i < j < self.key_seq().len() ==> self.key_seq()[i] != self.key_seq()[j],
            forall|k: Seq<char>| #[trigger]
                self@.contains_key(k) <==> self.key_seq().contains(k),
            forall|i: int|
                0 <= i < self.key_seq().len() ==> #[trigger] self@[self.key_seq()[i]]
                    == self.value_seq()[i],
    {
        proof {
            use_type_invariant(self);
            lemma_map_of(self.entries@);
            lemma_entries_agree(self.entries@);
        }
    }

    /// An empty map.
    pub fn new() -> (m: Self)
        ensures
            m@ == Map::<Seq<char>, V>::empty(),
            m.key_seq().len() == 0,
            m.value_seq().len() == 0,
    {
        StrMap { entries: Vec::new() }
    }

    fn position(&self, key: &String) -> (r: Option<usize>)
        ensures
            match r {
                Some(i) => i < self.entries@.len() && self.entries@[i as int].0@ == key@,
                None => forall|i: int| 0 <= i < self.entries@.len() ==> self.entries@[i].0@ != key@,
            },
    {
        let mut i: usize = 0;
        while i < self.entries.len()
            invariant
                i <= self.entries@.len(),
                forall|j: int| 0 <= j < i ==> self.entries@[j].0@ != key@,
            decreases self.entries@.len() - i,
        {
            if self.entries[i].0 == *key {
                return Some(i);
            }
            i = i + 1;
        }
        None
    }

    /// The number of entries.
    pub fn len(&self) -> (n: usize)
        ensures
            n == self@.dom().len(),
            n == self.key_seq().len(),
    {
        proof {
            use_type_invariant(self);
            lemma_map_of(self.entries@);
        }
        self.entries.len()
    }

    /// Whether `key` has an entry.
    pub fn contains_key(&self, key: &str) -> (b: bool)
        ensures
            b == self@.contains_key(key@),
    {
        proof {
            use_type_invariant(self);
            lemma_map_of(self.entries@);
        }
        let k = key.to_owned();
        self.position(&k).is_some()
    }

    /// The value of `key`, if it has one.
    pub fn get(&self, key: &str) -> (r: Option<&V>)
        ensures
            match r {
                Some(v) => self@.contains_key(key@) && *v == self@[key@],
                None => !self@.contains_key(key@),
            },
    {
        proof {
            use_type_invariant(self);
            lemma_map_of(self.entries@);
        }
        let k = key.to_owned();
        match self.position(&k) {
            Some(i) => Some(&self.entries[i].1),
            None => None,
        }
    }

    /// Sets the value of `key`, replacing any earlier value; a new key goes
    /// after the existing ones.
    pub fn insert(&mut self, key: String, value: V)
        ensures
            final(self)@ == old(self)@.insert(key@, value),
            old(self)@.contains_key(key@) ==> final(self).key_seq() == old(self).key_seq(),
            !old(self)@.contains_key(key@) ==> final(self).key_seq() == old(self).key_seq().push(
                key@,
            ),
            !old(self)@.contains_key(key@) ==> final(self).value_seq() == old(self).value_seq().push(value),
            old(self)@.contains_key(key@) ==> exists|i: int|
                0 <= i < old(self).key_seq().len() && old(self).key_seq()[i] == key@ && final(self).value_seq() == old(self).value_seq().update(i, value),
    {
        proof {
            use_type_invariant(&*self);
            lemma_map_of(self.entries@);
        }
        match self.position(&key) {
            Some(i) => {
                let ghost k = key@;
                let ghost old_entries = self.entries@;
                let mut entries: Vec<(String, V)> = Vec::new();
                std::mem::swap(&mut entries, &mut self.entries);
                entries.set(i, (key, value));
                proof {
                    assert(keys_distinct(entries@)) by {
                        assert forall|a: int, b: int|
                            0 <= a < b < entries@.len() implies entries@[a].0@
                            != entries@[b].0@ by {
                            assert(old_entries[a].0@ != old_entries[b].0@);
                        }
                    }
                    lemma_map_of(entries@);
                    lemma_map_of(old_entries);
                    assert forall|q: Seq<char>| #[trigger]
                        map_of(entries@).contains_key(q) <==> map_of(old_entries).insert(
                            k,
                            value,
                        ).contains_key(q) by {
                        if map_of(entries@).contains_key(q) {
                            let a = choose|a: int| 0 <= a < entries@.len() && entries@[a].0@ == q;
                            if a != i {
                                assert(old_entries[a].0@ == q);
                            }
                        }
                        if map_of(old_entries).contains_key(q) {
                            let a = choose|a: int| 0 <= a < old_entries.len() && old_entries[a].0@ == q;
                            if a != i {
                                assert(entries@[a].0@ == q);
                            }
                        }
                        if q == k {
                            assert(entries@[i as int].0@ == q);
                        }
                    }
                    assert forall|q: Seq<char>| #[trigger]
                        map_of(entries@).contains_key(q) implies map_of(entries@)[q] == map_of(
                            old_entries,
                        ).insert(k, value)[q] by {
                        let a = choose|a: int| 0 <= a < entries@.len() && entries@[a].0@ == q;
                        if a != i {
                            assert(old_entries[a] == entries@[a]);
                            assert(q != k);
                        }
                    }
                    assert(map_of(entries@) =~= map_of(old_entries).insert(k, value));
                    assert(keys_of(entries@) =~= keys_of(old_entries));
                    assert(values_of(entries@) =~= values_of(old_entries).update(i as int, value));
                    assert(keys_of(old_entries)[i as int] == k);
                }
                self.entries = entries;
                assert(0 <= i < old(self).key_seq().len() && old(self).key_seq()[i as int] == key@
                    && self.value_seq() == old(self).value_seq().update(i as int, value));
            },
            None => {
                let ghost old_entries = self.entries@;
                let mut entries: Vec<(String, V)> = Vec::new();
                std::mem::swap(&mut entries, &mut self.entries);
                entries.push((key, value));
                proof {
                    assert(entries@.drop_last() =~= old_entries);
                    assert(keys_of(entries@) =~= keys_of(old_entries).push(entries@.last().0@));
                    assert(values_of(entries@) =~= values_of(old_entries).push(entries@.last().1));
                }
                self.entries = entries;
            },
        }
    }

    /// Removes the entry of `key`, returning its value.
    pub fn remove(&mut self, key: &str) -> (r: Option<V>)
        ensures
            final(self)@ == old(self)@.remove(key@),
            match r {
                Some(v) => old(self)@.contains_key(key@) && v == old(self)@[key@],
                None => !old(self)@.contains_key(key@),
            },
            r is None ==> final(self).key_seq() == old(self).key_seq() && final(self).value_seq()
                == old(self).value_seq(),
            r is Some ==> exists|i: int|
                0 <= i < old(self).key_seq().len() && old(self).key_seq()[i] == key@ && final(self).key_seq() == old(self).key_seq().remove(i) && final(self).value_seq() == old(self).value_seq().remove(i),
    {
        proof {
            use_type_invariant(&*self);
            lemma_map_of(self.entries@);
        }
        let k = key.to_owned();
        match self.position(&k) {
            Some(i) => {
                let ghost old_entries = self.entries@;
                let mut entries: Vec<(String, V)> = Vec::new();
                std::mem::swap(&mut entries, &mut self.entries);
                let (_, v) = entries.remove(i);
                proof {
                    assert(keys_distinct(entries@)) by {
                        assert forall|a: int, b: int|
                            0 <= a < b < entries@.len() implies entries@[a].0@
                            != entries@[b].0@ by {
                            if a < i {
                                if b < i {
                                    assert(old_entries[a].0@ != old_entries[b].0@);
                                } else {
                                    assert(old_entries[a].0@ != old_entries[b + 1].0@);
                                }
                            } else {
                                assert(old_entries[a + 1].0@ != old_entries[b + 1].0@);
                            }
                        }
                    }
                    lemma_map_of(entries@);
                    lemma_map_of(old_entries);
                    assert(map_of(entries@) =~= map_of(old_entries).remove(key@)) by {
                        assert forall|q: Seq<char>| #[trigger]
                            map_of(entries@).contains_key(q) <==> map_of(
                                old_entries,
                            ).remove(key@).contains_key(q) by {
                            if map_of(entries@).contains_key(q) {
                                let a = choose|a: int|
                                    0 <= a < entries@.len() && entries@[a].0@ == q;
                                if a < i {
                                    assert(old_entries[a].0@ == q);
                                    assert(old_entries[a].0@ != old_entries[i as int].0@);
                                } else {
                                    assert(old_entries[a + 1].0@ == q);
                                    assert(old_entries[a + 1].0@ != old_entries[i as int].0@);
                                }
                            }
                            if map_of(old_entries).remove(key@).contains_key(q) {
                                let a = choose|a: int| 0 <= a < old_entries.len() && old_entries[a].0@ == q;
                                if a < i {
                                    assert(entries@[a].0@ == q);
                                } else if a > i {
                                    assert(entries@[a - 1].0@ == q);
                                }
                            }
                        }
                        assert forall|q: Seq<char>| #[trigger]
                            map_of(entries@).contains_key(q) implies map_of(entries@)[q]
                            == map_of(old_entries)[q] by {
                            let a = choose|a: int|
                                0 <= a < entries@.len() && entries@[a].0@ == q;
                            if a < i {
                                assert(old_entries[a] == entries@[a]);
                            } else {
                                assert(old_entries[a + 1] == entries@[a]);
                            }
                        }
                    }
                }
                proof {
                    assert(keys_of(entries@) =~= keys_of(old_entries).remove(i as int));
                    assert(values_of(entries@) =~= values_of(old_entries).remove(i as int));
                    assert(keys_of(old_entries)[i as int] == key@);
                }
                self.entries = entries;
                assert(0 <= i < old(self).key_seq().len() && old(self).key_seq()[i as int] == key@
                    && self.key_seq() == old(self).key_seq().remove(i as int) && self.value_seq()
                    == old(self).value_seq().remove(i as int));
                Some(v)
            },
            None => {
                proof {
                    assert(map_of(self.entries@).remove(key@) =~= map_of(self.entries@));
                }
                None
            },
        }
    }

    /// Removes every entry.
    pub fn clear(&mut self)
        ensures
            final(self)@ == Map::<Seq<char>, V>::empty(),
            final(self).key_seq().len() == 0,
            final(self).value_seq().len() == 0,
    {
        self.entries = Vec::new();
        proof {
            assert(self.entries@ =~= Seq::<(String, V)>::empty());
        }
    }

    /// References to the values, in entry order.
    pub fn values(&self) -> (r: Vec<&V>)
        ensures
            r@.len() == self.value_seq().len(),
            forall|i: int| 0 <= i < r@.len() ==> *r@[i] == self.value_seq()[i],
    {
        let mut r: Vec<&V> = Vec::new();
        let mut i: usize = 0;
        while i < self.entries.len()
            invariant
                i <= self.entries@.len(),
                r@.len() == i,
                forall|j: int| 0 <= j < i ==> *r@[j] == self.entries@[j].1,
            decreases self.entries@.len() - i,
        {
            r.push(&self.entries[i].1);
            i = i + 1;
        }
        r
    }

    /// The value at a position in entry order.
    pub fn value_at(&self, i: usize) -> (v: &V)
        requires
            i < self.value_seq().len(),
        ensures
            *v == self.value_seq()[i as int],
    {
        &self.entries[i].1
    }

    /// The key at a position in entry order.
    pub fn key_at(&self, i: usize) -> (k: &String)
        requires
            i < self.key_seq().len(),
        ensures
            k@ == self.key_seq()[i as int],
    {
        &self.entries[i].0
    }
}

} // verus!
