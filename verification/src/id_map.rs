//! A map keyed by node ids, kept as a list of entries with distinct ids in
//! the order their ids were first inserted.

use vstd::prelude::*;
use crate::dom::NodeId;

verus! {

/// Whether no two entries share an id.
pub open spec fn ids_distinct<V>(s: Seq<(NodeId, V)>) -> bool {
    forall|i: int, j: int| 0 <= i < j < s.len() ==> s[i].0 != s[j].0
}

/// The map that a list of entries describes.
pub open spec fn id_map_of<V>(s: Seq<(NodeId, V)>) -> Map<NodeId, V>
    decreases s.len(),
{
    if s.len() == 0 {
        Map::empty()
    } else {
        id_map_of(s.drop_last()).insert(s.last().0, s.last().1)
    }
}

/// The ids of a list of entries, in order.
pub open spec fn ids_of<V>(s: Seq<(NodeId, V)>) -> Seq<NodeId> {
    s.map_values(|e: (NodeId, V)| e.0)
}

/// What `id_map_of` holds of a list with distinct ids.
pub proof fn lemma_id_map_of<V>(s: Seq<(NodeId, V)>)
    requires
        ids_distinct(s),
    ensures
        forall|k: NodeId| #[trigger]
            id_map_of(s).contains_key(k) <==> exists|i: int| 0 <= i < s.len() && s[i].0 == k,
        forall|i: int| 0 <= i < s.len() ==> #[trigger] id_map_of(s)[s[i].0] == s[i].1,
        id_map_of(s).dom().finite(),
        id_map_of(s).dom().len() == s.len(),
    decreases s.len(),
{
    if s.len() > 0 {
        let t = s.drop_last();
        lemma_id_map_of(t);
        assert forall|k: NodeId| #[trigger]
            id_map_of(s).contains_key(k) <==> exists|i: int| 0 <= i < s.len() && s[i].0 == k by {
            if id_map_of(s).contains_key(k) && k != s.last().0 {
                let i = choose|i: int| 0 <= i < t.len() && t[i].0 == k;
                assert(s[i].0 == k);
            }
            if exists|i: int| 0 <= i < s.len() && s[i].0 == k {
                let i = choose|i: int| 0 <= i < s.len() && s[i].0 == k;
                if i < t.len() {
                    assert(t[i].0 == k);
                }
            }
        }
        assert forall|i: int| 0 <= i < s.len() implies #[trigger] id_map_of(s)[s[i].0] == s[i].1 by {
            if i < t.len() {
                assert(t[i] == s[i]);
                assert(s[i].0 != s.last().0);
            }
        }
        assert(!id_map_of(t).contains_key(s.last().0)) by {
            if id_map_of(t).contains_key(s.last().0) {
                let i = choose|i: int| 0 <= i < t.len() && t[i].0 == s.last().0;
                assert(s[i].0 == s[s.len() - 1].0);
            }
        }
    }
}

/// A map from node ids to values.
#[derive(Debug)]
pub struct IdMap<V> {
    entries: Vec<(NodeId, V)>,
}

impl<V> View for IdMap<V> {
    type V = Map<NodeId, V>;

    closed spec fn view(&self) -> Map<NodeId, V> {
        id_map_of(self.entries@)
    }
}

impl<V> IdMap<V> {
    #[verifier::type_invariant]
    spec fn inv(&self) -> bool {
        ids_distinct(self.entries@)
    }

    /// The ids, in entry order.
    pub closed spec fn id_seq(&self) -> Seq<NodeId> {
        ids_of(self.entries@)
    }

    /// An empty map.
    pub fn new() -> (m: Self)
        ensures
            m@ == Map::<NodeId, V>::empty(),
            m.id_seq().len() == 0,
    {
        IdMap { entries: Vec::new() }
    }

    fn position(&self, key: NodeId) -> (r: Option<usize>)
        ensures
            match r {
                Some(i) => i < self.entries@.len() && self.entries@[i as int].0 == key,
                None => forall|i: int| 0 <= i < self.entries@.len() ==> self.entries@[i].0 != key,
            },
    {
        let mut i: usize = 0;
        while i < self.entries.len()
            invariant
                i <= self.entries@.len(),
                forall|j: int| 0 <= j < i ==> self.entries@[j].0 != key,
            decreases self.entries@.len() - i,
        {
            if self.entries[i].0 == key {
                return Some(i);
            }
            i = i + 1;
        }
        None
    }

    /// The number of entries.
    pub fn len(&self) -> (n: usize)
        ensures
            n == self@.dom().len(),
            n == self.id_seq().len(),
    {
        proof {
            use_type_invariant(self);
            lemma_id_map_of(self.entries@);
        }
        self.entries.len()
    }

    /// Whether `key` has an entry.
    pub fn contains_key(&self, key: NodeId) -> (b: bool)
        ensures
            b == self@.contains_key(key),
    {
        proof {
            use_type_invariant(self);
            lemma_id_map_of(self.entries@);
        }
        self.position(key).is_some()
    }

    /// The value of `key`, if it has one.
    pub fn get(&self, key: NodeId) -> (r: Option<&V>)
        ensures
            match r {
                Some(v) => self@.contains_key(key) && *v == self@[key],
                None => !self@.contains_key(key),
            },
    {
        proof {
            use_type_invariant(self);
            lemma_id_map_of(self.entries@);
        }
        match self.position(key) {
            Some(i) => Some(&self.entries[i].1),
            None => None,
        }
    }

    /// Sets the value of `key`, replacing any earlier value; a new id goes
    /// after the existing ones.
    pub fn insert(&mut self, key: NodeId, value: V)
        ensures
            final(self)@ == old(self)@.insert(key, value),
            old(self)@.contains_key(key) ==> final(self).id_seq() == old(self).id_seq(),
            !old(self)@.contains_key(key) ==> final(self).id_seq() == old(self).id_seq().push(key),
    {
        proof {
            use_type_invariant(&*self);
            lemma_id_map_of(self.entries@);
        }
        let ghost old_entries = self.entries@;
        let mut entries: Vec<(NodeId, V)> = Vec::new();
        std::mem::swap(&mut entries, &mut self.entries);
        match self.position_in(&entries, key) {
            Some(i) => {
                entries.set(i, (key, value));
                proof {
                    assert(ids_distinct(entries@)) by {
                        assert forall|a: int, b: int| 0 <= a < b < entries@.len() implies entries@[a].0
                            != entries@[b].0 by {
                            assert(old_entries[a].0 != old_entries[b].0);
                        }
                    }
                    lemma_id_map_of(entries@);
                    assert forall|q: NodeId| #[trigger]
                        id_map_of(entries@).contains_key(q) <==> id_map_of(old_entries).insert(
                            key,
                            value,
                        ).contains_key(q) by {
                        if id_map_of(entries@).contains_key(q) {
                            let a = choose|a: int| 0 <= a < entries@.len() && entries@[a].0 == q;
                            if a != i {
                                assert(old_entries[a].0 == q);
                            }
                        }
                        if id_map_of(old_entries).contains_key(q) {
                            let a = choose|a: int| 0 <= a < old_entries.len() && old_entries[a].0 == q;
                            if a != i {
                                assert(entries@[a].0 == q);
                            }
                        }
                        if q == key {
                            assert(entries@[i as int].0 == q);
                        }
                    }
                    assert forall|q: NodeId| #[trigger]
                        id_map_of(entries@).contains_key(q) implies id_map_of(entries@)[q]
                        == id_map_of(old_entries).insert(key, value)[q] by {
                        let a = choose|a: int| 0 <= a < entries@.len() && entries@[a].0 == q;
                        if a != i {
                            assert(old_entries[a] == entries@[a]);
                        }
                    }
                    assert(id_map_of(entries@) =~= id_map_of(old_entries).insert(key, value));
                    assert(ids_of(entries@) =~= ids_of(old_entries));
                }
            },
            None => {
                entries.push((key, value));
                proof {
                    assert(entries@.drop_last() =~= old_entries);
                    assert(ids_of(entries@) =~= ids_of(old_entries).push(key));
                }
            },
        }
        self.entries = entries;
    }

    fn position_in(&self, entries: &Vec<(NodeId, V)>, key: NodeId) -> (r: Option<usize>)
        ensures
            match r {
                Some(i) => i < entries@.len() && entries@[i as int].0 == key,
                None => forall|i: int| 0 <= i < entries@.len() ==> entries@[i].0 != key,
            },
    {
        let mut i: usize = 0;
        while i < entries.len()
            invariant
                i <= entries@.len(),
                forall|j: int| 0 <= j < i ==> entries@[j].0 != key,
            decreases entries@.len() - i,
        {
            if entries[i].0 == key {
                return Some(i);
            }
            i = i + 1;
        }
        None
    }

    /// Removes the entry of `key`, if any; the other ids keep their order.
    pub fn remove(&mut self, key: NodeId)
        ensures
            final(self)@ == old(self)@.remove(key),
            final(self).id_seq() == without_id(old(self).id_seq(), key),
    {
        proof {
            use_type_invariant(&*self);
            lemma_id_map_of(self.entries@);
        }
        let ghost old_entries = self.entries@;
        let mut entries: Vec<(NodeId, V)> = Vec::new();
        std::mem::swap(&mut entries, &mut self.entries);
        match self.position_in(&entries, key) {
            Some(i) => {
                let _ = entries.remove(i);
                proof {
                    assert(ids_distinct(entries@)) by {
                        assert forall|a: int, b: int| 0 <= a < b < entries@.len() implies entries@[a].0
                            != entries@[b].0 by {
                            if a < i {
                                if b < i {
                                    assert(old_entries[a].0 != old_entries[b].0);
                                } else {
                                    assert(old_entries[a].0 != old_entries[b + 1].0);
                                }
                            } else {
                                assert(old_entries[a + 1].0 != old_entries[b + 1].0);
                            }
                        }
                    }
                    lemma_id_map_of(entries@);
                    assert forall|q: NodeId| #[trigger]
                        id_map_of(entries@).contains_key(q) <==> id_map_of(old_entries).remove(
                            key,
                        ).contains_key(q) by {
                        if id_map_of(entries@).contains_key(q) {
                            let a = choose|a: int| 0 <= a < entries@.len() && entries@[a].0 == q;
                            if a < i {
                                assert(old_entries[a].0 == q);
                                assert(old_entries[a].0 != old_entries[i as int].0);
                            } else {
                                assert(old_entries[a + 1].0 == q);
                                assert(old_entries[a + 1].0 != old_entries[i as int].0);
                            }
                        }
                        if id_map_of(old_entries).remove(key).contains_key(q) {
                            let a = choose|a: int| 0 <= a < old_entries.len() && old_entries[a].0 == q;
                            if a < i {
                                assert(entries@[a].0 == q);
                            } else if a > i {
                                assert(entries@[a - 1].0 == q);
                            }
                        }
                    }
                    assert forall|q: NodeId| #[trigger]
                        id_map_of(entries@).contains_key(q) implies id_map_of(entries@)[q]
                        == id_map_of(old_entries)[q] by {
                        let a = choose|a: int| 0 <= a < entries@.len() && entries@[a].0 == q;
                        if a < i {
                            assert(old_entries[a] == entries@[a]);
                        } else {
                            assert(old_entries[a + 1] == entries@[a]);
                        }
                    }
                    assert(id_map_of(entries@) =~= id_map_of(old_entries).remove(key));
                    lemma_filter_out_one(ids_of(old_entries), i as int, key);
                    assert(ids_of(entries@) =~= ids_of(old_entries).remove(i as int));
                }
            },
            None => {
                proof {
                    assert(id_map_of(old_entries).remove(key) =~= id_map_of(old_entries));
                    lemma_filter_keeps_all(ids_of(old_entries), key);
                }
            },
        }
        self.entries = entries;
    }

    /// Removes every entry.
    pub fn clear(&mut self)
        ensures
            final(self)@ == Map::<NodeId, V>::empty(),
            final(self).id_seq().len() == 0,
    {
        self.entries = Vec::new();
        proof {
            assert(id_map_of(self.entries@) =~= Map::<NodeId, V>::empty());
        }
    }

    /// The ids, in entry order: each id with an entry exactly once.
    pub fn keys(&self) -> (r: Vec<NodeId>)
        ensures
            r@ == self.id_seq(),
            r@.no_duplicates(),
            forall|k: NodeId| #[trigger] r@.contains(k) <==> self@.contains_key(k),
    {
        proof {
            use_type_invariant(self);
            lemma_id_map_of(self.entries@);
        }
        let mut r: Vec<NodeId> = Vec::new();
        let mut i: usize = 0;
        while i < self.entries.len()
            invariant
                i <= self.entries@.len(),
                r@ == ids_of(self.entries@).take(i as int),
            decreases self.entries@.len() - i,
        {
            r.push(self.entries[i].0);
            proof {
                assert(ids_of(self.entries@).take(i + 1) =~= ids_of(self.entries@).take(i as int).push(
                    self.entries@[i as int].0,
                ));
            }
            i = i + 1;
        }
        proof {
            assert(r@ =~= ids_of(self.entries@));
            assert forall|k: NodeId| #[trigger] r@.contains(k) <==> self@.contains_key(k) by {
                if r@.contains(k) {
                    let a = choose|a: int| 0 <= a < r@.len() && r@[a] == k;
                    assert(self.entries@[a].0 == k);
                }
                if self@.contains_key(k) {
                    let a = choose|a: int| 0 <= a < self.entries@.len() && self.entries@[a].0 == k;
                    assert(r@[a] == k);
                }
            }
        }
        r
    }
}

/// A list of ids with every occurrence of `key` taken out.
pub open spec fn without_id(s: Seq<NodeId>, key: NodeId) -> Seq<NodeId>
    decreases s.len(),
{
    if s.len() == 0 {
        s
    } else if s.last() == key {
        without_id(s.drop_last(), key)
    } else {
        without_id(s.drop_last(), key).push(s.last())
    }
}

proof fn lemma_filter_out_one(s: Seq<NodeId>, i: int, key: NodeId)
    requires
        0 <= i < s.len(),
        s[i] == key,
        forall|a: int, b: int| 0 <= a < b < s.len() ==> s[a] != s[b],
    ensures
        without_id(s, key) == s.remove(i),
    decreases s.len(),
{
    if i == s.len() - 1 {
        lemma_filter_keeps_all(s.drop_last(), key);
        assert(s.remove(i) =~= s.drop_last());
    } else {
        assert(s.last() != key);
        lemma_filter_out_one(s.drop_last(), i, key);
        assert(s.remove(i) =~= s.drop_last().remove(i).push(s.last()));
    }
}

proof fn lemma_filter_keeps_all(s: Seq<NodeId>, key: NodeId)
    requires
        forall|a: int| 0 <= a < s.len() ==> s[a] != key,
    ensures
        without_id(s, key) == s,
    decreases s.len(),
{
    if s.len() > 0 {
        lemma_filter_keeps_all(s.drop_last(), key);
        assert(s.drop_last().push(s.last()) =~= s);
    }
}

} // verus!
