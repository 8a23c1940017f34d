//! A string-keyed map held as a list of distinct keys, viewed as a `Map`.
use vstd::prelude::*;
use crate::data::DeepCopy;
use crate::text::same_text;

verus! {

/// The map that a list of (key, value) pairs denotes; a later pair wins.
pub open spec fn map_of<V>(entries: Seq<(Seq<char>, V)>) -> Map<Seq<char>, V>
    decreases entries.len(),
{
    if entries.len() == 0 {
        Map::empty()
    } else {
        map_of(entries.drop_last()).insert(entries.last().0, entries.last().1)
    }
}

/// No key occurs twice.
pub open spec fn keys_distinct<V>(entries: Seq<(Seq<char>, V)>) -> bool {
    forall|i: int, j: int| 0 <= i < entries.len() && 0 <= j < entries.len() && i != j ==> #[trigger] entries[i].0 != #[trigger] entries[j].0
}

/// Views of the pairs of a list.
pub open spec fn entry_views<V: View>(entries: Seq<(String, V)>) -> Seq<(Seq<char>, V::V)> {
    entries.map_values(|e: (String, V)| (e.0@, e.1@))
}

/// With distinct keys, the map holds exactly the listed pairs.
pub proof fn lemma_map_of_lookup<V>(entries: Seq<(Seq<char>, V)>)
    requires
        keys_distinct(entries),
    ensures
        forall|i: int| 0 <= i < entries.len() ==> #[trigger] map_of(entries).contains_key(entries[i].0) && map_of(entries)[entries[i].0] == entries[i].1,
        forall|k: Seq<char>| #[trigger] map_of(entries).contains_key(k) ==> exists|i: int| 0 <= i < entries.len() && entries[i].0 == k,
    decreases entries.len(),
{
    if entries.len() > 0 {
        let init = entries.drop_last();
        assert(keys_distinct(init)) by {
            assert forall|i: int, j: int| 0 <= i < init.len() && 0 <= j < init.len() && i != j implies #[trigger] init[i].0 != #[trigger] init[j].0 by {
                assert(init[i] == entries[i] && init[j] == entries[j]);
            }
        }
        lemma_map_of_lookup(init);
        let last = entries[entries.len() - 1];
        assert(map_of(entries) == map_of(init).insert(last.0, last.1));
        assert forall|i: int| 0 <= i < entries.len() implies #[trigger] map_of(entries).contains_key(entries[i].0) && map_of(entries)[entries[i].0] == entries[i].1 by {
            if i < entries.len() - 1 {
                assert(init[i] == entries[i]);
                assert(entries[i].0 != last.0);
                assert(map_of(init).contains_key(init[i].0));
            }
        }
        assert forall|k: Seq<char>| #[trigger] map_of(entries).contains_key(k) implies exists|i: int| 0 <= i < entries.len() && entries[i].0 == k by {
            if k != entries.last().0 {
                assert(map_of(init).contains_key(k));
                let i = choose|i: int| 0 <= i < init.len() && init[i].0 == k;
                assert(entries[i] == init[i]);
            }
        }
    }
}

/// Replacing the value of an existing key is an insert into the map.
pub proof fn lemma_map_of_update<V>(entries: Seq<(Seq<char>, V)>, i: int, v: V)
    requires
        keys_distinct(entries),
        0 <= i < entries.len(),
    ensures
        map_of(entries.update(i, (entries[i].0, v))) == map_of(entries).insert(entries[i].0, v),
    decreases entries.len(),
{
    let upd = entries.update(i, (entries[i].0, v));
    let init = entries.drop_last();
    assert(keys_distinct(init)) by {
        assert forall|a: int, b: int| 0 <= a < init.len() && 0 <= b < init.len() && a != b implies #[trigger] init[a].0 != #[trigger] init[b].0 by {
            assert(init[a] == entries[a] && init[b] == entries[b]);
        }
    }
    if i == entries.len() - 1 {
        assert(upd.drop_last() =~= init);
        lemma_map_of_lookup(init);
        assert forall|j: int| 0 <= j < init.len() implies init[j].0 != entries[i].0 by {
            assert(init[j] == entries[j]);
        }
        assert(!map_of(init).contains_key(entries[i].0)) by {
            if map_of(init).contains_key(entries[i].0) {
                let j = choose|j: int| 0 <= j < init.len() && init[j].0 == entries[i].0;
            }
        }
        assert(map_of(upd) =~= map_of(entries).insert(entries[i].0, v));
    } else {
        lemma_map_of_update(init, i, v);
        assert(upd.drop_last() =~= init.update(i, (init[i].0, v)));
        assert(entries.last().0 != entries[i].0);
        assert(map_of(upd) =~= map_of(entries).insert(entries[i].0, v));
    }
}

/// A map from strings to values, keeping its keys distinct.
pub struct StrMap<V: View> {
    entries: Vec<(String, V)>,
}

impl<V: View> View for StrMap<V> {
    type V = Map<Seq<char>, V::V>;

    closed spec fn view(&self) -> Map<Seq<char>, V::V> {
        map_of(entry_views(self.entries@))
    }
}

impl<V: View> StrMap<V> {
    #[verifier::type_invariant]
    closed spec fn distinct(self) -> bool {
        keys_distinct(entry_views(self.entries@))
    }

    /// The keys, in insertion order.
    pub closed spec fn key_seq(self) -> Seq<Seq<char>> {
        entry_views(self.entries@).map_values(|p: (Seq<char>, V::V)| p.0)
    }

    /// An empty map.
    pub fn new() -> (m: Self)
        ensures
            m@ == Map::<Seq<char>, V::V>::empty(),
            m.key_seq() == Seq::<Seq<char>>::empty(),
    {
        let m = StrMap { entries: Vec::new() };
        assert(entry_views(m.entries@) =~= Seq::<(Seq<char>, V::V)>::empty());
        m
    }

    /// Position of `key`, if present.
    fn find(&self, key: &str) -> (r: Option<usize>)
        ensures
            match r {
                Some(i) => i < self.entries.len() && self.entries@[i as int].0@ == key@,
                None => forall|i: int| 0 <= i < self.entries.len() ==> #[trigger] self.entries@[i].0@ != key@,
            },
    {
        let mut i: usize = 0;
        while i < self.entries.len()
            invariant
                i <= self.entries.len(),
                forall|j: int| 0 <= j < i ==> #[trigger] self.entries@[j].0@ != key@,
            decreases self.entries.len() - i,
        {
            if same_text(self.entries[i].0.as_str(), key) {
                return Some(i);
            }
            i = i + 1;
        }
        None
    }

    proof fn lemma_view(&self)
        requires
            keys_distinct(entry_views(self.entries@)),
        ensures
            forall|i: int| 0 <= i < self.entries.len() ==> #[trigger] self@.contains_key(self.entries@[i].0@) && self@[self.entries@[i].0@] == self.entries@[i].1@,
            forall|k: Seq<char>| #[trigger] self@.contains_key(k) ==> exists|i: int| 0 <= i < self.entries.len() && self.entries@[i].0@ == k,
    {
        let ev = entry_views(self.entries@);
        lemma_map_of_lookup(ev);
        assert forall|i: int| 0 <= i < self.entries.len() implies #[trigger] self@.contains_key(self.entries@[i].0@) && self@[self.entries@[i].0@] == self.entries@[i].1@ by {
            assert(ev[i] == (self.entries@[i].0@, self.entries@[i].1@));
            assert(map_of(ev).contains_key(ev[i].0) && map_of(ev)[ev[i].0] == ev[i].1);
        }
        assert forall|k: Seq<char>| #[trigger] self@.contains_key(k) implies exists|i: int| 0 <= i < self.entries.len() && self.entries@[i].0@ == k by {
            let i = choose|i: int| 0 <= i < ev.len() && ev[i].0 == k;
            assert(ev[i].0 == self.entries@[i].0@);
        }
    }

    /// The value stored under `key`.
    pub fn get(&self, key: &str) -> (r: Option<&V>)
        ensures
            match r {
                Some(v) => self@.contains_key(key@) && self@[key@] == v@,
                None => !self@.contains_key(key@),
            },
    {
        proof { use_type_invariant(self); self.lemma_view(); }
        match self.find(key) {
            Some(i) => Some(&self.entries[i].1),
            None => None,
        }
    }

    /// Whether `key` is present.
    pub fn contains_key(&self, key: &str) -> (r: bool)
        ensures
            r == self@.contains_key(key@),
    {
        proof { use_type_invariant(self); self.lemma_view(); }
        self.find(key).is_some()
    }

    /// Number of keys.
    pub fn len(&self) -> (r: usize)
        ensures
            r == self.key_seq().len(),
    {
        self.entries.len()
    }

    /// The key at position `i` of the insertion order.
    pub fn key_at(&self, i: usize) -> (r: &String)
        requires
            i < self.key_seq().len(),
        ensures
            r@ == self.key_seq()[i as int],
            self@.contains_key(r@),
    {
        proof { use_type_invariant(self); self.lemma_view(); }
        &self.entries[i].0
    }

    /// The value at position `i` of the insertion order.
    pub fn value_at(&self, i: usize) -> (r: &V)
        requires
            i < self.key_seq().len(),
        ensures
            self@.contains_key(self.key_seq()[i as int]),
            self@[self.key_seq()[i as int]] == r@,
    {
        proof { use_type_invariant(self); self.lemma_view(); }
        &self.entries[i].1
    }

    /// Every key of the map appears in `key_seq`, and no key appears twice
    /// (a fact about the map; the call does nothing at run time).
    pub fn key_facts(&self)
        ensures
            forall|k: Seq<char>| self@.contains_key(k) <==> self.key_seq().contains(k),
            forall|i: int, j: int| 0 <= i < self.key_seq().len() && 0 <= j < self.key_seq().len() && i != j ==> #[trigger] self.key_seq()[i] != #[trigger] self.key_seq()[j],
    {
        proof {
        use_type_invariant(self);
        self.lemma_view();
        let ks = self.key_seq();
        assert forall|k: Seq<char>| self@.contains_key(k) <==> ks.contains(k) by {
            if self@.contains_key(k) {
                let i = choose|i: int| 0 <= i < self.entries.len() && self.entries@[i].0@ == k;
                assert(ks[i] == k);
            }
            if ks.contains(k) {
                let i = choose|i: int| 0 <= i < ks.len() && ks[i] == k;
                assert(self.entries@[i].0@ == k);
            }
        }
        assert forall|i: int, j: int| 0 <= i < ks.len() && 0 <= j < ks.len() && i != j implies #[trigger] ks[i] != #[trigger] ks[j] by {
            let ev = entry_views(self.entries@);
            assert(ev[i].0 == ks[i] && ev[j].0 == ks[j]);
        }
        }
    }

    /// Set `key` to `value`, replacing any previous value.
    pub fn insert(&mut self, key: String, value: V)
        ensures
            final(self)@ == old(self)@.insert(key@, value@),
    {
        proof { use_type_invariant(&*self); }
        let ghost ev = entry_views(self.entries@);
        match self.find(key.as_str()) {
            Some(i) => {
                proof {
                    lemma_map_of_update(ev, i as int, value@);
                }
                let mut entries: Vec<(String, V)> = Vec::new();
                std::mem::swap(&mut entries, &mut self.entries);
                entries.set(i, (key, value));
                assert(entry_views(entries@) =~= ev.update(i as int, (ev[i as int].0, value@)));
                self.entries = entries;
            },
            None => {
                let ghost kv = key@;
                let mut entries: Vec<(String, V)> = Vec::new();
                std::mem::swap(&mut entries, &mut self.entries);
                entries.push((key, value));
                assert(entry_views(entries@) =~= ev.push((kv, value@)));
                assert(entry_views(entries@).drop_last() =~= ev);
                assert(keys_distinct(entry_views(entries@))) by {
                    let nv = entry_views(entries@);
                    assert forall|a: int, b: int| 0 <= a < nv.len() && 0 <= b < nv.len() && a != b
                        implies #[trigger] nv[a].0 != #[trigger] nv[b].0 by {
                        if a < ev.len() && b < ev.len() {
                            assert(nv[a] == ev[a] && nv[b] == ev[b]);
                        } else if a < ev.len() {
                            assert(nv[a].0 == entries@[a].0@);
                        } else {
                            assert(nv[b].0 == entries@[b].0@);
                        }
                    }
                }
                self.entries = entries;
            },
        }
    }

    /// Replace the value of `key` when it is present; a missing key changes
    /// nothing.
    pub fn set_existing(&mut self, key: &str, value: V) -> (found: bool)
        ensures
            found == old(self)@.contains_key(key@),
            found ==> final(self)@ == old(self)@.insert(key@, value@),
            !found ==> final(self)@ == old(self)@,
    {
        proof { use_type_invariant(&*self); self.lemma_view(); }
        let ghost ev = entry_views(self.entries@);
        match self.find(key) {
            Some(i) => {
                proof {
                    lemma_map_of_update(ev, i as int, value@);
                }
                let k = self.entries[i].0.clone();
                let mut entries: Vec<(String, V)> = Vec::new();
                std::mem::swap(&mut entries, &mut self.entries);
                entries.set(i, (k, value));
                assert(entry_views(entries@) =~= ev.update(i as int, (ev[i as int].0, value@)));
                self.entries = entries;
                true
            },
            None => false,
        }
    }
}

impl<V: DeepCopy> StrMap<V> {
    /// A copy of the map.
    pub fn deep_copy_map(&self) -> (r: Self)
        ensures
            r@ == self@,
            r.key_seq() == self.key_seq(),
    {
        proof { use_type_invariant(self); }
        let mut entries: Vec<(String, V)> = Vec::new();
        let mut i: usize = 0;
        while i < self.entries.len()
            invariant
                i <= self.entries.len(),
                entry_views(entries@) == entry_views(self.entries@).take(i as int),
            decreases self.entries.len() - i,
        {
            let k = self.entries[i].0.clone();
            let v = self.entries[i].1.deep_copy();
            let ghost before = entries@;
            entries.push((k, v));
            assert(entries@ == before.push((k, v)));
            assert(entry_views(self.entries@).take(i + 1) =~= entry_views(self.entries@).take(i as int).push(entry_views(self.entries@)[i as int]));
            assert(entry_views(entries@) =~= entry_views(self.entries@).take(i + 1));
            i = i + 1;
        }
        assert(entry_views(self.entries@).take(self.entries.len() as int) =~= entry_views(self.entries@));
        StrMap { entries }
    }
}

impl<V: DeepCopy> DeepCopy for StrMap<V> {
    fn deep_copy(&self) -> (r: Self) {
        self.deep_copy_map()
    }
}

} // verus!
