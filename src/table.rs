//! A small map keyed by strings, kept as a vector of entries with distinct
//! keys in insertion order.

use vstd::prelude::*;

verus! {

/// Entries with distinct string keys; a later `insert` of a key replaces
/// the earlier value in place.
#[derive(Debug)]
pub struct KeyedVec<V> {
    entries: Vec<(String, V)>,
}

/// Distinct keys in a sequence of entries.
pub open spec fn keys_distinct<V>(s: Seq<(Seq<char>, V)>) -> bool {
    forall|i: int, j: int| 0 <= i < j < s.len() ==> s[i].0 != s[j].0
}

/// The map that a sequence of entries with distinct keys stands for.
pub open spec fn entries_map<V>(s: Seq<(Seq<char>, V)>) -> Map<Seq<char>, V> {
    Map::new(
        |k: Seq<char>| exists|i: int| 0 <= i < s.len() && s[i].0 == k,
        |k: Seq<char>| s[choose|i: int| 0 <= i < s.len() && s[i].0 == k].1,
    )
}

/// Each entry of a sequence with distinct keys is what the map holds for its key.
pub proof fn lemma_entries_map_index<V>(s: Seq<(Seq<char>, V)>, i: int)
    requires
        keys_distinct(s),
        0 <= i < s.len(),
    ensures
        entries_map(s).contains_key(s[i].0),
        entries_map(s)[s[i].0] == s[i].1,
{
    let k = s[i].0;
    assert(exists|j: int| 0 <= j < s.len() && s[j].0 == k) by {
        assert(s[i].0 == k);
    }
    let j = choose|j: int| 0 <= j < s.len() && s[j].0 == k;
    if j != i {
        if j < i {
            assert(s[j].0 != s[i].0);
        } else {
            assert(s[i].0 != s[j].0);
        }
    }
}

impl<V> View for KeyedVec<V> {
    type V = Map<Seq<char>, V>;

    open spec fn view(&self) -> Map<Seq<char>, V> {
        entries_map(self.pairs())
    }
}

impl<V> KeyedVec<V> {
    /// The entries, keys as character sequences, in insertion order.
    pub closed spec fn pairs(&self) -> Seq<(Seq<char>, V)> {
        self.entries@.map_values(|e: (String, V)| (e.0@, e.1))
    }

    pub open spec fn wf(&self) -> bool {
        keys_distinct(self.pairs())
    }

    pub fn new() -> (r: Self)
        ensures
            r.wf(),
            r.pairs() == Seq::<(Seq<char>, V)>::empty(),
            r@ == Map::<Seq<char>, V>::empty(),
    {
        let r = KeyedVec { entries: Vec::new() };
        assert(r.pairs() =~= Seq::<(Seq<char>, V)>::empty());
        assert(r@ =~= Map::<Seq<char>, V>::empty());
        r
    }

    pub fn len(&self) -> (r: usize)
        ensures
            r == self.pairs().len(),
    {
        self.entries.len()
    }

    pub fn key_at(&self, i: usize) -> (r: &String)
        requires
            i < self.pairs().len(),
        ensures
            r@ == self.pairs()[i as int].0,
    {
        &self.entries[i].0
    }

    pub fn value_at(&self, i: usize) -> (r: &V)
        requires
            i < self.pairs().len(),
        ensures
            *r == self.pairs()[i as int].1,
    {
        &self.entries[i].1
    }

    /// The position of `k`, if it is a key.
    pub fn find(&self, k: &String) -> (r: Option<usize>)
        requires
            self.wf(),
        ensures
            r is None <==> !self@.contains_key(k@),
            r matches Some(i) ==> i < self.pairs().len() && self.pairs()[i as int].0 == k@,
    {
        let mut i: usize = 0;
        while i < self.entries.len()
            invariant
                i <= self.pairs().len(),
                forall|j: int| 0 <= j < i ==> self.pairs()[j].0 != k@,
            decreases self.entries.len() - i,
        {
            if self.entries[i].0 == *k {
                assert(self.pairs()[i as int].0 == k@);
                return Some(i);
            }
            i += 1;
        }
        None
    }

    pub fn contains_key(&self, k: &String) -> (r: bool)
        requires
            self.wf(),
        ensures
            r == self@.contains_key(k@),
    {
        self.find(k).is_some()
    }

    pub fn get(&self, k: &String) -> (r: Option<&V>)
        requires
            self.wf(),
        ensures
            r is Some <==> self@.contains_key(k@),
            r matches Some(v) ==> *v == self@[k@],
    {
        match self.find(k) {
            Some(i) => {
                proof {
                    lemma_entries_map_index(self.pairs(), i as int);
                }
                Some(&self.entries[i].1)
            },
            None => None,
        }
    }

    /// Sets the value of `k`, replacing any earlier one.
    pub fn insert(&mut self, k: String, v: V)
        requires
            old(self).wf(),
        ensures
            final(self).wf(),
            final(self)@ == old(self)@.insert(k@, v),
    {
        let ghost kv = k@;
        let ghost old_pairs = self.pairs();
        match self.find(&k) {
            Some(i) => {
                self.entries.set(i, (k, v));
                proof {
                    let s = self.pairs();
                    assert(s =~= old_pairs.update(i as int, (kv, v)));
                    assert(keys_distinct(s));
                    assert forall|key: Seq<char>| #[trigger] self@.contains_key(key)
                        == old(self)@.insert(kv, v).contains_key(key) by {
                        if key != kv && old(self)@.contains_key(key) {
                            let j = choose|j: int| 0 <= j < old_pairs.len() && old_pairs[j].0 == key;
                            assert(s[j].0 == key);
                        }
                        if self@.contains_key(key) && key != kv {
                            let j = choose|j: int| 0 <= j < s.len() && s[j].0 == key;
                            assert(old_pairs[j].0 == key);
                        }
                        lemma_entries_map_index(s, i as int);
                    }
                    assert forall|key: Seq<char>| #[trigger] self@.contains_key(key) implies
                        self@[key] == old(self)@.insert(kv, v)[key] by {
                        let j = choose|j: int| 0 <= j < s.len() && s[j].0 == key;
                        lemma_entries_map_index(s, j);
                        if key != kv {
                            lemma_entries_map_index(old_pairs, j);
                        }
                    }
                    assert(self@ =~= old(self)@.insert(kv, v));
                }
            },
            None => {
                self.entries.push((k, v));
                proof {
                    let s = self.pairs();
                    assert(s =~= old_pairs.push((kv, v)));
                    assert(keys_distinct(s)) by {
                        assert forall|a: int, b: int| 0 <= a < b < s.len() implies s[a].0
                            != s[b].0 by {
                            if b == old_pairs.len() {
                                if s[a].0 == kv {
                                    assert(old(self)@.contains_key(kv)) by {
                                        assert(old_pairs[a].0 == kv);
                                    }
                                }
                            }
                        }
                    }
                    assert forall|key: Seq<char>| #[trigger] self@.contains_key(key)
                        == old(self)@.insert(kv, v).contains_key(key) by {
                        if key != kv && old(self)@.contains_key(key) {
                            let j = choose|j: int| 0 <= j < old_pairs.len() && old_pairs[j].0 == key;
                            assert(s[j].0 == key);
                        }
                        if self@.contains_key(key) && key != kv {
                            let j = choose|j: int| 0 <= j < s.len() && s[j].0 == key;
                            assert(old_pairs[j].0 == key);
                        }
                        lemma_entries_map_index(s, old_pairs.len() as int);
                    }
                    assert forall|key: Seq<char>| #[trigger] self@.contains_key(key) implies
                        self@[key] == old(self)@.insert(kv, v)[key] by {
                        let j = choose|j: int| 0 <= j < s.len() && s[j].0 == key;
                        lemma_entries_map_index(s, j);
                        if key != kv {
                            lemma_entries_map_index(old_pairs, j);
                        }
                    }
                    assert(self@ =~= old(self)@.insert(kv, v));
                }
            },
        }
    }

    /// Drops the entry of `k`, if there is one.
    pub fn remove(&mut self, k: &String)
        requires
            old(self).wf(),
        ensures
            final(self).wf(),
            final(self)@ == old(self)@.remove(k@),
    {
        let ghost old_pairs = self.pairs();
        match self.find(k) {
            Some(i) => {
                let _ = self.entries.remove(i);
                proof {
                    let s = self.pairs();
                    assert(s =~= old_pairs.remove(i as int));
                    assert(keys_distinct(s)) by {
                        assert forall|a: int, b: int| 0 <= a < b < s.len() implies s[a].0
                            != s[b].0 by {
                            let oa = if a < i { a } else { a + 1 };
                            let ob = if b < i { b } else { b + 1 };
                            assert(s[a] == old_pairs[oa]);
                            assert(s[b] == old_pairs[ob]);
                        }
                    }
                    assert forall|key: Seq<char>| #[trigger] self@.contains_key(key)
                        == old(self)@.remove(k@).contains_key(key) by {
                        if key != k@ && old(self)@.contains_key(key) {
                            let j = choose|j: int| 0 <= j < old_pairs.len() && old_pairs[j].0 == key;
                            let sj = if j < i { j } else { j - 1 };
                            assert(s[sj].0 == key);
                        }
                        if self@.contains_key(key) {
                            let j = choose|j: int| 0 <= j < s.len() && s[j].0 == key;
                            let oj = if j < i { j } else { j + 1 };
                            assert(old_pairs[oj].0 == key);
                            assert(old_pairs[i as int].0 == k@);
                        }
                    }
                    assert forall|key: Seq<char>| #[trigger] self@.contains_key(key) implies
                        self@[key] == old(self)@.remove(k@)[key] by {
                        let j = choose|j: int| 0 <= j < s.len() && s[j].0 == key;
                        lemma_entries_map_index(s, j);
                        let oj = if j < i { j } else { j + 1 };
                        assert(old_pairs[oj] == s[j]);
                        lemma_entries_map_index(old_pairs, oj);
                    }
                    assert(self@ =~= old(self)@.remove(k@));
                }
            },
            None => {
                assert(self@ =~= old(self)@.remove(k@));
            },
        }
    }
}

impl<V: Clone> Clone for KeyedVec<V> {
    fn clone(&self) -> (r: Self)
        ensures
            r.pairs().len() == self.pairs().len(),
            forall|i: int|
                0 <= i < self.pairs().len() ==> r.pairs()[i].0 == self.pairs()[i].0 && cloned::<V>(
                    self.pairs()[i].1,
                    #[trigger] r.pairs()[i].1,
                ),
    {
        let mut entries: Vec<(String, V)> = Vec::new();
        let mut i: usize = 0;
        while i < self.entries.len()
            invariant
                i <= self.entries@.len(),
                entries@.len() == i,
                forall|j: int|
                    #![trigger entries@[j]]
                    0 <= j < i ==> entries@[j].0@ == self.entries@[j].0@ && cloned::<V>(
                        self.entries@[j].1,
                        entries@[j].1,
                    ),
            decreases self.entries.len() - i,
        {
            let k = self.entries[i].0.clone();
            let v = self.entries[i].1.clone();
            assert(k@ == self.entries@[i as int].0@);
            assert(cloned::<V>(self.entries@[i as int].1, v));
            let ghost prev = entries@;
            entries.push((k, v));
            proof {
                assert forall|j: int| #![trigger entries@[j]] 0 <= j < i + 1 implies entries@[j].0@
                    == self.entries@[j].0@ && cloned::<V>(self.entries@[j].1, entries@[j].1) by {
                    if j < i {
                        assert(entries@[j] == prev[j]);
                    }
                }
            }
            i += 1;
        }
        let r = KeyedVec { entries };
        assert forall|i: int| 0 <= i < self.pairs().len() implies r.pairs()[i].0 == self.pairs()[i].0
            && cloned::<V>(self.pairs()[i].1, #[trigger] r.pairs()[i].1) by {
            assert(entries@[i].0@ == self.entries@[i].0@);
        }
        r
    }
}

} // verus!
