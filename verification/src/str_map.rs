use vstd::prelude::*;

verus! {

/// A finite map from text keys to values.
///
/// The entries are kept in a list whose keys are pairwise distinct; the
/// abstract value of the map is a `Map` from the characters of each key to
/// its value.
pub struct StrMap<V> {
    entries: Vec<(String, V)>,
}

impl<V> View for StrMap<V> {
    type V = Map<Seq<char>, V>;

    closed spec fn view(&self) -> Map<Seq<char>, V> {
        Map::new(
            |k: Seq<char>| self.holds_key(k),
            |k: Seq<char>| self.entries@[self.index_of_key(k)].1,
        )
    }
}

impl<V> StrMap<V> {
    #[verifier::type_invariant]
    spec fn keys_distinct(&self) -> bool {
        forall|i: int, j: int|
            #![trigger self.entries@[i], self.entries@[j]]
            0 <= i < self.entries@.len() && 0 <= j < self.entries@.len() && i != j
                ==> self.entries@[i].0@ != self.entries@[j].0@
    }

    spec fn key_at(&self, i: int) -> Seq<char> {
        self.entries@[i].0@
    }

    spec fn holds_key(&self, k: Seq<char>) -> bool {
        exists|i: int| 0 <= i < self.entries@.len() && #[trigger] self.key_at(i) == k
    }

    spec fn index_of_key(&self, k: Seq<char>) -> int {
        choose|i: int| 0 <= i < self.entries@.len() && #[trigger] self.key_at(i) == k
    }

    spec fn key_seq(&self) -> Seq<Seq<char>> {
        self.entries@.map_values(|e: (String, V)| e.0@)
    }

    /// The value stored at position `i` is what the map gives for its key.
    proof fn lemma_lookup(&self, i: int)
        requires
            self.keys_distinct(),
            0 <= i < self.entries@.len(),
        ensures
            self@.contains_key(self.key_at(i)),
            self@[self.key_at(i)] == self.entries@[i].1,
    {
        let k = self.key_at(i);
        assert(self.holds_key(k));
        let j = self.index_of_key(k);
        assert(self.key_at(j) == k);
        assert(self.entries@[j].0@ == self.entries@[i].0@);
        assert(j == i);
    }

    /// A key held by no entry is not in the map.
    proof fn lemma_absent(&self, k: Seq<char>)
        requires
            forall|i: int| 0 <= i < self.entries@.len() ==> #[trigger] self.key_at(i) != k,
        ensures
            !self@.contains_key(k),
    {
    }

    /// The map has exactly one key per entry.
    proof fn lemma_len(&self)
        requires
            self.keys_distinct(),
        ensures
            self@.dom().finite(),
            self@.len() == self.entries@.len(),
    {
        let ks = self.key_seq();
        assert(self@.dom() =~= ks.to_set()) by {
            assert forall|k: Seq<char>| self@.dom().contains(k) implies ks.to_set().contains(k) by {
                let i = self.index_of_key(k);
                assert(ks[i] == k);
            }
            assert forall|k: Seq<char>| ks.to_set().contains(k) implies self@.dom().contains(k) by {
                let i = choose|i: int| 0 <= i < ks.len() && ks[i] == k;
                assert(self.key_at(i) == k);
            }
        }
        assert(ks.no_duplicates()) by {
            assert forall|i: int, j: int| 0 <= i < ks.len() && 0 <= j < ks.len() && i != j
                implies ks[i] != ks[j] by {
                assert(self.entries@[i].0@ != self.entries@[j].0@);
            }
        }
        ks.unique_seq_to_set();
        vstd::seq_lib::seq_to_set_is_finite(ks);
    }

    /// An empty map.
    pub fn new() -> (m: Self)
        ensures
            m@ == Map::<Seq<char>, V>::empty(),
    {
        let m = StrMap { entries: Vec::new() };
        assert(m@ =~= Map::<Seq<char>, V>::empty());
        m
    }

    /// The number of keys in the map.
    pub fn len(&self) -> (n: usize)
        ensures
            self@.dom().finite(),
            n == self@.len(),
    {
        proof {
            use_type_invariant(self);
            self.lemma_len();
        }
        self.entries.len()
    }

    /// The position of the entry that holds `key`, if one does.
    fn find(&self, key: &String) -> (r: Option<usize>)
        ensures
            match r {
                Some(i) => i < self.entries@.len() && self.key_at(i as int) == key@,
                None => forall|i: int| 0 <= i < self.entries@.len() ==> #[trigger] self.key_at(i) != key@,
            },
    {
        let mut i: usize = 0;
        while i < self.entries.len()
            invariant
                i <= self.entries@.len(),
                forall|j: int| 0 <= j < i ==> #[trigger] self.key_at(j) != key@,
            decreases self.entries@.len() - i,
        {
            if self.entries[i].0 == *key {
                return Some(i);
            }
            i = i + 1;
        }
        None
    }

    /// Whether `key` is in the map.
    pub fn contains_key(&self, key: &str) -> (b: bool)
        ensures
            b == self@.contains_key(key@),
    {
        proof { use_type_invariant(self); }
        let k = key.to_owned();
        match self.find(&k) {
            Some(i) => {
                proof { self.lemma_lookup(i as int); }
                true
            },
            None => {
                proof { self.lemma_absent(key@); }
                false
            },
        }
    }

    /// The value stored for `key`, if any.
    pub fn get(&self, key: &str) -> (r: Option<&V>)
        ensures
            match r {
                Some(v) => self@.contains_key(key@) && *v == self@[key@],
                None => !self@.contains_key(key@),
            },
    {
        proof { use_type_invariant(self); }
        let k = key.to_owned();
        match self.find(&k) {
            Some(i) => {
                proof { self.lemma_lookup(i as int); }
                Some(&self.entries[i].1)
            },
            None => {
                proof { self.lemma_absent(key@); }
                None
            },
        }
    }

    /// Stores `value` for `key`, giving back the value that was stored for it before.
    pub fn insert(&mut self, key: String, value: V) -> (previous: Option<V>)
        ensures
            final(self)@ == old(self)@.insert(key@, value),
            match previous {
                Some(v) => old(self)@.contains_key(key@) && v == old(self)@[key@],
                None => !old(self)@.contains_key(key@),
            },
    {
        proof { use_type_invariant(&*self); }
        let ghost k = key@;
        let ghost before = *self;
        let found = self.find(&key);
        let mut entries: Vec<(String, V)> = Vec::new();
        std::mem::swap(&mut entries, &mut self.entries);
        match found {
            Some(i) => {
                proof { before.lemma_lookup(i as int); }
                entries.push((key, value));
                let (_, prev) = entries.swap_remove(i);
                let ghost after = StrMap { entries: entries };
                assert(after.entries@ == before.entries@.update(i as int, after.entries@[i as int]));
                proof {
                    assert forall|a: int, b: int|
                        0 <= a < after.entries@.len() && 0 <= b < after.entries@.len() && a != b
                        implies #[trigger] after.entries@[a].0@ != #[trigger] after.entries@[b].0@ by {
                        if a != i && b != i {
                            assert(before.entries@[a] == after.entries@[a]);
                            assert(before.entries@[b] == after.entries@[b]);
                        } else if a == i {
                            assert(before.entries@[b] == after.entries@[b]);
                            assert(before.key_at(i as int) == k);
                        } else {
                            assert(before.entries@[a] == after.entries@[a]);
                            assert(before.key_at(i as int) == k);
                        }
                    }
                    assert(after.keys_distinct());
                    Self::lemma_insert_view(before, after, i as int, k, value);
                }
                self.entries = entries;
                Some(prev)
            },
            None => {
                proof { before.lemma_absent(k); }
                entries.push((key, value));
                let ghost after = StrMap { entries: entries };
                proof {
                    assert forall|a: int, b: int|
                        0 <= a < after.entries@.len() && 0 <= b < after.entries@.len() && a != b
                        implies #[trigger] after.entries@[a].0@ != #[trigger] after.entries@[b].0@ by {
                        if a < before.entries@.len() && b < before.entries@.len() {
                            assert(before.entries@[a] == after.entries@[a]);
                            assert(before.entries@[b] == after.entries@[b]);
                        } else if a < before.entries@.len() {
                            assert(before.entries@[a] == after.entries@[a]);
                            assert(before.key_at(a) != k);
                        } else {
                            assert(before.entries@[b] == after.entries@[b]);
                            assert(before.key_at(b) != k);
                        }
                    }
                    assert(after.keys_distinct());
                    Self::lemma_insert_view(before, after, before.entries@.len() as int, k, value);
                }
                self.entries = entries;
                None
            },
        }
    }

    /// Writing the entry at position `i` (or appending it, when `i` is the length) with
    /// key `k` gives the map updated at `k`, provided all other entries are kept.
    proof fn lemma_insert_view(before: Self, after: Self, i: int, k: Seq<char>, value: V)
        requires
            before.keys_distinct(),
            after.keys_distinct(),
            0 <= i <= before.entries@.len(),
            i < before.entries@.len() ==> before.key_at(i) == k && after.entries@.len() == before.entries@.len(),
            i == before.entries@.len() ==> (forall|j: int| 0 <= j < before.entries@.len() ==> #[trigger] before.key_at(j) != k)
                && after.entries@.len() == before.entries@.len() + 1,
            after.key_at(i) == k,
            after.entries@[i].1 == value,
            forall|j: int| 0 <= j < before.entries@.len() && j != i ==> #[trigger] after.entries@[j] == before.entries@[j],
        ensures
            after@ == before@.insert(k, value),
    {
        assert forall|key: Seq<char>| #[trigger] after@.contains_key(key) == before@.insert(k, value).contains_key(key) by {
            if after@.contains_key(key) {
                let a = after.index_of_key(key);
                if a != i {
                    assert(before.key_at(a) == key);
                }
            }
            if before@.contains_key(key) && key != k {
                let b = before.index_of_key(key);
                assert(after.entries@[b] == before.entries@[b]);
                assert(after.key_at(b) == key);
            }
            if key == k {
                assert(after.key_at(i) == key);
            }
        }
        assert forall|key: Seq<char>| after@.contains_key(key) implies #[trigger] after@[key] == before@.insert(k, value)[key] by {
            let a = after.index_of_key(key);
            after.lemma_lookup(a);
            if key == k {
                after.lemma_lookup(i);
            } else {
                assert(a != i);
                assert(after.entries@[a] == before.entries@[a]);
                before.lemma_lookup(a);
            }
        }
        assert(after@ =~= before@.insert(k, value));
    }

    /// Removes `key`, giving back the value that was stored for it.
    pub fn remove(&mut self, key: &str) -> (previous: Option<V>)
        ensures
            final(self)@ == old(self)@.remove(key@),
            match previous {
                Some(v) => old(self)@.contains_key(key@) && v == old(self)@[key@],
                None => !old(self)@.contains_key(key@),
            },
    {
        proof { use_type_invariant(&*self); }
        let k = key.to_owned();
        let ghost before = *self;
        match self.find(&k) {
            Some(i) => {
                proof { before.lemma_lookup(i as int); }
                let mut entries: Vec<(String, V)> = Vec::new();
                std::mem::swap(&mut entries, &mut self.entries);
                let (_, prev) = entries.remove(i);
                let ghost after = StrMap { entries: entries };
                proof {
                    assert forall|a: int, b: int|
                        0 <= a < after.entries@.len() && 0 <= b < after.entries@.len() && a != b
                        implies #[trigger] after.entries@[a].0@ != #[trigger] after.entries@[b].0@ by {
                        let a0 = if a < i { a } else { a + 1 };
                        let b0 = if b < i { b } else { b + 1 };
                        assert(after.entries@[a] == before.entries@[a0]);
                        assert(after.entries@[b] == before.entries@[b0]);
                    }
                    assert(after.keys_distinct());
                    assert forall|key2: Seq<char>| #[trigger] after@.contains_key(key2) == before@.remove(key@).contains_key(key2) by {
                        if after@.contains_key(key2) {
                            let a = after.index_of_key(key2);
                            let a0 = if a < i { a } else { a + 1 };
                            assert(after.entries@[a] == before.entries@[a0]);
                            assert(before.key_at(a0) == key2);
                            assert(a0 != i);
                        }
                        if before@.contains_key(key2) && key2 != key@ {
                            let b = before.index_of_key(key2);
                            assert(b != i);
                            let b1 = if b < i { b } else { b - 1 };
                            assert(after.entries@[b1] == before.entries@[b]);
                            assert(after.key_at(b1) == key2);
                        }
                    }
                    assert forall|key2: Seq<char>| after@.contains_key(key2) implies #[trigger] after@[key2] == before@.remove(key@)[key2] by {
                        let a = after.index_of_key(key2);
                        let a0 = if a < i { a } else { a + 1 };
                        assert(after.entries@[a] == before.entries@[a0]);
                        after.lemma_lookup(a);
                        before.lemma_lookup(a0);
                    }
                    assert(after@ =~= before@.remove(key@));
                }
                self.entries = entries;
                Some(prev)
            },
            None => {
                proof {
                    before.lemma_absent(key@);
                    assert(before@.remove(key@) =~= before@);
                }
                None
            },
        }
    }

    /// The keys of the map, each once.
    pub fn keys(&self) -> (ks: Vec<String>)
        ensures
            ks@.len() == self@.len(),
            forall|i: int| 0 <= i < ks@.len() ==> self@.contains_key(#[trigger] ks@[i]@),
            forall|k: Seq<char>| #[trigger] self@.contains_key(k) ==> exists|i: int|
                0 <= i < ks@.len() && ks@[i]@ == k,
    {
        proof {
            use_type_invariant(self);
            self.lemma_len();
        }
        let mut ks: Vec<String> = Vec::new();
        let mut i: usize = 0;
        while i < self.entries.len()
            invariant
                self.keys_distinct(),
                i <= self.entries@.len(),
                ks@.len() == i,
                forall|j: int| 0 <= j < i ==> #[trigger] ks@[j]@ == self.key_at(j),
            decreases self.entries@.len() - i,
        {
            ks.push(self.entries[i].0.clone());
            i = i + 1;
        }
        proof {
            assert forall|j: int| 0 <= j < ks@.len() implies self@.contains_key(#[trigger] ks@[j]@) by {
                self.lemma_lookup(j);
            }
            assert forall|k: Seq<char>| #[trigger] self@.contains_key(k) implies exists|j: int|
                0 <= j < ks@.len() && ks@[j]@ == k by {
                let j = self.index_of_key(k);
                assert(ks@[j]@ == k);
            }
        }
        ks
    }
}

} // verus!
