use vstd::prelude::*;

verus! {

/// No key occurs twice in an association list.
pub open spec fn keys_unique<V>(s: Seq<(Seq<char>, V)>) -> bool {
    forall|i: int, j: int| #![trigger s[i], s[j]] 0 <= i < j < s.len() ==> s[i].0 != s[j].0
}

/// Whether some entry of the association list has key `k`.
pub open spec fn has_key<V>(s: Seq<(Seq<char>, V)>, k: Seq<char>) -> bool {
    exists|i: int| 0 <= i < s.len() && #[trigger] s[i].0 == k
}

/// The map an association list denotes.
pub open spec fn assoc_map<V>(s: Seq<(Seq<char>, V)>) -> Map<Seq<char>, V> {
    Map::new(
        |k: Seq<char>| has_key(s, k),
        |k: Seq<char>| s[choose|i: int| 0 <= i < s.len() && #[trigger] s[i].0 == k].1,
    )
}

proof fn lemma_assoc_lookup<V>(s: Seq<(Seq<char>, V)>, i: int)
    requires
        keys_unique(s),
        0 <= i < s.len(),
    ensures
        assoc_map(s).contains_key(s[i].0),
        assoc_map(s)[s[i].0] == s[i].1,
{
    let k = s[i].0;
    assert(has_key(s, k));
    let j = choose|j: int| 0 <= j < s.len() && #[trigger] s[j].0 == k;
    if j != i {
        if j < i {
            assert(s[j].0 != s[i].0);
        } else {
            assert(s[i].0 != s[j].0);
        }
    }
}

proof fn lemma_assoc_absent<V>(s: Seq<(Seq<char>, V)>, k: Seq<char>)
    requires
        forall|i: int| 0 <= i < s.len() ==> #[trigger] s[i].0 != k,
    ensures
        !assoc_map(s).contains_key(k),
{
}

proof fn lemma_assoc_update<V>(s: Seq<(Seq<char>, V)>, i: int, v: V)
    requires
        keys_unique(s),
        0 <= i < s.len(),
    ensures
        keys_unique(s.update(i, (s[i].0, v))),
        assoc_map(s.update(i, (s[i].0, v))) == assoc_map(s).insert(s[i].0, v),
{
    let k = s[i].0;
    let t = s.update(i, (k, v));
    assert forall|a: int, b: int| #![trigger t[a], t[b]] 0 <= a < b < t.len() implies t[a].0 != t[b].0 by {
        assert(s[a].0 != s[b].0);
    }
    assert forall|key: Seq<char>| #[trigger] has_key(t, key) <==> has_key(s, key) by {
        if has_key(t, key) {
            let m = choose|m: int| 0 <= m < t.len() && #[trigger] t[m].0 == key;
            assert(s[m].0 == key);
        }
        if has_key(s, key) {
            let m = choose|m: int| 0 <= m < s.len() && #[trigger] s[m].0 == key;
            assert(t[m].0 == key);
        }
    }
    assert forall|key: Seq<char>| has_key(t, key) implies #[trigger] assoc_map(t)[key] == assoc_map(
        s,
    ).insert(k, v)[key] by {
        let m = choose|m: int| 0 <= m < t.len() && #[trigger] t[m].0 == key;
        lemma_assoc_lookup(t, m);
        lemma_assoc_lookup(s, m);
        if m == i {
        } else {
            assert(key != k) by {
                if m < i {
                    assert(s[m].0 != s[i].0);
                } else {
                    assert(s[i].0 != s[m].0);
                }
            }
        }
    }
    assert(assoc_map(t) =~= assoc_map(s).insert(k, v));
}

proof fn lemma_assoc_push<V>(s: Seq<(Seq<char>, V)>, k: Seq<char>, v: V)
    requires
        keys_unique(s),
        forall|i: int| 0 <= i < s.len() ==> #[trigger] s[i].0 != k,
    ensures
        keys_unique(s.push((k, v))),
        assoc_map(s.push((k, v))) == assoc_map(s).insert(k, v),
{
    let t = s.push((k, v));
    assert forall|a: int, b: int| #![trigger t[a], t[b]] 0 <= a < b < t.len() implies t[a].0 != t[b].0 by {
        if b == s.len() {
            assert(s[a].0 != k);
        } else {
            assert(s[a].0 != s[b].0);
        }
    }
    assert forall|key: Seq<char>| #[trigger] has_key(t, key) <==> (has_key(s, key) || key == k) by {
        if has_key(t, key) {
            let m = choose|m: int| 0 <= m < t.len() && #[trigger] t[m].0 == key;
            if m < s.len() {
                assert(s[m].0 == key);
            }
        }
        if has_key(s, key) {
            let m = choose|m: int| 0 <= m < s.len() && #[trigger] s[m].0 == key;
            assert(t[m].0 == key);
        }
        if key == k {
            assert(t[s.len() as int].0 == key);
        }
    }
    assert forall|key: Seq<char>| has_key(t, key) implies #[trigger] assoc_map(t)[key] == assoc_map(
        s,
    ).insert(k, v)[key] by {
        let m = choose|m: int| 0 <= m < t.len() && #[trigger] t[m].0 == key;
        lemma_assoc_lookup(t, m);
        if m < s.len() {
            lemma_assoc_lookup(s, m);
        }
    }
    assert(assoc_map(t) =~= assoc_map(s).insert(k, v));
}

proof fn lemma_assoc_remove<V>(s: Seq<(Seq<char>, V)>, i: int)
    requires
        keys_unique(s),
        0 <= i < s.len(),
    ensures
        keys_unique(s.remove(i)),
        assoc_map(s.remove(i)) == assoc_map(s).remove(s[i].0),
{
    let k = s[i].0;
    let t = s.remove(i);
    assert forall|a: int, b: int| #![trigger t[a], t[b]] 0 <= a < b < t.len() implies t[a].0 != t[b].0 by {
        let a0 = if a < i { a } else { a + 1 };
        let b0 = if b < i { b } else { b + 1 };
        assert(t[a] == s[a0] && t[b] == s[b0]);
        assert(s[a0].0 != s[b0].0);
    }
    assert forall|key: Seq<char>| #[trigger] has_key(t, key) <==> (has_key(s, key) && key != k) by {
        if has_key(t, key) {
            let m = choose|m: int| 0 <= m < t.len() && #[trigger] t[m].0 == key;
            let m0 = if m < i { m } else { m + 1 };
            assert(t[m] == s[m0]);
            assert(s[m0].0 == key);
            if m0 < i {
                assert(s[m0].0 != s[i].0);
            } else {
                assert(s[i].0 != s[m0].0);
            }
        }
        if has_key(s, key) && key != k {
            let m = choose|m: int| 0 <= m < s.len() && #[trigger] s[m].0 == key;
            assert(m != i);
            if m < i {
                assert(t[m] == s[m]);
            } else {
                assert(t[m - 1] == s[m]);
            }
        }
    }
    assert forall|key: Seq<char>| has_key(t, key) implies #[trigger] assoc_map(t)[key] == assoc_map(
        s,
    ).remove(k)[key] by {
        let m = choose|m: int| 0 <= m < t.len() && #[trigger] t[m].0 == key;
        let m0 = if m < i { m } else { m + 1 };
        assert(t[m] == s[m0]);
        lemma_assoc_lookup(t, m);
        lemma_assoc_lookup(s, m0);
    }
    assert(assoc_map(t) =~= assoc_map(s).remove(k));
}

/// A table keyed by text, holding at most one value per key.
#[derive(Debug)]
pub struct PathTable<V> {
    entries: Vec<(String, V)>,
}

impl<V: DeepView> PathTable<V> {
    /// The entries as (key text, value model) pairs, in insertion order.
    pub closed spec fn model(&self) -> Seq<(Seq<char>, V::V)> {
        self.entries@.map_values(|e: (String, V)| (e.0@, e.1.deep_view()))
    }

    /// The map this table denotes.
    pub closed spec fn map(&self) -> Map<Seq<char>, V::V> {
        assoc_map(self.model())
    }

    /// Every key occurs at most once.
    pub closed spec fn wf(&self) -> bool {
        keys_unique(self.model())
    }

    /// An empty table.
    pub fn new() -> (t: PathTable<V>)
        ensures
            t.wf(),
            t.map() == Map::<Seq<char>, V::V>::empty(),
    {
        let t = PathTable { entries: Vec::new() };
        assert(t.map() =~= Map::<Seq<char>, V::V>::empty());
        t
    }

    fn find(&self, key: &String) -> (r: Option<usize>)
        ensures
            r matches Some(i) ==> i < self.entries@.len() && self.model()[i as int].0 == key@,
            r is None ==> forall|i: int| 0 <= i < self.model().len() ==> #[trigger] self.model()[i].0 != key@,
    {
        let mut i: usize = 0;
        while i < self.entries.len()
            invariant
                i <= self.entries.len(),
                forall|j: int| 0 <= j < i ==> #[trigger] self.model()[j].0 != key@,
            decreases self.entries.len() - i,
        {
            assert(self.model()[i as int].0 == self.entries@[i as int].0@);
            if self.entries[i].0 == *key {
                return Some(i);
            }
            i += 1;
        }
        None
    }

    /// The value under `key`, if any.
    pub fn get(&self, key: &String) -> (r: Option<&V>)
        requires
            self.wf(),
        ensures
            r matches Some(v) ==> self.map().contains_key(key@) && v.deep_view() == self.map()[key@],
            r is None ==> !self.map().contains_key(key@),
    {
        match self.find(key) {
            Some(i) => {
                proof {
                    lemma_assoc_lookup(self.model(), i as int);
                }
                Some(&self.entries[i].1)
            },
            None => {
                proof {
                    lemma_assoc_absent(self.model(), key@);
                }
                None
            },
        }
    }

    /// Whether `key` has a value.
    pub fn contains_key(&self, key: &String) -> (r: bool)
        requires
            self.wf(),
        ensures
            r == self.map().contains_key(key@),
    {
        self.get(key).is_some()
    }

    /// Sets the value under `key`.
    pub fn insert(&mut self, key: String, value: V)
        requires
            old(self).wf(),
        ensures
            final(self).wf(),
            final(self).map() == old(self).map().insert(key@, value.deep_view()),
    {
        let ghost s = self.model();
        let ghost k = key@;
        let ghost v = value.deep_view();
        match self.find(&key) {
            Some(i) => {
                self.entries.set(i, (key, value));
                proof {
                    assert(self.model() =~= s.update(i as int, (s[i as int].0, v)));
                    lemma_assoc_update(s, i as int, v);
                }
            },
            None => {
                self.entries.push((key, value));
                proof {
                    assert(self.model() =~= s.push((k, v)));
                    lemma_assoc_push(s, k, v);
                }
            },
        }
    }

    /// Removes the value under `key`, if any.
    pub fn remove(&mut self, key: &String)
        requires
            old(self).wf(),
        ensures
            final(self).wf(),
            final(self).map() == old(self).map().remove(key@),
    {
        let ghost s = self.model();
        match self.find(key) {
            Some(i) => {
                self.entries.remove(i);
                proof {
                    assert(self.model() =~= s.remove(i as int));
                    lemma_assoc_remove(s, i as int);
                }
            },
            None => {
                proof {
                    lemma_assoc_absent(s, key@);
                    assert(assoc_map(s).remove(key@) =~= assoc_map(s));
                }
            },
        }
    }

    /// The entries, in insertion order.
    pub fn entries(&self) -> (r: &Vec<(String, V)>)
        ensures
            r@.map_values(|e: (String, V)| (e.0@, e.1.deep_view())) == self.model(),
    {
        &self.entries
    }

    /// The number of keys.
    pub fn len(&self) -> (n: usize)
        requires
            self.wf(),
        ensures
            n == self.map().dom().len(),
    {
        proof {
            self.lemma_len();
        }
        self.entries.len()
    }

    proof fn lemma_len(&self)
        requires
            self.wf(),
        ensures
            self.map().dom().finite(),
            self.map().dom().len() == self.entries@.len(),
    {
        let s = self.model();
        let ks = s.map_values(|e: (Seq<char>, V::V)| e.0);
        assert(self.map().dom() =~= ks.to_set()) by {
            assert forall|k: Seq<char>| self.map().dom().contains(k) <==> ks.contains(k) by {
                if has_key(s, k) {
                    let m = choose|m: int| 0 <= m < s.len() && #[trigger] s[m].0 == k;
                    assert(ks[m] == k);
                }
                if ks.contains(k) {
                    let m = choose|m: int| 0 <= m < ks.len() && #[trigger] ks[m] == k;
                    assert(s[m].0 == k);
                }
            }
        }
        assert(ks.no_duplicates()) by {
            assert forall|a: int, b: int| 0 <= a < ks.len() && 0 <= b < ks.len() && a != b implies ks[a] != ks[b] by {
                if a < b {
                    assert(s[a].0 != s[b].0);
                } else {
                    assert(s[b].0 != s[a].0);
                }
            }
        }
        ks.unique_seq_to_set();
    }
}

} // verus!
