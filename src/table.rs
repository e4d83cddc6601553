use vstd::prelude::*;

verus! {

/// A key that can be compared with another key of its type by its view.
pub trait TableKey: View + Sized {
    fn same_key(&self, other: &Self) -> (r: bool)
        ensures
            r == (self@ == other@),
    ;

    fn copy_key(&self) -> (r: Self)
        ensures
            r@ == self@,
    ;
}

impl TableKey for String {
    fn same_key(&self, other: &Self) -> (r: bool) {
        *self == *other
    }

    fn copy_key(&self) -> (r: Self) {
        self.clone()
    }
}

/// An association list with unique keys. Its view is a finite map from the
/// keys' views to the stored values.
pub struct Table<K, V> {
    entries: Vec<(K, V)>,
}

impl<K: TableKey, V> Table<K, V> {
    pub closed spec fn len_spec(&self) -> nat {
        self.entries@.len()
    }

    pub closed spec fn key_at(&self, i: int) -> K::V {
        self.entries@[i].0@
    }

    pub closed spec fn value_at(&self, i: int) -> V {
        self.entries@[i].1
    }

    pub closed spec fn wf(&self) -> bool {
        forall|i: int, j: int|
            0 <= i < j < self.entries@.len() ==> #[trigger] self.key_at(i) != #[trigger] self.key_at(
                j,
            )
    }

    pub closed spec fn has(&self, k: K::V) -> bool {
        exists|i: int| 0 <= i < self.entries@.len() && #[trigger] self.key_at(i) == k
    }

    spec fn index_of(&self, k: K::V) -> int {
        choose|i: int| 0 <= i < self.entries@.len() && #[trigger] self.key_at(i) == k
    }

    pub closed spec fn view(&self) -> Map<K::V, V> {
        Map::new(|k: K::V| self.has(k), |k: K::V| self.value_at(self.index_of(k)))
    }

    /// The keys in the order in which the table holds them.
    pub closed spec fn key_seq(&self) -> Seq<K::V> {
        Seq::new(self.entries@.len(), |i: int| self.key_at(i))
    }

    pub proof fn lemma_entry(&self, i: int)
        requires
            self.wf(),
            0 <= i < self.len_spec(),
        ensures
            self.view().contains_key(self.key_at(i)),
            self.view()[self.key_at(i)] == self.value_at(i),
            self.key_seq()[i] == self.key_at(i),
    {
        let k = self.key_at(i);
        assert(self.has(k));
        let j = self.index_of(k);
        if j != i {
            if j < i {
                assert(self.key_at(j) != self.key_at(i));
            } else {
                assert(self.key_at(i) != self.key_at(j));
            }
        }
    }

    pub proof fn lemma_key_seq(&self)
        requires
            self.wf(),
        ensures
            self.key_seq().len() == self.len_spec(),
            self.key_seq().no_duplicates(),
            self.key_seq().to_set() == self.view().dom(),
            self.view().dom().finite(),
    {
        let s = self.key_seq();
        assert forall|i: int, j: int| 0 <= i < s.len() && 0 <= j < s.len() && i != j implies s[i]
            != s[j] by {
            if i < j {
                assert(self.key_at(i) != self.key_at(j));
            } else {
                assert(self.key_at(j) != self.key_at(i));
            }
        }
        assert forall|k: K::V| s.to_set().contains(k) <==> self.view().dom().contains(k) by {
            if s.to_set().contains(k) {
                let i = choose|i: int| 0 <= i < s.len() && s[i] == k;
                self.lemma_entry(i);
            }
            if self.view().dom().contains(k) {
                let i = self.index_of(k);
                assert(s[i] == k);
            }
        }
        assert(s.to_set() =~= self.view().dom());
        vstd::seq_lib::seq_to_set_is_finite(s);
    }

    pub fn new() -> (r: Self)
        ensures
            r.wf(),
            r.view() == Map::<K::V, V>::empty(),
    {
        let r = Table { entries: Vec::new() };
        assert(r.view() =~= Map::<K::V, V>::empty());
        r
    }

    pub fn len(&self) -> (r: usize)
        ensures
            r == self.len_spec(),
    {
        self.entries.len()
    }

    pub fn key(&self, i: usize) -> (r: &K)
        requires
            i < self.len_spec(),
        ensures
            r@ == self.key_at(i as int),
    {
        &self.entries[i].0
    }

    pub fn value(&self, i: usize) -> (r: &V)
        requires
            i < self.len_spec(),
        ensures
            *r == self.value_at(i as int),
    {
        &self.entries[i].1
    }

    /// The position of `k` in the table, if it is there.
    pub fn find(&self, k: &K) -> (r: Option<usize>)
        requires
            self.wf(),
        ensures
            match r {
                Some(i) => i < self.len_spec() && self.key_at(i as int) == k@,
                None => !self.view().contains_key(k@),
            },
    {
        let mut i: usize = 0;
        while i < self.entries.len()
            invariant
                i <= self.entries@.len(),
                forall|j: int| 0 <= j < i ==> #[trigger] self.key_at(j) != k@,
            decreases self.entries@.len() - i,
        {
            if self.entries[i].0.same_key(k) {
                return Some(i);
            }
            i = i + 1;
        }
        None
    }

    pub fn get(&self, k: &K) -> (r: Option<&V>)
        requires
            self.wf(),
        ensures
            match r {
                Some(v) => self.view().contains_key(k@) && *v == self.view()[k@],
                None => !self.view().contains_key(k@),
            },
    {
        match self.find(k) {
            Some(i) => {
                proof {
                    self.lemma_entry(i as int);
                }
                Some(&self.entries[i].1)
            },
            None => None,
        }
    }

    /// Binds `k` to `v`, replacing the value that `k` had.
    pub fn insert(&mut self, k: K, v: V)
        requires
            old(self).wf(),
        ensures
            final(self).wf(),
            final(self).view() == old(self).view().insert(k@, v),
    {
        let ghost kv = k@;
        match self.find(&k) {
            Some(i) => {
                self.entries.set(i, (k, v));
                proof {
                    let o = *old(self);
                    assert forall|a: int, b: int|
                        0 <= a < b < self.entries@.len() implies #[trigger] self.key_at(a)
                        != #[trigger] self.key_at(b) by {
                        assert(o.key_at(a) != o.key_at(b));
                    }
                    self.lemma_frame_update(o, i as int);
                }
            },
            None => {
                self.entries.push((k, v));
                proof {
                    let o = *old(self);
                    let n = o.entries@.len() as int;
                    assert forall|a: int, b: int|
                        0 <= a < b < self.entries@.len() implies #[trigger] self.key_at(a)
                        != #[trigger] self.key_at(b) by {
                        if b == n {
                            if o.key_at(a) == kv {
                                o.lemma_entry(a);
                            }
                        } else {
                            assert(o.key_at(a) != o.key_at(b));
                        }
                    }
                    self.lemma_frame_push(o);
                }
            },
        }
    }

    proof fn lemma_frame_update(&self, o: Self, i: int)
        requires
            o.wf(),
            self.wf(),
            0 <= i < o.len_spec(),
            o.key_at(i) == self.key_at(i),
            self.entries@ == o.entries@.update(i, self.entries@[i]),
        ensures
            self.view() == o.view().insert(self.key_at(i), self.value_at(i)),
    {
        let k = self.key_at(i);
        let m = o.view().insert(k, self.value_at(i));
        assert forall|x: K::V| #[trigger] self.view().contains_key(x) <==> m.contains_key(x) by {
            if self.view().contains_key(x) {
                let j = self.index_of(x);
                if j != i {
                    o.lemma_entry(j);
                }
            }
            if m.contains_key(x) && x != k {
                let j = o.index_of(x);
                self.lemma_entry(j);
            }
        }
        assert forall|x: K::V| #[trigger] self.view().contains_key(x) implies self.view()[x]
            == m[x] by {
            let j = self.index_of(x);
            self.lemma_entry(j);
            if j != i {
                o.lemma_entry(j);
            } else {
                self.lemma_entry(i);
            }
        }
        assert(self.view() =~= m);
    }

    proof fn lemma_frame_push(&self, o: Self)
        requires
            o.wf(),
            self.wf(),
            self.entries@ == o.entries@.push(self.entries@.last()),
            self.entries@.len() > 0,
        ensures
            self.view() == o.view().insert(self.key_at(o.len_spec() as int), self.value_at(
                o.len_spec() as int,
            )),
    {
        let n = o.len_spec() as int;
        let k = self.key_at(n);
        let m = o.view().insert(k, self.value_at(n));
        assert forall|x: K::V| #[trigger] self.view().contains_key(x) <==> m.contains_key(x) by {
            if self.view().contains_key(x) {
                let j = self.index_of(x);
                if j != n {
                    o.lemma_entry(j);
                }
            }
            if m.contains_key(x) && x != k {
                let j = o.index_of(x);
                self.lemma_entry(j);
            }
            if x == k {
                self.lemma_entry(n);
            }
        }
        assert forall|x: K::V| #[trigger] self.view().contains_key(x) implies self.view()[x]
            == m[x] by {
            let j = self.index_of(x);
            self.lemma_entry(j);
            if j != n {
                o.lemma_entry(j);
            }
        }
        assert(self.view() =~= m);
    }

    /// Unbinds `k`; a key that is not there leaves the table as it was.
    pub fn remove(&mut self, k: &K) -> (r: Option<V>)
        requires
            old(self).wf(),
        ensures
            final(self).wf(),
            final(self).view() == old(self).view().remove(k@),
            match r {
                Some(v) => old(self).view().contains_key(k@) && v == old(self).view()[k@],
                None => !old(self).view().contains_key(k@),
            },
    {
        match self.find(k) {
            Some(i) => {
                proof {
                    self.lemma_entry(i as int);
                }
                let (_, v) = self.entries.remove(i);
                proof {
                    let o = *old(self);
                    let ii = i as int;
                    assert forall|j: int| 0 <= j < self.entries@.len() implies #[trigger] self.key_at(j)
                        == o.key_at(if j < ii { j } else { j + 1 }) by {}
                    assert forall|a: int, b: int|
                        0 <= a < b < self.entries@.len() implies #[trigger] self.key_at(a)
                        != #[trigger] self.key_at(b) by {
                        let a2 = if a < ii { a } else { a + 1 };
                        let b2 = if b < ii { b } else { b + 1 };
                        assert(o.key_at(a2) != o.key_at(b2));
                    }
                    let m = o.view().remove(k@);
                    assert forall|x: K::V| #[trigger] self.view().contains_key(x) <==> m.contains_key(x) by {
                        if self.view().contains_key(x) {
                            let j = self.index_of(x);
                            let j2 = if j < ii { j } else { j + 1 };
                            o.lemma_entry(j2);
                            if x == k@ {
                                if j2 < ii {
                                    assert(o.key_at(j2) != o.key_at(ii));
                                } else {
                                    assert(o.key_at(ii) != o.key_at(j2));
                                }
                            }
                        }
                        if m.contains_key(x) {
                            let j = o.index_of(x);
                            if j != ii {
                                let j1 = if j < ii { j } else { j - 1 };
                                assert(self.key_at(j1) == x);
                            }
                        }
                    }
                    assert forall|x: K::V| #[trigger] self.view().contains_key(x) implies self.view()[x]
                        == m[x] by {
                        let j = self.index_of(x);
                        self.lemma_entry(j);
                        let j2 = if j < ii { j } else { j + 1 };
                        o.lemma_entry(j2);
                    }
                    assert(self.view() =~= m);
                }
                Some(v)
            },
            None => {
                proof {
                    assert(self.view().remove(k@) =~= self.view());
                }
                None
            },
        }
    }
}

} // verus!
