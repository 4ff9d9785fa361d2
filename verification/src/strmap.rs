//! A small map keyed by strings, stored as a vector of distinct keys in
//! insertion order and viewed as a `Map` from the key's characters.
use vstd::prelude::*;

verus! {

/// The character views of a sequence of strings.
pub open spec fn string_views(v: Seq<String>) -> Seq<Seq<char>> {
    v.map_values(|s: String| s@)
}

/// Map from string keys to values; keys are distinct.
pub struct StrMap<V> {
    entries: Vec<(String, V)>,
}

impl<V> StrMap<V> {
    /// Keys are pairwise distinct.
    pub closed spec fn wf(&self) -> bool {
        forall|i: int, j: int|
            0 <= i < self.entries@.len() && 0 <= j < self.entries@.len() && i != j
                ==> #[trigger] self.entries@[i].0@ != #[trigger] self.entries@[j].0@
    }

    /// Whether some entry has key `k`.
    pub closed spec fn has(&self, k: Seq<char>) -> bool {
        exists|i: int| 0 <= i < self.entries@.len() && #[trigger] self.entries@[i].0@ == k
    }

    /// Index of the entry with key `k`.
    pub closed spec fn idx(&self, k: Seq<char>) -> int {
        choose|i: int| 0 <= i < self.entries@.len() && #[trigger] self.entries@[i].0@ == k
    }

    /// The map from keys to values.
    pub closed spec fn view(&self) -> Map<Seq<char>, V> {
        Map::new(|k: Seq<char>| self.has(k), |k: Seq<char>| self.entries@[self.idx(k)].1)
    }

    /// The keys in insertion order.
    pub closed spec fn key_seq(&self) -> Seq<Seq<char>> {
        self.entries@.map_values(|e: (String, V)| e.0@)
    }

    proof fn lemma_idx(&self, i: int)
        requires
            self.wf(),
            0 <= i < self.entries@.len(),
        ensures
            self.has(self.entries@[i].0@),
            self.idx(self.entries@[i].0@) == i,
    {
        let k = self.entries@[i].0@;
        assert(self.entries@[i].0@ == k);
        let j = self.idx(k);
        if j != i {
            assert(self.entries@[j].0@ != self.entries@[i].0@);
        }
    }

    /// An empty map.
    pub fn new() -> (m: Self)
        ensures
            m.wf(),
            m.view() == Map::<Seq<char>, V>::empty(),
            m.key_seq() == Seq::<Seq<char>>::empty(),
    {
        let m = StrMap { entries: Vec::new() };
        assert(m.view() =~= Map::<Seq<char>, V>::empty());
        assert(m.key_seq() =~= Seq::<Seq<char>>::empty());
        m
    }

    /// Number of entries.
    pub fn len(&self) -> (n: usize)
        requires
            self.wf(),
        ensures
            n == self.view().len(),
            n == self.key_seq().len(),
    {
        proof { self.lemma_len(); }
        self.entries.len()
    }

    proof fn lemma_len(&self)
        requires
            self.wf(),
        ensures
            self.view().dom().len() == self.entries@.len(),
            self.key_seq().len() == self.entries@.len(),
            self.view().dom().finite(),
            self.view().dom() == self.key_seq().to_set(),
            self.key_seq().no_duplicates(),
    {
        let ks = self.key_seq();
        assert forall|k: Seq<char>| self.view().dom().contains(k) <==> ks.to_set().contains(k) by {
            if self.has(k) {
                let i = self.idx(k);
                assert(ks[i] == k);
            }
            if ks.to_set().contains(k) {
                let i = choose|i: int| 0 <= i < ks.len() && ks[i] == k;
                assert(self.entries@[i].0@ == k);
            }
        }
        assert(self.view().dom() =~= ks.to_set());
        assert forall|i: int, j: int| 0 <= i < ks.len() && 0 <= j < ks.len() && i != j implies ks[i] != ks[j] by {
            assert(self.entries@[i].0@ != self.entries@[j].0@);
        }
        ks.unique_seq_to_set();
    }

    /// Position of key `k`, if present.
    pub fn find(&self, k: &str) -> (r: Option<usize>)
        requires
            self.wf(),
        ensures
            match r {
                Some(i) => i < self.key_seq().len() && self.key_seq()[i as int] == k@
                    && self.view().dom().contains(k@),
                None => !self.view().dom().contains(k@),
            },
    {
        let key: String = k.to_owned();
        let mut i: usize = 0;
        while i < self.entries.len()
            invariant
                i <= self.entries@.len(),
                key@ == k@,
                forall|j: int| 0 <= j < i ==> self.entries@[j].0@ != k@,
            decreases self.entries.len() - i,
        {
            if self.entries[i].0 == key {
                proof { assert(self.entries@[i as int].0@ == k@); }
                return Some(i);
            }
            i = i + 1;
        }
        None
    }

    /// Position of a present key in key order.
    pub fn index_of(&self, k: &str) -> (i: usize)
        requires
            self.wf(),
            self.view().dom().contains(k@),
        ensures
            i < self.key_seq().len(),
            self.key_seq()[i as int] == k@,
    {
        match self.find(k) {
            Some(i) => i,
            None => 0,
        }
    }

    /// Whether `k` is a key.
    pub fn contains_key(&self, k: &str) -> (b: bool)
        requires
            self.wf(),
        ensures
            b == self.view().dom().contains(k@),
    {
        self.find(k).is_some()
    }

    /// The value stored under `k`.
    pub fn get(&self, k: &str) -> (r: Option<&V>)
        requires
            self.wf(),
        ensures
            match r {
                Some(v) => self.view().dom().contains(k@) && *v == self.view()[k@],
                None => !self.view().dom().contains(k@),
            },
    {
        match self.find(k) {
            Some(i) => {
                proof { self.lemma_idx(i as int); }
                Some(&self.entries[i].1)
            }
            None => None,
        }
    }

    /// Store `v` under `k`, replacing any previous value in place; a new key
    /// goes to the end of the key order.
    pub fn insert(&mut self, k: String, v: V)
        requires
            old(self).wf(),
        ensures
            final(self).wf(),
            final(self).view() == old(self).view().insert(k@, v),
            old(self).view().dom().contains(k@) ==> final(self).key_seq() == old(self).key_seq(),
            !old(self).view().dom().contains(k@) ==> final(self).key_seq() == old(self).key_seq().push(k@),
    {
        let ghost old_self = *self;
        match self.find(k.as_str()) {
            Some(i) => {
                let ghost kk = k@;
                self.entries.set(i, (k, v));
                proof {
                    assert forall|a: int, b: int|
                        0 <= a < self.entries@.len() && 0 <= b < self.entries@.len() && a != b
                            implies #[trigger] self.entries@[a].0@ != #[trigger] self.entries@[b].0@ by {
                        assert(old_self.entries@[a].0@ != old_self.entries@[b].0@);
                    }
                    assert forall|x: Seq<char>| #[trigger] self.has(x) <==> old_self.has(x) by {
                        if self.has(x) {
                            let j = choose|j: int| 0 <= j < self.entries@.len() && #[trigger] self.entries@[j].0@ == x;
                            assert(old_self.entries@[j].0@ == x);
                        }
                        if old_self.has(x) {
                            let j = choose|j: int| 0 <= j < old_self.entries@.len() && #[trigger] old_self.entries@[j].0@ == x;
                            assert(self.entries@[j].0@ == x);
                        }
                    }
                    assert forall|x: Seq<char>| self.has(x) implies
                        self.entries@[self.idx(x)].1 == old_self.view().insert(kk, v)[x] by {
                        let j = choose|j: int| 0 <= j < self.entries@.len() && #[trigger] self.entries@[j].0@ == x;
                        self.lemma_idx(j);
                        old_self.lemma_idx(j);
                    }
                    assert(self.view() =~= old_self.view().insert(kk, v));
                    assert(self.key_seq() =~= old_self.key_seq());
                }
            }
            None => {
                let ghost kk = k@;
                self.entries.push((k, v));
                proof {
                    let n = old_self.entries@.len() as int;
                    assert forall|a: int, b: int|
                        0 <= a < self.entries@.len() && 0 <= b < self.entries@.len() && a != b
                            implies #[trigger] self.entries@[a].0@ != #[trigger] self.entries@[b].0@ by {
                        if a < n && b < n {
                            assert(old_self.entries@[a].0@ != old_self.entries@[b].0@);
                        } else if a == n {
                            assert(old_self.entries@[b].0@ != kk);
                        } else {
                            assert(old_self.entries@[a].0@ != kk);
                        }
                    }
                    assert forall|x: Seq<char>| #[trigger] self.has(x) <==> (old_self.has(x) || x == kk) by {
                        if self.has(x) {
                            let j = choose|j: int| 0 <= j < self.entries@.len() && #[trigger] self.entries@[j].0@ == x;
                            if j < n {
                                assert(old_self.entries@[j].0@ == x);
                            }
                        }
                        if old_self.has(x) {
                            let j = choose|j: int| 0 <= j < old_self.entries@.len() && #[trigger] old_self.entries@[j].0@ == x;
                            assert(self.entries@[j].0@ == x);
                        }
                        if x == kk {
                            assert(self.entries@[n].0@ == x);
                        }
                    }
                    assert forall|x: Seq<char>| self.has(x) implies
                        self.entries@[self.idx(x)].1 == old_self.view().insert(kk, v)[x] by {
                        let j = choose|j: int| 0 <= j < self.entries@.len() && #[trigger] self.entries@[j].0@ == x;
                        self.lemma_idx(j);
                        if j < n {
                            old_self.lemma_idx(j);
                        }
                    }
                    assert(self.view() =~= old_self.view().insert(kk, v));
                    assert(self.key_seq() =~= old_self.key_seq().push(kk));
                }
            }
        }
    }

    /// Remove `k`, returning its value; the other keys keep their order.
    pub fn remove(&mut self, k: &str) -> (r: Option<V>)
        requires
            old(self).wf(),
        ensures
            final(self).wf(),
            final(self).view() == old(self).view().remove(k@),
            match r {
                Some(v) => old(self).view().dom().contains(k@) && v == old(self).view()[k@]
                    && exists|i: int| 0 <= i < old(self).key_seq().len() && old(self).key_seq()[i] == k@
                        && final(self).key_seq() == old(self).key_seq().remove(i),
                None => !old(self).view().dom().contains(k@) && final(self).key_seq() == old(self).key_seq(),
            },
    {
        match self.find(k) {
            Some(i) => {
                let (_, v) = self.remove_at(i);
                Some(v)
            }
            None => {
                assert(self.view() =~= self.view().remove(k@));
                None
            }
        }
    }

    /// Remove the `i`-th entry in key order, returning its key and value.
    pub fn remove_at(&mut self, i: usize) -> (r: (String, V))
        requires
            old(self).wf(),
            i < old(self).key_seq().len(),
        ensures
            final(self).wf(),
            r.0@ == old(self).key_seq()[i as int],
            old(self).view().dom().contains(r.0@),
            r.1 == old(self).view()[r.0@],
            final(self).view() == old(self).view().remove(r.0@),
            final(self).key_seq() == old(self).key_seq().remove(i as int),
    {
        let ghost old_self = *self;
        proof { old_self.lemma_idx(i as int); }
        let (key, v) = self.entries.remove(i);
        proof {
            let ii = i as int;
            let kk = key@;
            assert forall|j: int| 0 <= j < self.entries@.len() implies
                #[trigger] self.entries@[j] == old_self.entries@[if j < ii { j } else { j + 1 }] by {}
            assert forall|a: int, b: int|
                0 <= a < self.entries@.len() && 0 <= b < self.entries@.len() && a != b
                    implies #[trigger] self.entries@[a].0@ != #[trigger] self.entries@[b].0@ by {
                let a2 = if a < ii { a } else { a + 1 };
                let b2 = if b < ii { b } else { b + 1 };
                assert(old_self.entries@[a2].0@ != old_self.entries@[b2].0@);
            }
            assert forall|x: Seq<char>| #[trigger] self.has(x) <==> (old_self.has(x) && x != kk) by {
                if self.has(x) {
                    let j = choose|j: int| 0 <= j < self.entries@.len() && #[trigger] self.entries@[j].0@ == x;
                    let j2 = if j < ii { j } else { j + 1 };
                    assert(old_self.entries@[j2].0@ == x);
                    assert(old_self.entries@[j2].0@ != old_self.entries@[ii].0@);
                }
                if old_self.has(x) && x != kk {
                    let j = choose|j: int| 0 <= j < old_self.entries@.len() && #[trigger] old_self.entries@[j].0@ == x;
                    let j2 = if j < ii { j } else { j - 1 };
                    assert(self.entries@[j2].0@ == x);
                }
            }
            assert forall|x: Seq<char>| self.has(x) implies
                self.entries@[self.idx(x)].1 == old_self.view().remove(kk)[x] by {
                let j = choose|j: int| 0 <= j < self.entries@.len() && #[trigger] self.entries@[j].0@ == x;
                self.lemma_idx(j);
                let j2 = if j < ii { j } else { j + 1 };
                old_self.lemma_idx(j2);
            }
            assert(self.view() =~= old_self.view().remove(kk));
            assert(self.key_seq() =~= old_self.key_seq().remove(ii));
        }
        (key, v)
    }

    /// Replace the value of the `i`-th entry (same key, same key order),
    /// returning the previous value.
    pub fn swap_value_at(&mut self, i: usize, v: V) -> (prev: V)
        requires
            old(self).wf(),
            i < old(self).key_seq().len(),
        ensures
            final(self).wf(),
            final(self).key_seq() == old(self).key_seq(),
            final(self).view() == old(self).view().insert(old(self).key_seq()[i as int], v),
            prev == old(self).view()[old(self).key_seq()[i as int]],
    {
        let ghost old_self = *self;
        proof { old_self.lemma_idx(i as int); }
        let (k, prev) = self.entries.remove(i);
        let ghost kk = k@;
        self.entries.insert(i, (k, v));
        proof {
            let ii = i as int;
            assert forall|j: int| 0 <= j < self.entries@.len() && j != ii implies
                #[trigger] self.entries@[j] == old_self.entries@[j] by {}
            assert(self.entries@[ii].0@ == kk);
            assert forall|a: int, b: int|
                0 <= a < self.entries@.len() && 0 <= b < self.entries@.len() && a != b
                    implies #[trigger] self.entries@[a].0@ != #[trigger] self.entries@[b].0@ by {
                assert(old_self.entries@[a].0@ != old_self.entries@[b].0@);
            }
            assert forall|x: Seq<char>| #[trigger] self.has(x) <==> old_self.has(x) by {
                if self.has(x) {
                    let j = choose|j: int| 0 <= j < self.entries@.len() && #[trigger] self.entries@[j].0@ == x;
                    assert(old_self.entries@[j].0@ == x);
                }
                if old_self.has(x) {
                    let j = choose|j: int| 0 <= j < old_self.entries@.len() && #[trigger] old_self.entries@[j].0@ == x;
                    assert(self.entries@[j].0@ == x);
                }
            }
            assert forall|x: Seq<char>| self.has(x) implies
                self.entries@[self.idx(x)].1 == old_self.view().insert(kk, v)[x] by {
                let j = choose|j: int| 0 <= j < self.entries@.len() && #[trigger] self.entries@[j].0@ == x;
                self.lemma_idx(j);
                old_self.lemma_idx(j);
            }
            assert(self.view() =~= old_self.view().insert(kk, v));
            assert(self.key_seq() =~= old_self.key_seq());
        }
        prev
    }

    /// Remove every entry.
    pub fn clear(&mut self)
        ensures
            final(self).wf(),
            final(self).view() == Map::<Seq<char>, V>::empty(),
            final(self).key_seq() == Seq::<Seq<char>>::empty(),
    {
        self.entries.clear();
        assert(self.view() =~= Map::<Seq<char>, V>::empty());
        assert(self.key_seq() =~= Seq::<Seq<char>>::empty());
    }

    /// The key and value of the `i`-th entry in key order.
    pub fn entry_at(&self, i: usize) -> (r: (&String, &V))
        requires
            self.wf(),
            i < self.key_seq().len(),
        ensures
            r.0@ == self.key_seq()[i as int],
            self.view().dom().contains(r.0@),
            *r.1 == self.view()[r.0@],
    {
        proof { self.lemma_idx(i as int); }
        (&self.entries[i].0, &self.entries[i].1)
    }

    /// Facts linking the key order and the map.
    pub proof fn lemma_keys(&self)
        requires
            self.wf(),
        ensures
            self.view().dom().finite(),
            self.view().dom() == self.key_seq().to_set(),
            self.key_seq().no_duplicates(),
            self.key_seq().len() == self.view().len(),
    {
        self.lemma_len();
    }
}

impl<V> StrMap<V> {
    /// Copies of the keys, in key order.
    pub fn keys(&self) -> (ks: Vec<String>)
        requires
            self.wf(),
        ensures
            string_views(ks@) == self.key_seq(),
    {
        let mut ks: Vec<String> = Vec::new();
        let mut i: usize = 0;
        while i < self.entries.len()
            invariant
                i <= self.entries@.len(),
                ks@.len() == i,
                string_views(ks@) == self.key_seq().take(i as int),
            decreases self.entries.len() - i,
        {
            let c = self.entries[i].0.clone();
            let ghost before = ks@;
            ks.push(c);
            proof {
                assert(c@ == self.key_seq()[i as int]);
                assert(ks@ == before.push(c));
                assert forall|j: int| 0 <= j < i + 1 implies
                    string_views(ks@)[j] == #[trigger] self.key_seq().take(i + 1)[j] by {
                    if j < i {
                        assert(ks@[j] == before[j]);
                        assert(string_views(before)[j] == self.key_seq().take(i as int)[j]);
                    }
                }
            }
            i = i + 1;
            assert(string_views(ks@) =~= self.key_seq().take(i as int));
        }
        assert(self.key_seq().take(i as int) =~= self.key_seq());
        ks
    }
}

} // verus!
