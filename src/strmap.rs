use vstd::prelude::*;

verus! {

pub open spec fn key_at<V>(s: Seq<(String, V)>, i: int, k: Seq<char>) -> bool {
    0 <= i < s.len() && s[i].0@ == k
}

pub open spec fn seq_has_key<V>(s: Seq<(String, V)>, k: Seq<char>) -> bool {
    exists|i: int| key_at(s, i, k)
}

pub open spec fn seq_index_of<V>(s: Seq<(String, V)>, k: Seq<char>) -> int {
    choose|i: int| key_at(s, i, k)
}

/// No key occurs twice in the entries.
pub open spec fn keys_distinct<V>(s: Seq<(String, V)>) -> bool {
    forall|i: int, j: int|
        0 <= i < s.len() && 0 <= j < s.len() && i != j ==> #[trigger] s[i].0@ != #[trigger] s[j].0@
}

/// The map that a list of entries stands for.
pub open spec fn seq_to_map<V>(s: Seq<(String, V)>) -> Map<Seq<char>, V> {
    Map::new(|k: Seq<char>| seq_has_key(s, k), |k: Seq<char>| s[seq_index_of(s, k)].1)
}

pub proof fn lemma_entry<V>(s: Seq<(String, V)>, i: int)
    requires
        keys_distinct(s),
        0 <= i < s.len(),
    ensures
        seq_to_map(s).contains_key(s[i].0@),
        seq_index_of(s, s[i].0@) == i,
        seq_to_map(s)[s[i].0@] == s[i].1,
{
    let k = s[i].0@;
    assert(key_at(s, i, k));
    let j = seq_index_of(s, k);
    assert(key_at(s, j, k));
}

pub proof fn lemma_push<V>(s: Seq<(String, V)>, k: String, v: V)
    requires
        keys_distinct(s),
        !seq_to_map(s).contains_key(k@),
    ensures
        keys_distinct(s.push((k, v))),
        seq_to_map(s.push((k, v))) == seq_to_map(s).insert(k@, v),
{
    let t = s.push((k, v));
    assert forall|i: int| 0 <= i < s.len() implies s[i].0@ != k@ by {
        if s[i].0@ == k@ {
            assert(key_at(s, i, k@));
        }
    }
    assert(keys_distinct(t));
    lemma_entry(t, s.len() as int);
    assert forall|q: Seq<char>| #[trigger] seq_to_map(t).contains_key(q) == seq_to_map(s).insert(k@, v).contains_key(q)
    by {
        if seq_has_key(s, q) {
            let j = seq_index_of(s, q);
            assert(key_at(t, j, q));
        }
        if seq_has_key(t, q) && q != k@ {
            let j = seq_index_of(t, q);
            assert(key_at(s, j, q));
        }
    }
    assert forall|q: Seq<char>| #[trigger] seq_to_map(t).contains_key(q) && q != k@ implies seq_to_map(t)[q] == seq_to_map(s)[q]
    by {
        let j = seq_index_of(t, q);
        assert(key_at(s, j, q));
        lemma_entry(s, j);
        lemma_entry(t, j);
    }
    assert(seq_to_map(t) =~= seq_to_map(s).insert(k@, v));
}

pub proof fn lemma_update<V>(s: Seq<(String, V)>, i: int, v: V)
    requires
        keys_distinct(s),
        0 <= i < s.len(),
    ensures
        keys_distinct(s.update(i, (s[i].0, v))),
        seq_to_map(s.update(i, (s[i].0, v))) == seq_to_map(s).insert(s[i].0@, v),
{
    let k = s[i].0@;
    let t = s.update(i, (s[i].0, v));
    assert(keys_distinct(t));
    lemma_entry(t, i);
    lemma_entry(s, i);
    assert forall|q: Seq<char>| #[trigger] seq_to_map(t).contains_key(q) == seq_to_map(s).insert(k, v).contains_key(q)
    by {
        if seq_has_key(s, q) {
            let j = seq_index_of(s, q);
            assert(key_at(t, j, q));
        }
        if seq_has_key(t, q) {
            let j = seq_index_of(t, q);
            assert(key_at(s, j, q));
        }
    }
    assert forall|q: Seq<char>| #[trigger] seq_to_map(t).contains_key(q) && q != k implies seq_to_map(t)[q] == seq_to_map(s)[q]
    by {
        let j = seq_index_of(t, q);
        assert(key_at(t, j, q));
        assert(key_at(s, j, q));
        lemma_entry(s, j);
        lemma_entry(t, j);
    }
    assert(seq_to_map(t) =~= seq_to_map(s).insert(k, v));
}

pub proof fn lemma_remove<V>(s: Seq<(String, V)>, i: int)
    requires
        keys_distinct(s),
        0 <= i < s.len(),
    ensures
        keys_distinct(s.remove(i)),
        seq_to_map(s.remove(i)) == seq_to_map(s).remove(s[i].0@),
{
    let k = s[i].0@;
    let t = s.remove(i);
    assert forall|a: int, b: int| 0 <= a < t.len() && 0 <= b < t.len() && a != b implies #[trigger] t[a].0@ != #[trigger] t[b].0@
    by {
        let a2 = if a < i { a } else { a + 1 };
        let b2 = if b < i { b } else { b + 1 };
        assert(t[a] == s[a2] && t[b] == s[b2]);
    }
    lemma_entry(s, i);
    assert forall|q: Seq<char>| #[trigger] seq_to_map(t).contains_key(q) == seq_to_map(s).remove(k).contains_key(q)
    by {
        if seq_has_key(s, q) && q != k {
            let j = seq_index_of(s, q);
            let j2 = if j < i { j } else { j - 1 };
            assert(key_at(t, j2, q));
        }
        if seq_has_key(t, q) {
            let j = seq_index_of(t, q);
            let j2 = if j < i { j } else { j + 1 };
            assert(t[j] == s[j2]);
            assert(key_at(s, j2, q));
            if q == k {
                assert(s[j2].0@ == s[i].0@);
            }
        }
    }
    assert forall|q: Seq<char>| #[trigger] seq_to_map(t).contains_key(q) implies seq_to_map(t)[q] == seq_to_map(s)[q]
    by {
        let j = seq_index_of(t, q);
        assert(key_at(t, j, q));
        let j2 = if j < i { j } else { j + 1 };
        assert(t[j] == s[j2]);
        lemma_entry(s, j2);
        lemma_entry(t, j);
    }
    assert(seq_to_map(t) =~= seq_to_map(s).remove(k));
}

pub proof fn lemma_len<V>(s: Seq<(String, V)>)
    requires
        keys_distinct(s),
    ensures
        seq_to_map(s).dom().finite(),
        seq_to_map(s).len() == s.len(),
    decreases s.len(),
{
    if s.len() == 0 {
        assert(seq_to_map(s).dom() =~= Set::<Seq<char>>::empty());
    } else {
        let p = s.drop_last();
        let last = s.last();
        assert(keys_distinct(p));
        lemma_len(p);
        assert(!seq_to_map(p).contains_key(last.0@)) by {
            if seq_has_key(p, last.0@) {
                let j = seq_index_of(p, last.0@);
                assert(s[j].0@ == s[s.len() - 1].0@);
            }
        }
        lemma_push(p, last.0, last.1);
        assert(p.push(last) =~= s);
    }
}

/// A map from string keys to values, kept as a list of entries with distinct
/// keys in the order in which they were first inserted.
pub struct StrMap<V> {
    pub entries: Vec<(String, V)>,
}

impl<V> View for StrMap<V> {
    type V = Map<Seq<char>, V>;

    open spec fn view(&self) -> Map<Seq<char>, V> {
        seq_to_map(self.entries@)
    }
}

impl<V> StrMap<V> {
    pub open spec fn wf(&self) -> bool {
        keys_distinct(self.entries@)
    }

    /// The keys in entry order.
    pub open spec fn key_seq(&self) -> Seq<Seq<char>> {
        self.entries@.map_values(|e: (String, V)| e.0@)
    }

    pub fn new() -> (r: Self)
        ensures
            r.wf(),
            r@ == Map::<Seq<char>, V>::empty(),
            r.entries@.len() == 0,
    {
        let r = StrMap { entries: Vec::new() };
        assert(r@ =~= Map::<Seq<char>, V>::empty());
        r
    }

    /// The number of keys.
    pub fn len(&self) -> (r: usize)
        requires
            self.wf(),
        ensures
            r == self@.len(),
            r == self.entries@.len(),
            self@.dom().finite(),
    {
        proof {
            lemma_len(self.entries@);
        }
        self.entries.len()
    }

    pub fn is_empty(&self) -> (r: bool)
        requires
            self.wf(),
        ensures
            r == (self@.len() == 0),
            r == (self.entries@.len() == 0),
            r == (self@ == Map::<Seq<char>, V>::empty()),
    {
        proof {
            lemma_len(self.entries@);
            if self.entries@.len() > 0 {
                lemma_entry(self.entries@, 0);
            } else {
                assert(self@ =~= Map::<Seq<char>, V>::empty());
            }
        }
        self.entries.len() == 0
    }

    /// The position of `k` among the entries, if it is there.
    pub fn find(&self, k: &String) -> (r: Option<usize>)
        requires
            self.wf(),
        ensures
            match r {
                Some(i) => i < self.entries@.len() && self.entries@[i as int].0@ == k@
                    && self@.contains_key(k@) && self@[k@] == self.entries@[i as int].1,
                None => !self@.contains_key(k@),
            },
    {
        let mut i: usize = 0;
        while i < self.entries.len()
            invariant
                self.wf(),
                i <= self.entries@.len(),
                forall|j: int| 0 <= j < i ==> self.entries@[j].0@ != k@,
            decreases self.entries@.len() - i,
        {
            if self.entries[i].0 == *k {
                proof {
                    lemma_entry(self.entries@, i as int);
                }
                return Some(i);
            }
            i = i + 1;
        }
        None
    }

    pub fn contains_key(&self, k: &String) -> (r: bool)
        requires
            self.wf(),
        ensures
            r == self@.contains_key(k@),
    {
        self.find(k).is_some()
    }

    pub fn get(&self, k: &String) -> (r: Option<&V>)
        requires
            self.wf(),
        ensures
            match r {
                Some(v) => self@.contains_key(k@) && *v == self@[k@],
                None => !self@.contains_key(k@),
            },
    {
        match self.find(k) {
            Some(i) => Some(&self.entries[i].1),
            None => None,
        }
    }

    /// Sets the value of `k`; returns whether `k` was absent before.
    pub fn insert(&mut self, k: String, v: V) -> (r: bool)
        requires
            old(self).wf(),
        ensures
            final(self).wf(),
            final(self)@ == old(self)@.insert(k@, v),
            r == !old(self)@.contains_key(k@),
    {
        match self.find(&k) {
            Some(i) => {
                proof {
                    lemma_update(self.entries@, i as int, v);
                }
                let key = self.entries[i].0.clone();
                self.entries.set(i, (key, v));
                false
            },
            None => {
                proof {
                    lemma_push(self.entries@, k, v);
                }
                self.entries.push((k, v));
                true
            },
        }
    }

    /// Takes `k` out of the map and hands back its value, if it was there.
    pub fn remove(&mut self, k: &String) -> (r: Option<V>)
        requires
            old(self).wf(),
        ensures
            final(self).wf(),
            final(self)@ == old(self)@.remove(k@),
            match r {
                Some(v) => old(self)@.contains_key(k@) && v == old(self)@[k@],
                None => !old(self)@.contains_key(k@),
            },
    {
        match self.find(k) {
            Some(i) => {
                proof {
                    lemma_remove(self.entries@, i as int);
                }
                let e = self.entries.remove(i);
                Some(e.1)
            },
            None => {
                assert(old(self)@.remove(k@) =~= old(self)@);
                None
            },
        }
    }

    pub fn clear(&mut self)
        ensures
            final(self).wf(),
            final(self)@ == Map::<Seq<char>, V>::empty(),
    {
        self.entries.clear();
        assert(final(self)@ =~= Map::<Seq<char>, V>::empty());
    }
}

impl<V: Copy> StrMap<V> {
    /// A copy of the map, with its entries in the same order.
    pub fn duplicate(&self) -> (r: Self)
        ensures
            r.entries@ == self.entries@,
            r@ == self@,
    {
        let mut out: Vec<(String, V)> = Vec::new();
        let mut i: usize = 0;
        while i < self.entries.len()
            invariant
                i <= self.entries@.len(),
                out@ == self.entries@.subrange(0, i as int),
            decreases self.entries@.len() - i,
        {
            out.push((self.entries[i].0.clone(), self.entries[i].1));
            i = i + 1;
        }
        assert(out@ =~= self.entries@);
        StrMap { entries: out }
    }
}

} // verus!
