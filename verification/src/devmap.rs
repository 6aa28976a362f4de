use vstd::prelude::*;

verus! {

/// True when some pair of `s` carries the key `k`.
pub open spec fn seq_has_key<V>(s: Seq<(String, V)>, k: Seq<char>) -> bool {
    exists|i: int| #![trigger s[i]] 0 <= i < s.len() && s[i].0@ == k
}

/// The index of the pair of `s` that carries the key `k`.
pub open spec fn seq_key_index<V>(s: Seq<(String, V)>, k: Seq<char>) -> int {
    choose|i: int| #![trigger s[i]] 0 <= i < s.len() && s[i].0@ == k
}

/// True when no two pairs of `s` carry the same key.
pub open spec fn seq_unique_keys<V>(s: Seq<(String, V)>) -> bool {
    forall|i: int, j: int|
        #![trigger s[i], s[j]]
        0 <= i < j < s.len() ==> s[i].0@ != s[j].0@
}

/// The mapping that an association list stands for.
pub open spec fn seq_as_map<V>(s: Seq<(String, V)>) -> Map<Seq<char>, V> {
    Map::new(
        |k: Seq<char>| seq_has_key(s, k),
        |k: Seq<char>| s[seq_key_index(s, k)].1,
    )
}

/// With unique keys, a pair's index is the one `seq_key_index` picks, and the
/// mapping sends its key to its value.
proof fn lemma_key_index_unique<V>(s: Seq<(String, V)>, i: int)
    requires
        seq_unique_keys(s),
        0 <= i < s.len(),
    ensures
        seq_has_key(s, s[i].0@),
        seq_key_index(s, s[i].0@) == i,
        seq_as_map(s)[s[i].0@] == s[i].1,
{
    let k = s[i].0@;
    assert(seq_has_key(s, k));
    let j = seq_key_index(s, k);
    assert(0 <= j < s.len() && s[j].0@ == k);
    if j < i {
        assert(s[j].0@ != s[i].0@);
    } else if i < j {
        assert(s[i].0@ != s[j].0@);
    }
}

/// Appending a pair with a fresh key adds exactly that key to the mapping.
proof fn lemma_map_push<V>(s: Seq<(String, V)>, p: (String, V))
    requires
        seq_unique_keys(s),
        !seq_has_key(s, p.0@),
    ensures
        seq_unique_keys(s.push(p)),
        seq_as_map(s.push(p)) =~= seq_as_map(s).insert(p.0@, p.1),
{
    let t = s.push(p);
    assert(forall|i: int| 0 <= i < s.len() ==> t[i] == s[i]);
    assert(t[s.len() as int] == p);
    assert forall|i: int, j: int| 0 <= i < j < t.len() implies t[i].0@ != t[j].0@ by {
        if j < s.len() {
            assert(s[i].0@ != s[j].0@);
        } else {
            assert(t[i] == s[i]);
            assert(s[i].0@ != p.0@);
        }
    }
    assert forall|k: Seq<char>| #[trigger] seq_has_key(t, k) implies
        k == p.0@ || seq_has_key(s, k) by {
        let i = choose|i: int| #![trigger t[i]] 0 <= i < t.len() && t[i].0@ == k;
        if i < s.len() {
            assert(s[i].0@ == k);
        }
    }
    assert forall|k: Seq<char>| seq_has_key(t, k) implies
        seq_as_map(t)[k] == seq_as_map(s).insert(p.0@, p.1)[k] by {
        let i = seq_key_index(t, k);
        assert(0 <= i < t.len() && t[i].0@ == k);
        if i < s.len() {
            assert(t[i] == s[i]);
            lemma_key_index_unique(s, i);
        } else {
            assert(t[i] == p);
        }
    }
    assert forall|k: Seq<char>| seq_has_key(s, k) || k == p.0@ implies
        #[trigger] seq_has_key(t, k) by {
        if seq_has_key(s, k) {
            let i = seq_key_index(s, k);
            assert(t[i].0@ == k);
        } else {
            assert(t[s.len() as int].0@ == k);
        }
    }
}

/// Removing the pair at `i` removes exactly its key from the mapping.
proof fn lemma_map_remove<V>(s: Seq<(String, V)>, i: int)
    requires
        seq_unique_keys(s),
        0 <= i < s.len(),
    ensures
        seq_unique_keys(s.remove(i)),
        seq_as_map(s.remove(i)) =~= seq_as_map(s).remove(s[i].0@),
{
    let t = s.remove(i);
    let k0 = s[i].0@;
    s.remove_ensures(i);
    assert(forall|j: int| 0 <= j < i ==> #[trigger] t[j] == s[j]);
    assert(forall|j: int| i <= j < s.len() - 1 ==> #[trigger] t[j] == s[j + 1]);
    assert forall|j1: int, j2: int| 0 <= j1 < j2 < t.len() implies t[j1].0@ != t[j2].0@ by {
        let i1 = if j1 < i { j1 } else { j1 + 1 };
        let i2 = if j2 < i { j2 } else { j2 + 1 };
        assert(t[j1] == s[i1]);
        assert(t[j2] == s[i2]);
        assert(s[i1].0@ != s[i2].0@);
    }
    assert forall|j: int| 0 <= j < t.len() implies (#[trigger] t[j]).0@ != k0 by {
        let ij = if j < i { j } else { j + 1 };
        assert(t[j] == s[ij]);
        if ij < i {
            assert(s[ij].0@ != s[i].0@);
        } else {
            assert(s[i].0@ != s[ij].0@);
        }
    }
    assert forall|k: Seq<char>| #[trigger] seq_has_key(t, k) implies
        seq_has_key(s, k) && k != k0 by {
        let j = choose|j: int| #![trigger t[j]] 0 <= j < t.len() && t[j].0@ == k;
        let ij = if j < i { j } else { j + 1 };
        assert(t[j] == s[ij]);
        assert(s[ij].0@ == k);
    }
    assert forall|k: Seq<char>| seq_has_key(s, k) && k != k0 implies
        #[trigger] seq_has_key(t, k) by {
        let j = seq_key_index(s, k);
        assert(0 <= j < s.len() && s[j].0@ == k);
        if j < i {
            assert(t[j].0@ == k);
        } else if j > i {
            assert(t[j - 1] == s[j]);
        }
    }
    assert forall|k: Seq<char>| seq_has_key(t, k) implies
        seq_as_map(t)[k] == seq_as_map(s)[k] by {
        let j = seq_key_index(t, k);
        assert(0 <= j < t.len() && t[j].0@ == k);
        let ij = if j < i { j } else { j + 1 };
        assert(t[j] == s[ij]);
        lemma_key_index_unique(s, ij);
        lemma_key_index_unique(t, j);
    }
}

/// An association list from device identities to values, with at most one
/// entry per identity. Its view is the mapping from each stored identity,
/// as a character sequence, to the value kept for it.
pub struct DeviceMap<V> {
    pairs: Vec<(String, V)>,
}

impl<V> View for DeviceMap<V> {
    type V = Map<Seq<char>, V>;

    closed spec fn view(&self) -> Map<Seq<char>, V> {
        seq_as_map(self.pairs@)
    }
}

impl<V> DeviceMap<V> {
    /// The stored pairs, for reasoning that needs the concrete order.
    pub closed spec fn entries_seq(self) -> Seq<(String, V)> {
        self.pairs@
    }

    /// No two stored pairs carry the same device identity.
    pub closed spec fn wf(self) -> bool {
        seq_unique_keys(self.pairs@)
    }

    pub fn new() -> (r: Self)
        ensures
            r.wf(),
            r@ =~= Map::<Seq<char>, V>::empty(),
            r.entries_seq() == Seq::<(String, V)>::empty(),
    {
        let r = DeviceMap { pairs: Vec::new() };
        proof {
            assert(r@ =~= Map::<Seq<char>, V>::empty());
        }
        r
    }

    /// The index of the entry for `key`, if one is stored.
    fn find_index(&self, key: &String) -> (r: Option<usize>)
        ensures
            match r {
                Some(i) => i < self.pairs@.len() && self.pairs@[i as int].0@ == key@,
                None => !seq_has_key(self.pairs@, key@),
            },
    {
        let n = self.pairs.len();
        let mut i: usize = 0;
        while i < n
            invariant
                n == self.pairs@.len(),
                0 <= i <= n,
                forall|j: int| #![trigger self.pairs@[j]] 0 <= j < i ==> self.pairs@[j].0@ != key@,
            decreases n - i,
        {
            if self.pairs[i].0 == *key {
                return Some(i);
            }
            i += 1;
        }
        None
    }

    pub fn get(&self, key: &String) -> (r: Option<&V>)
        requires
            self.wf(),
        ensures
            match r {
                Some(v) => self@.dom().contains(key@) && *v == self@[key@],
                None => !self@.dom().contains(key@),
            },
    {
        match self.find_index(key) {
            Some(i) => {
                proof {
                    lemma_key_index_unique(self.pairs@, i as int);
                }
                Some(&self.pairs[i].1)
            }
            None => None,
        }
    }

    /// Remove the entry for `key`, handing back its value if one was stored.
    pub fn remove(&mut self, key: &String) -> (prev: Option<V>)
        requires
            old(self).wf(),
        ensures
            final(self).wf(),
            final(self)@ =~= old(self)@.remove(key@),
            match prev {
                Some(v) => old(self)@.dom().contains(key@) && v == old(self)@[key@],
                None => !old(self)@.dom().contains(key@),
            },
    {
        match self.find_index(key) {
            Some(i) => {
                proof {
                    lemma_key_index_unique(self.pairs@, i as int);
                    lemma_map_remove(self.pairs@, i as int);
                }
                let pair = self.pairs.remove(i);
                Some(pair.1)
            }
            None => {
                proof {
                    assert(!self@.dom().contains(key@));
                    assert(self@ =~= self@.remove(key@));
                }
                None
            }
        }
    }

    /// Store `value` under `key`, replacing and handing back any value that
    /// was stored for `key` before.
    pub fn insert(&mut self, key: String, value: V) -> (prev: Option<V>)
        requires
            old(self).wf(),
        ensures
            final(self).wf(),
            final(self)@ =~= old(self)@.insert(key@, value),
            match prev {
                Some(v) => old(self)@.dom().contains(key@) && v == old(self)@[key@],
                None => !old(self)@.dom().contains(key@),
            },
    {
        let prev = self.remove(&key);
        proof {
            assert(!self@.dom().contains(key@));
            assert(!seq_has_key(self.pairs@, key@));
            lemma_map_push(self.pairs@, (key, value));
        }
        self.pairs.push((key, value));
        prev
    }

    /// How many devices have an entry.
    pub fn len(&self) -> (n: usize)
        ensures
            n == self.entries_seq().len(),
    {
        self.pairs.len()
    }

    /// The stored pairs themselves, in storage order: every pair is in the
    /// view, and every key of the view is some pair's.
    pub fn entries(&self) -> (r: &Vec<(String, V)>)
        requires
            self.wf(),
        ensures
            r@ == self.entries_seq(),
            forall|i: int| #![trigger r@[i]] 0 <= i < r@.len() ==>
                self@.dom().contains(r@[i].0@) && self@[r@[i].0@] == r@[i].1,
            forall|k: Seq<char>| #![trigger self@.dom().contains(k)] self@.dom().contains(k) ==>
                exists|i: int| #![trigger r@[i]] 0 <= i < r@.len() && r@[i].0@ == k,
    {
        proof {
            assert forall|i: int| #![trigger self.pairs@[i]] 0 <= i < self.pairs@.len() implies
                self@.dom().contains(self.pairs@[i].0@)
                    && self@[self.pairs@[i].0@] == self.pairs@[i].1 by {
                lemma_key_index_unique(self.pairs@, i);
            }
            assert forall|k: Seq<char>| #![trigger self@.dom().contains(k)]
                self@.dom().contains(k) implies
                exists|i: int| #![trigger self.pairs@[i]] 0 <= i < self.pairs@.len()
                    && self.pairs@[i].0@ == k by {
                let i = seq_key_index(self.pairs@, k);
                assert(0 <= i < self.pairs@.len() && self.pairs@[i].0@ == k);
            }
        }
        &self.pairs
    }
}

} // verus!
