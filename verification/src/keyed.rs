//! A small map keyed by fixed-size byte strings (client IDs, tokens), stored as a list of
//! distinct keys with their values.
use vstd::prelude::*;

verus! {

/// Whether two byte strings of the same length are equal.
pub fn bytes_equal<const N: usize>(a: &[u8; N], b: &[u8; N]) -> (r: bool)
    ensures
        r == (a@ == b@),
{
    let mut i: usize = 0;
    while i < N
        invariant
            i <= N,
            a@.len() == N,
            b@.len() == N,
            forall|j: int| 0 <= j < i ==> a@[j] == b@[j],
        decreases N - i,
    {
        if a[i] != b[i] {
            return false;
        }
        i = i + 1;
    }
    assert(a@ =~= b@);
    true
}

/// No key occurs twice.
pub open spec fn keys_distinct<const N: usize, V>(s: Seq<([u8; N], V)>) -> bool {
    forall|i: int, j: int|
        0 <= i < s.len() && 0 <= j < s.len() && i != j ==> (#[trigger] s[i]).0@ != (#[trigger] s[j]).0@
}

/// Whether some entry has the key `k`.
pub open spec fn has_key<const N: usize, V>(s: Seq<([u8; N], V)>, k: Seq<u8>) -> bool {
    exists|i: int| 0 <= i < s.len() && (#[trigger] s[i]).0@ == k
}

/// The value stored under `k` (meaningful when `has_key`).
pub open spec fn value_of<const N: usize, V>(s: Seq<([u8; N], V)>, k: Seq<u8>) -> V {
    s[choose|i: int| 0 <= i < s.len() && (#[trigger] s[i]).0@ == k].1
}

/// The map that a list of entries stands for.
pub open spec fn entries_map<const N: usize, V>(s: Seq<([u8; N], V)>) -> Map<Seq<u8>, V> {
    Map::new(|k: Seq<u8>| has_key(s, k), |k: Seq<u8>| value_of(s, k))
}

/// With distinct keys, the entry at `i` gives the value of its key.
proof fn lemma_value_at<const N: usize, V>(s: Seq<([u8; N], V)>, i: int)
    requires
        keys_distinct(s),
        0 <= i < s.len(),
    ensures
        has_key(s, s[i].0@),
        value_of(s, s[i].0@) == s[i].1,
{
    let k = s[i].0@;
    assert(has_key(s, k));
    let j = choose|j: int| 0 <= j < s.len() && (#[trigger] s[j]).0@ == k;
    assert(j == i);
}

/// A map from `N`-byte keys to values.
pub struct ByteKeyMap<const N: usize, V> {
    entries: Vec<([u8; N], V)>,
}

impl<const N: usize, V> View for ByteKeyMap<N, V> {
    type V = Map<Seq<u8>, V>;

    closed spec fn view(&self) -> Map<Seq<u8>, V> {
        entries_map(self.entries@)
    }
}

impl<const N: usize, V> ByteKeyMap<N, V> {
    #[verifier::type_invariant]
    spec fn inv(self) -> bool {
        keys_distinct(self.entries@)
    }
}

impl<const N: usize, V: Copy> ByteKeyMap<N, V> {

    /// An empty map.
    pub fn new() -> (r: Self)
        ensures
            r@ == Map::<Seq<u8>, V>::empty(),
    {
        let r = ByteKeyMap { entries: Vec::new() };
        assert(r@ =~= Map::<Seq<u8>, V>::empty());
        r
    }

    fn find(&self, k: &[u8; N]) -> (r: Option<usize>)
        ensures
            match r {
                Some(i) => i < self.entries@.len() && self.entries@[i as int].0@ == k@,
                None => !has_key(self.entries@, k@),
            },
    {
        let n = self.entries.len();
        let mut i: usize = 0;
        while i < n
            invariant
                n == self.entries@.len(),
                i <= n,
                forall|j: int| 0 <= j < i ==> (#[trigger] self.entries@[j]).0@ != k@,
            decreases n - i,
        {
            if bytes_equal(&self.entries[i].0, k) {
                return Some(i);
            }
            i = i + 1;
        }
        None
    }

    /// Whether `k` has a value.
    pub fn contains(&self, k: &[u8; N]) -> (r: bool)
        ensures
            r == self@.contains_key(k@),
    {
        self.find(k).is_some()
    }

    /// The value stored under `k`.
    pub fn get(&self, k: &[u8; N]) -> (r: Option<V>)
        ensures
            r == (if self@.contains_key(k@) {
                Some(self@[k@])
            } else {
                None::<V>
            }),
    {
        proof {
            use_type_invariant(self);
        }
        match self.find(k) {
            Some(i) => {
                proof {
                    lemma_value_at(self.entries@, i as int);
                }
                Some(self.entries[i].1)
            },
            None => None,
        }
    }

    /// Stores `v` under `k`, replacing any value stored under it.
    pub fn insert(&mut self, k: [u8; N], v: V)
        ensures
            final(self)@ == old(self)@.insert(k@, v),
    {
        proof {
            use_type_invariant(&*self);
        }
        let ghost old_entries = self.entries@;
        match self.find(&k) {
            Some(i) => {
                let mut entries = Vec::new();
                std::mem::swap(&mut entries, &mut self.entries);
                entries.set(i, (k, v));
                let ghost s = entries@;
                assert(s == old_entries.update(i as int, (k, v)));
                assert(keys_distinct(s)) by {
                    assert forall|a: int, b: int|
                        0 <= a < s.len() && 0 <= b < s.len() && a != b implies (#[trigger] s[a]).0@
                        != (#[trigger] s[b]).0@ by {
                        if a != i as int && b != i as int {
                            assert(old_entries[a] == s[a] && old_entries[b] == s[b]);
                        } else if a == i as int {
                            assert(old_entries[b] == s[b]);
                            assert(old_entries[i as int].0@ == k@);
                        } else {
                            assert(old_entries[a] == s[a]);
                            assert(old_entries[i as int].0@ == k@);
                        }
                    }
                }
                proof {
                    assert forall|key: Seq<u8>| #[trigger] entries_map(s).dom().contains(key) == old(
                        self,
                    )@.insert(k@, v).dom().contains(key) by {
                        if has_key(s, key) {
                            let a = choose|a: int| 0 <= a < s.len() && (#[trigger] s[a]).0@ == key;
                            if a != i as int {
                                assert(old_entries[a] == s[a]);
                            }
                        }
                        if has_key(old_entries, key) {
                            let a = choose|a: int|
                                0 <= a < old_entries.len() && (#[trigger] old_entries[a]).0@ == key;
                            if a != i as int {
                                assert(old_entries[a] == s[a]);
                            } else {
                                assert(s[i as int].0@ == k@);
                            }
                        }
                        if key == k@ {
                            assert(s[i as int].0@ == k@);
                        }
                    }
                    assert forall|key: Seq<u8>| #[trigger] entries_map(s).dom().contains(key)
                        implies entries_map(s)[key] == old(self)@.insert(k@, v)[key] by {
                        let a = choose|a: int| 0 <= a < s.len() && (#[trigger] s[a]).0@ == key;
                        lemma_value_at(s, a);
                        if a != i as int {
                            assert(old_entries[a] == s[a]);
                            lemma_value_at(old_entries, a);
                        }
                    }
                    assert(entries_map(s) =~= old(self)@.insert(k@, v));
                }
                self.entries = entries;
            },
            None => {
                let mut entries = Vec::new();
                std::mem::swap(&mut entries, &mut self.entries);
                entries.push((k, v));
                let ghost s = entries@;
                let ghost n = old_entries.len() as int;
                assert(s == old_entries.push((k, v)));
                assert(keys_distinct(s)) by {
                    assert forall|a: int, b: int|
                        0 <= a < s.len() && 0 <= b < s.len() && a != b implies (#[trigger] s[a]).0@
                        != (#[trigger] s[b]).0@ by {
                        if a != n && b != n {
                            assert(old_entries[a] == s[a] && old_entries[b] == s[b]);
                        } else if a == n {
                            assert(old_entries[b] == s[b]);
                        } else {
                            assert(old_entries[a] == s[a]);
                        }
                    }
                }
                proof {
                    assert forall|key: Seq<u8>| #[trigger] entries_map(s).dom().contains(key) == old(
                        self,
                    )@.insert(k@, v).dom().contains(key) by {
                        if has_key(s, key) {
                            let a = choose|a: int| 0 <= a < s.len() && (#[trigger] s[a]).0@ == key;
                            if a != n {
                                assert(old_entries[a] == s[a]);
                            }
                        }
                        if has_key(old_entries, key) {
                            let a = choose|a: int|
                                0 <= a < old_entries.len() && (#[trigger] old_entries[a]).0@ == key;
                            assert(old_entries[a] == s[a]);
                        }
                        if key == k@ {
                            assert(s[n].0@ == k@);
                        }
                    }
                    assert forall|key: Seq<u8>| #[trigger] entries_map(s).dom().contains(key)
                        implies entries_map(s)[key] == old(self)@.insert(k@, v)[key] by {
                        let a = choose|a: int| 0 <= a < s.len() && (#[trigger] s[a]).0@ == key;
                        lemma_value_at(s, a);
                        if a != n {
                            assert(old_entries[a] == s[a]);
                            lemma_value_at(old_entries, a);
                        }
                    }
                    assert(entries_map(s) =~= old(self)@.insert(k@, v));
                }
                self.entries = entries;
            },
        }
    }

    /// Removes the value stored under `k`, returning it.
    pub fn remove(&mut self, k: &[u8; N]) -> (r: Option<V>)
        ensures
            r == (if old(self)@.contains_key(k@) {
                Some(old(self)@[k@])
            } else {
                None::<V>
            }),
            final(self)@ == old(self)@.remove(k@),
    {
        proof {
            use_type_invariant(&*self);
        }
        let ghost old_entries = self.entries@;
        match self.find(k) {
            Some(i) => {
                proof {
                    lemma_value_at(old_entries, i as int);
                }
                let mut entries = Vec::new();
                std::mem::swap(&mut entries, &mut self.entries);
                let removed = entries.remove(i);
                let ghost s = entries@;
                assert(s == old_entries.remove(i as int));
                assert forall|a: int| 0 <= a < s.len() implies #[trigger] s[a] == old_entries[if a
                    < i as int {
                    a
                } else {
                    a + 1
                }] by {}
                assert(keys_distinct(s)) by {
                    assert forall|a: int, b: int|
                        0 <= a < s.len() && 0 <= b < s.len() && a != b implies (#[trigger] s[a]).0@
                        != (#[trigger] s[b]).0@ by {
                        let oa = if a < i as int {
                            a
                        } else {
                            a + 1
                        };
                        let ob = if b < i as int {
                            b
                        } else {
                            b + 1
                        };
                        assert(s[a] == old_entries[oa] && s[b] == old_entries[ob]);
                    }
                }
                proof {
                    assert forall|key: Seq<u8>| #[trigger] entries_map(s).dom().contains(key) == old(
                        self,
                    )@.remove(k@).dom().contains(key) by {
                        if has_key(s, key) {
                            let a = choose|a: int| 0 <= a < s.len() && (#[trigger] s[a]).0@ == key;
                            let oa = if a < i as int {
                                a
                            } else {
                                a + 1
                            };
                            assert(s[a] == old_entries[oa]);
                            assert(oa != i as int);
                        }
                        if has_key(old_entries, key) && key != k@ {
                            let oa = choose|a: int|
                                0 <= a < old_entries.len() && (#[trigger] old_entries[a]).0@ == key;
                            assert(oa != i as int);
                            let a = if oa < i as int {
                                oa
                            } else {
                                oa - 1
                            };
                            assert(s[a] == old_entries[oa]);
                        }
                    }
                    assert forall|key: Seq<u8>| #[trigger] entries_map(s).dom().contains(key)
                        implies entries_map(s)[key] == old(self)@.remove(k@)[key] by {
                        let a = choose|a: int| 0 <= a < s.len() && (#[trigger] s[a]).0@ == key;
                        let oa = if a < i as int {
                            a
                        } else {
                            a + 1
                        };
                        assert(s[a] == old_entries[oa]);
                        lemma_value_at(s, a);
                        lemma_value_at(old_entries, oa);
                    }
                    assert(entries_map(s) =~= old(self)@.remove(k@));
                }
                self.entries = entries;
                Some(removed.1)
            },
            None => {
                assert(old(self)@.remove(k@) =~= old(self)@);
                None
            },
        }
    }
}

} // verus!
