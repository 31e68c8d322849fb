//! A bounded map with least-recently-used eviction.  Every entry carries a
//! recency stamp; reading a key through `get` and inserting through `put`
//! stamp it with the next counter value, and an insertion into a full map
//! first drops the entry with the lowest stamp.

use vstd::prelude::*;

use vstd::std_specs::cmp::PartialEqSpec;

verus! {

/// A key-value map of at most `S` entries with recency-based eviction.
pub struct LruMap<T, K, const S: usize> {
    /// The entries: key, value, recency stamp.
    entries: Vec<(K, T, u64)>,
    /// The last recency stamp handed out.
    counter: u64,
}

/// The next recency stamp: the counter saturates once exhausted.
pub open spec fn bumped(c: u64) -> u64 {
    if c < u64::MAX {
        (c + 1) as u64
    } else {
        c
    }
}

/// The smallest index whose recency stamp is minimal.
pub open spec fn min_stamp_index<T, K>(s: Seq<(K, T, u64)>) -> int
    decreases s.len(),
{
    if s.len() <= 1 {
        0
    } else {
        let m = min_stamp_index(s.drop_last());
        if s.last().2 < s[m].2 {
            s.len() - 1
        } else {
            m
        }
    }
}

proof fn lemma_min_stamp_index_range<T, K>(s: Seq<(K, T, u64)>)
    requires
        s.len() > 0,
    ensures
        0 <= min_stamp_index(s) < s.len(),
        forall|i: int| 0 <= i < s.len() ==> s[min_stamp_index(s)].2 <= #[trigger] s[i].2,
    decreases s.len(),
{
    if s.len() > 1 {
        lemma_min_stamp_index_range(s.drop_last());
        assert(forall|i: int| 0 <= i < s.len() - 1 ==> s.drop_last()[i] == #[trigger] s[i]);
    }
}

/// The first index whose key equals `k`, or -1.
pub open spec fn find_key_from<T, K: PartialEq>(s: Seq<(K, T, u64)>, k: K, i: int) -> int
    decreases s.len() - i,
{
    if i < 0 || i >= s.len() {
        -1
    } else if s[i].0.eq_spec(&k) {
        i
    } else {
        find_key_from(s, k, i + 1)
    }
}

/// The first index whose key equals `k`, or -1.
pub open spec fn find_key<T, K: PartialEq>(s: Seq<(K, T, u64)>, k: K) -> int {
    find_key_from(s, k, 0)
}

impl<T, K, const S: usize> LruMap<T, K, S> where K: PartialEq + Eq + Clone {
    /// The entries, in insertion order.
    pub closed spec fn entries(self) -> Seq<(K, T, u64)> {
        self.entries@
    }

    /// The last recency stamp handed out.
    pub closed spec fn counter(self) -> u64 {
        self.counter
    }

    /// Whether a key is present.
    pub open spec fn spec_contains(self, k: K) -> bool {
        find_key(self.entries(), k) >= 0
    }

    /// Create an empty map.
    pub fn new() -> (r: Self)
        ensures
            r.entries() == Seq::<(K, T, u64)>::empty(),
            r.counter() == 0,
    {
        LruMap { entries: Vec::new(), counter: 0 }
    }

    /// The first entry index holding `key`, stamped with a fresh counter
    /// value when found.
    fn touch(&mut self, key: &K) -> (r: Option<usize>)
        requires
            K::obeys_eq_spec(),
        ensures
            r is None ==> *final(self) == *old(self) && find_key(old(self).entries(), *key) == -1,
            r matches Some(i) ==> ({
                &&& find_key(old(self).entries(), *key) == i as int
                &&& 0 <= i < old(self).entries().len()
                &&& final(self).counter() == bumped(old(self).counter())
                &&& final(self).entries() == old(self).entries().update(
                    i as int,
                    (
                        old(self).entries()[i as int].0,
                        old(self).entries()[i as int].1,
                        bumped(old(self).counter()),
                    ),
                )
            }),
    {
        let n: usize = self.entries.len();
        let mut i: usize = 0;
        while i < n
            invariant
                0 <= i <= n,
                n == self.entries@.len(),
                *self == *old(self),
                K::obeys_eq_spec(),
                find_key(self.entries@, *key) == find_key_from(self.entries@, *key, i as int),
            decreases n - i,
        {
            if self.entries[i].0.eq(key) {
                let c: u64 = if self.counter < u64::MAX {
                    self.counter + 1
                } else {
                    self.counter
                };
                self.counter = c;
                let kv: (K, T, u64) = self.entries.remove(i);
                self.entries.insert(i, (kv.0, kv.1, c));
                proof {
                    assert(self.entries@ =~= old(self).entries@.update(
                        i as int,
                        (
                            old(self).entries@[i as int].0,
                            old(self).entries@[i as int].1,
                            bumped(old(self).counter),
                        ),
                    ));
                }
                return Some(i);
            }
            i = i + 1;
        }
        None
    }

    /// Look a key up and stamp it as recently used; `None` leaves the map
    /// unchanged.
    pub fn get(&mut self, key: K) -> (r: Option<&T>)
        requires
            K::obeys_eq_spec(),
        ensures
            r is None ==> *final(self) == *old(self) && find_key(old(self).entries(), key) == -1,
            r matches Some(v) ==> ({
                let i = find_key(old(self).entries(), key);
                &&& 0 <= i < old(self).entries().len()
                &&& *v == old(self).entries()[i].1
                &&& final(self).counter() == bumped(old(self).counter())
                &&& final(self).entries() == old(self).entries().update(
                    i,
                    (old(self).entries()[i].0, old(self).entries()[i].1, bumped(
                        old(self).counter(),
                    )),
                )
            }),
    {
        match self.touch(&key) {
            Some(i) => Some(&self.entries[i].1),
            None => None,
        }
    }

    /// Whether a key is present; recency is untouched.
    pub fn contains(&self, key: K) -> (r: bool)
        requires
            K::obeys_eq_spec(),
        ensures
            r == self.spec_contains(key),
    {
        let n: usize = self.entries.len();
        let mut i: usize = 0;
        while i < n
            invariant
                0 <= i <= n,
                n == self.entries@.len(),
                K::obeys_eq_spec(),
                find_key(self.entries@, key) == find_key_from(self.entries@, key, i as int),
            decreases n - i,
        {
            if self.entries[i].0.eq(&key) {
                return true;
            }
            i = i + 1;
        }
        false
    }

    /// Insert a value under a key with a fresh recency stamp.  A full map
    /// first evicts the entry with the lowest stamp; a present key is
    /// overwritten in place.
    pub fn put(&mut self, key: K, t: T)
        requires
            K::obeys_eq_spec(),
        ensures
            ({
                let evicted = if old(self).entries().len() >= S && old(self).entries().len() > 0 {
                    min_stamp_index(old(self).entries())
                } else {
                    -1
                };
                let mid = if evicted >= 0 {
                    old(self).entries().remove(evicted)
                } else {
                    old(self).entries()
                };
                let c = bumped(old(self).counter());
                let j = find_key(mid, key);
                &&& final(self).counter() == c
                &&& final(self).entries() == (if j >= 0 {
                    mid.update(j, (key, t, c))
                } else {
                    mid.push((key, t, c))
                })
            }),
    {
        if self.entries.len() >= S && self.entries.len() > 0 {
            proof {
                lemma_min_stamp_index_range(self.entries@);
            }
            let lru: usize = self.min_stamp_at();
            self.entries.remove(lru);
        }
        let c: u64 = if self.counter < u64::MAX {
            self.counter + 1
        } else {
            self.counter
        };
        self.counter = c;
        let ghost mid: Seq<(K, T, u64)> = self.entries@;
        let n: usize = self.entries.len();
        let mut i: usize = 0;
        while i < n
            invariant
                0 <= i <= n,
                n == self.entries@.len(),
                self.entries@ == mid,
                self.counter == c,
                c == bumped(old(self).counter()),
                mid == (if old(self).entries().len() >= S && old(self).entries().len() > 0 {
                    old(self).entries().remove(min_stamp_index(old(self).entries()))
                } else {
                    old(self).entries()
                }),
                K::obeys_eq_spec(),
                find_key(self.entries@, key) == find_key_from(self.entries@, key, i as int),
            decreases n - i,
        {
            if self.entries[i].0.eq(&key) {
                proof {
                    if old(self).entries().len() > 0 {
                        lemma_min_stamp_index_range(old(self).entries());
                    }
                    assert(find_key(mid, key) == i as int);
                }
                self.entries.set(i, (key, t, c));
                return ;
            }
            i = i + 1;
        }
        proof {
            if old(self).entries().len() > 0 {
                lemma_min_stamp_index_range(old(self).entries());
            }
        }
        self.entries.push((key, t, c));
    }

    /// Drop every entry and reset the recency counter.
    pub fn clear(&mut self)
        ensures
            final(self).entries() == Seq::<(K, T, u64)>::empty(),
            final(self).counter() == 0,
    {
        self.entries.clear();
        self.counter = 0;
    }

    /// The index of the entry with the lowest recency stamp.
    fn min_stamp_at(&self) -> (r: usize)
        requires
            self.entries().len() > 0,
        ensures
            r as int == min_stamp_index(self.entries()),
    {
        let n: usize = self.entries.len();
        let mut best: usize = 0;
        let mut i: usize = 1;
        proof {
            assert(self.entries@.subrange(0, 1).len() == 1);
            assert(min_stamp_index(self.entries@.subrange(0, 1)) == 0);
        }
        while i < n
            invariant
                1 <= i <= n,
                n == self.entries@.len(),
                0 <= best < i,
                best as int == min_stamp_index(self.entries@.subrange(0, i as int)),
            decreases n - i,
        {
            proof {
                let pre = self.entries@.subrange(0, i as int + 1);
                assert(pre.drop_last() =~= self.entries@.subrange(0, i as int));
                assert(pre.last() == self.entries@[i as int]);
            }
            if self.entries[i].2 < self.entries[best].2 {
                best = i;
            }
            i = i + 1;
        }
        proof {
            assert(self.entries@.subrange(0, n as int) =~= self.entries@);
        }
        best
    }
}

} // verus!
