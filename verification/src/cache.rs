//! A bounded memo store with least-recently-used eviction, keyed by strings:
//! the process-wide cache that fetch results and favicon hashes are memoized
//! in. The most recently used entry stands last; the entry evicted first
//! stands first.

use crate::strutil::str_eq;
use vstd::prelude::*;

verus! {

/// Key uniqueness over the stored entries.
pub open spec fn cache_keys_unique<V>(es: Seq<(String, V)>) -> bool {
    forall|a: int, b: int| 0 <= a < b < es.len() ==> (#[trigger] es[a]).0@ != (#[trigger] es[b]).0@
}

/// Some entry carries exactly this key.
pub open spec fn cache_has_key<V>(es: Seq<(String, V)>, k: Seq<char>) -> bool {
    exists|i: int| 0 <= i < es.len() && (#[trigger] es[i]).0@ == k
}

/// A fixed-capacity store: at most `capacity` entries, keys unique, entries
/// ordered from least to most recently used.
pub struct SizedCache<V> {
    pub entries: Vec<(String, V)>,
    pub capacity: usize,
}

impl<V> SizedCache<V> {
    /// The store's invariant.
    pub open spec fn wf(&self) -> bool {
        &&& self.capacity > 0
        &&& self.entries@.len() <= self.capacity
        &&& cache_keys_unique(self.entries@)
    }

    /// An empty store of the given capacity.
    pub fn with_size(capacity: usize) -> (r: SizedCache<V>)
        requires
            capacity > 0,
        ensures
            r.wf(),
            r.capacity == capacity,
            r.entries@.len() == 0,
    {
        SizedCache { entries: Vec::new(), capacity }
    }

    /// Where the entry with this key stands, when one does.
    pub fn get_index(&self, k: &str) -> (r: Option<usize>)
        ensures
            match r {
                Some(i) => i < self.entries@.len() && self.entries@[i as int].0@ == k@,
                None => !cache_has_key(self.entries@, k@),
            },
    {
        let mut i: usize = 0;
        while i < self.entries.len()
            invariant
                i <= self.entries.len(),
                forall|t: int| 0 <= t < i ==> (#[trigger] self.entries@[t]).0@ != k@,
            decreases self.entries.len() - i,
        {
            if str_eq(self.entries[i].0.as_str(), k) {
                return Some(i);
            }
            i += 1;
        }
        None
    }

    /// Reads the entry at a position.
    pub fn value(&self, i: usize) -> (r: &V)
        requires
            i < self.entries@.len(),
        ensures
            *r == self.entries@[i as int].1,
    {
        &self.entries[i].1
    }

    /// Marks the entry at a position as the most recently used.
    pub fn touch(&mut self, i: usize)
        requires
            old(self).wf(),
            i < old(self).entries@.len(),
        ensures
            final(self).wf(),
            final(self).capacity == old(self).capacity,
            final(self).entries@ == old(self).entries@.remove(i as int).push(
                old(self).entries@[i as int],
            ),
    {
        let ghost es0 = self.entries@;
        let e = self.entries.remove(i);
        self.entries.push(e);
        proof {
            let es1 = self.entries@;
            assert(es1 == es0.remove(i as int).push(es0[i as int]));
            assert forall|a: int, b: int| 0 <= a < b < es1.len() implies (es1[a]).0@
                != (es1[b]).0@ by {
                let a0: int = if a < i { a } else { a + 1 };
                if b == es1.len() - 1 {
                    assert(es1[a] == es0[a0]);
                    assert(es1[b] == es0[i as int]);
                } else {
                    let b0: int = if b < i { b } else { b + 1 };
                    assert(es1[a] == es0[a0]);
                    assert(es1[b] == es0[b0]);
                }
            }
        }
    }

    /// Writes `k -> v` as the most recently used entry: an entry of the same
    /// key is replaced wherever it stood; when the store is full the least
    /// recently used entry leaves.
    pub fn insert(&mut self, k: String, v: V)
        requires
            old(self).wf(),
        ensures
            final(self).wf(),
            final(self).capacity == old(self).capacity,
            ({
                let es0 = old(self).entries@;
                let es1 = final(self).entries@;
                if cache_has_key(es0, k@) {
                    exists|i: int|
                        0 <= i < es0.len() && (#[trigger] es0[i]).0@ == k@ && es1 == es0.remove(
                            i,
                        ).push((k, v))
                } else if es0.len() < old(self).capacity {
                    es1 == es0.push((k, v))
                } else {
                    es1 == es0.drop_first().push((k, v))
                }
            }),
    {
        let ghost es0 = self.entries@;
        match self.get_index(k.as_str()) {
            Some(i) => {
                self.entries.remove(i);
                self.entries.push((k, v));
                proof {
                    let es1 = self.entries@;
                    assert(es1 == es0.remove(i as int).push(es1.last()));
                    assert forall|a: int, b: int| 0 <= a < b < es1.len() implies (es1[a]).0@
                        != (es1[b]).0@ by {
                        let a0: int = if a < i { a } else { a + 1 };
                        if b == es1.len() - 1 {
                            assert(es1[a] == es0[a0]);
                            assert(es0[a0].0@ != es0[i as int].0@);
                        } else {
                            let b0: int = if b < i { b } else { b + 1 };
                            assert(es1[a] == es0[a0]);
                            assert(es1[b] == es0[b0]);
                        }
                    }
                }
            },
            None => {
                if self.entries.len() == self.capacity {
                    self.entries.remove(0);
                    self.entries.push((k, v));
                    proof {
                        let es1 = self.entries@;
                        assert(es0.remove(0) =~= es0.drop_first());
                        assert(es1 == es0.drop_first().push(es1.last()));
                        assert forall|a: int, b: int| 0 <= a < b < es1.len() implies (es1[a]).0@
                            != (es1[b]).0@ by {
                            if b == es1.len() - 1 {
                                assert(es1[a] == es0[a + 1]);
                            } else {
                                assert(es1[a] == es0[a + 1]);
                                assert(es1[b] == es0[b + 1]);
                            }
                        }
                    }
                } else {
                    self.entries.push((k, v));
                    proof {
                        let es1 = self.entries@;
                        assert forall|a: int, b: int| 0 <= a < b < es1.len() implies (es1[a]).0@
                            != (es1[b]).0@ by {
                            if b == es1.len() - 1 {
                                assert(es1[a] == es0[a]);
                            } else {
                                assert(es1[a] == es0[a]);
                                assert(es1[b] == es0[b]);
                            }
                        }
                    }
                }
            },
        }
    }
}

} // verus!
