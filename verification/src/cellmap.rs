//! A small association map from grid cells to values, backed by a vector
//! of entries with pairwise-distinct keys. The pathfinder uses it for its
//! per-cell bookkeeping; the grids involved are small, so linear scans
//! are fine and keep the structure easy to reason about.

use vstd::prelude::*;

verus! {

pub struct CellMap<V> {
    entries: Vec<((i32, i32), V)>,
}

impl<V: Copy> CellMap<V> {
    /// Keys are pairwise distinct, so each key names one entry.
    pub closed spec fn wf(&self) -> bool {
        forall|i: int, j: int|
            0 <= i < j < self.entries@.len() ==> (#[trigger] self.entries@[i]).0 != (
            #[trigger] self.entries@[j]).0
    }

    pub closed spec fn view(&self) -> Map<(i32, i32), V> {
        Map::new(
            |k: (i32, i32)|
                exists|i: int|
                    0 <= i < self.entries@.len() && (#[trigger] self.entries@[i]).0 == k,
            |k: (i32, i32)|
                {
                    let i = choose|i: int|
                        0 <= i < self.entries@.len() && (#[trigger] self.entries@[i]).0 == k;
                    self.entries@[i].1
                },
        )
    }

    /// An empty map.
    pub fn new() -> (m: Self)
        ensures
            m.wf(),
            m@ == Map::<(i32, i32), V>::empty(),
    {
        let m = CellMap { entries: Vec::new() };
        proof {
            assert(m@ =~= Map::<(i32, i32), V>::empty());
        }
        m
    }

    /// Looks a cell up.
    pub fn get(&self, k: (i32, i32)) -> (r: Option<V>)
        requires
            self.wf(),
        ensures
            match r {
                Some(v) => self@.contains_key(k) && self@[k] == v,
                None => !self@.contains_key(k),
            },
    {
        let n = self.entries.len();
        let mut i: usize = 0;
        while i < n
            invariant
                i <= n,
                n == self.entries@.len(),
                self.wf(),
                forall|j: int| 0 <= j < i ==> (#[trigger] self.entries@[j]).0 != k,
            decreases n - i,
        {
            let e = self.entries[i];
            if e.0.0 == k.0 && e.0.1 == k.1 {
                proof {
                    assert(self.entries@[i as int].0 == k);
                    assert(self@.contains_key(k));
                    let j = choose|j: int|
                        0 <= j < self.entries@.len() && (#[trigger] self.entries@[j]).0 == k;
                    assert(j == i as int);
                }
                return Some(e.1);
            }
            i = i + 1;
        }
        proof {
            assert(!self@.contains_key(k));
        }
        None
    }

    /// Binds a cell to a value, replacing any earlier binding.
    pub fn insert(&mut self, k: (i32, i32), v: V)
        requires
            old(self).wf(),
        ensures
            final(self).wf(),
            final(self)@ == old(self)@.insert(k, v),
    {
        let n = self.entries.len();
        let mut i: usize = 0;
        while i < n
            invariant
                i <= n,
                n == self.entries@.len(),
                self.wf(),
                self == old(self),
                forall|j: int| 0 <= j < i ==> (#[trigger] self.entries@[j]).0 != k,
            decreases n - i,
        {
            let e = self.entries[i];
            if e.0.0 == k.0 && e.0.1 == k.1 {
                proof {
                    assert(self.entries@[i as int].0 == k);
                }
                self.entries[i] = (k, v);
                proof {
                    lemma_unique_key_view(self.entries@, k, v, i as int);
                    assert(self.wf());
                    assert(self@ =~= old(self)@.insert(k, v)) by {
                        assert forall|q: (i32, i32)| self@.contains_key(q) == old(
                            self,
                        )@.insert(k, v).contains_key(q) by {
                            lemma_update_same_keys(old(self).entries@, self.entries@, q);
                        }
                        assert forall|q: (i32, i32)|
                            self@.contains_key(q) && q != k implies self@[q] == old(
                            self,
                        )@[q] by {
                            lemma_other_key_value(old(self).entries@, self.entries@, q, i as int);
                        }
                    }
                }
                return ;
            }
            i = i + 1;
        }
        self.entries.push((k, v));
        proof {
            assert(self.entries@.last() == (k, v));
            assert(self.wf()) by {
                assert(forall|j: int|
                    0 <= j < self.entries@.len() - 1 ==> (#[trigger] self.entries@[j]).0 != k);
            }
            lemma_unique_key_view(self.entries@, k, v, n as int);
            assert(self@ =~= old(self)@.insert(k, v)) by {
                assert forall|q: (i32, i32)|
                    self@.contains_key(q) && q != k implies old(self)@.contains_key(q) && self@[q]
                    == old(self)@[q] by {
                    lemma_other_key_value(old(self).entries@, self.entries@, q, n as int);
                }
                assert forall|q: (i32, i32)|
                    old(self)@.contains_key(q) implies self@.contains_key(q) by {
                    let j = choose|j: int|
                        0 <= j < old(self).entries@.len() && (#[trigger] old(
                            self,
                        ).entries@[j]).0 == q;
                    assert(self.entries@[j].0 == q);
                }
            }
        }
    }
}

/// With pairwise-distinct keys, an entry holding key `k` at position `i`
/// decides both membership and the value of `k` in the derived map.
proof fn lemma_unique_key_view<V>(s: Seq<((i32, i32), V)>, k: (i32, i32), v: V, i: int)
    requires
        0 <= i < s.len(),
        s[i] == ((k, v)),
        forall|m: int, j: int| 0 <= m < j < s.len() ==> (#[trigger] s[m]).0 != (#[trigger] s[j]).0,
    ensures
        exists|j: int| 0 <= j < s.len() && (#[trigger] s[j]).0 == k,
        ({
            let j = choose|j: int| 0 <= j < s.len() && (#[trigger] s[j]).0 == k;
            s[j].1 == v
        }),
{
    assert(s[i].0 == k);
    let j = choose|j: int| 0 <= j < s.len() && (#[trigger] s[j]).0 == k;
    assert(j == i);
}

/// An update that keeps the key at the updated position leaves the key
/// set of every entry unchanged.
proof fn lemma_update_same_keys<V>(s1: Seq<((i32, i32), V)>, s2: Seq<((i32, i32), V)>, q: (i32, i32))
    requires
        s1.len() == s2.len(),
        forall|j: int| 0 <= j < s1.len() ==> (#[trigger] s1[j]).0 == (#[trigger] s2[j]).0,
    ensures
        (exists|j: int| 0 <= j < s1.len() && (#[trigger] s1[j]).0 == q) == (exists|j: int|
            0 <= j < s2.len() && (#[trigger] s2[j]).0 == q),
{
    if exists|j: int| 0 <= j < s1.len() && (#[trigger] s1[j]).0 == q {
        let j = choose|j: int| 0 <= j < s1.len() && (#[trigger] s1[j]).0 == q;
        assert(s2[j].0 == q);
    }
    if exists|j: int| 0 <= j < s2.len() && (#[trigger] s2[j]).0 == q {
        let j = choose|j: int| 0 <= j < s2.len() && (#[trigger] s2[j]).0 == q;
        assert(s1[j].0 == q);
    }
}

/// A change confined to position `i` leaves lookup of any key other than
/// the one stored there untouched.
proof fn lemma_other_key_value<V>(
    s1: Seq<((i32, i32), V)>,
    s2: Seq<((i32, i32), V)>,
    q: (i32, i32),
    i: int,
)
    requires
        s1.len() <= s2.len(),
        forall|j: int| 0 <= j < s1.len() && j != i ==> #[trigger] s2[j] == #[trigger] s1[j],
        s2.len() <= s1.len() + 1,
        s2.len() == s1.len() + 1 ==> i == s1.len(),
        0 <= i < s2.len(),
        s2[i].0 != q,
        i < s1.len() ==> s1[i].0 != q,
        forall|m: int, j: int| 0 <= m < j < s1.len() ==> (#[trigger] s1[m]).0 != (#[trigger] s1[j]).0,
        exists|j: int| 0 <= j < s2.len() && (#[trigger] s2[j]).0 == q,
    ensures
        exists|j: int| 0 <= j < s1.len() && (#[trigger] s1[j]).0 == q,
        ({
            let j1 = choose|j: int| 0 <= j < s1.len() && (#[trigger] s1[j]).0 == q;
            let j2 = choose|j: int| 0 <= j < s2.len() && (#[trigger] s2[j]).0 == q;
            s1[j1].1 == s2[j2].1
        }),
{
    let j2 = choose|j: int| 0 <= j < s2.len() && (#[trigger] s2[j]).0 == q;
    assert(j2 != i);
    assert(j2 < s1.len());
    assert(s1[j2].0 == q);
    let j1 = choose|j: int| 0 <= j < s1.len() && (#[trigger] s1[j]).0 == q;
    assert(j1 == j2);
    assert(s1[j1].1 == s2[j2].1);
}

} // verus!
