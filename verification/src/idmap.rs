use vstd::prelude::*;

verus! {

/// Association vector keyed by a signed 64-bit id.
///
/// The pipeline and the batch hold their payloads in such maps; the
/// abstraction shown to callers is the finite `Map` returned by `view`.
/// Entry order is not part of the abstraction.
#[derive(Debug)]
pub struct IdMap<V> {
    pub entries: Vec<(i64, V)>,
}

impl<V> IdMap<V> {
    /// Keys are pairwise distinct.
    pub open spec fn wf(&self) -> bool {
        forall|i: int, j: int|
            0 <= i < j < self.entries@.len() ==> (#[trigger] self.entries@[i]).0 != (
            #[trigger] self.entries@[j]).0
    }

    pub open spec fn spec_contains(&self, k: i64) -> bool {
        exists|i: int| 0 <= i < self.entries@.len() && (#[trigger] self.entries@[i]).0 == k
    }

    pub open spec fn index_of(&self, k: i64) -> int {
        choose|i: int| 0 <= i < self.entries@.len() && (#[trigger] self.entries@[i]).0 == k
    }

    /// The entries as a sequence, for callers that walk the map.
    pub open spec fn seq(&self) -> Seq<(i64, V)> {
        self.entries@
    }

    pub proof fn lemma_index_unique(&self, i: int, j: int)
        requires
            self.wf(),
            0 <= i < self.entries@.len(),
            0 <= j < self.entries@.len(),
            self.entries@[i].0 == self.entries@[j].0,
        ensures
            i == j,
    {
    }

    pub proof fn lemma_seq_view(&self, i: int)
        requires
            self.wf(),
            0 <= i < self.seq().len(),
        ensures
            self@.contains_key(self.seq()[i].0),
            self@[self.seq()[i].0] == self.seq()[i].1,
    {
        let k = self.seq()[i].0;
        assert(self.spec_contains(k));
        self.lemma_index_unique(i, self.index_of(k));
    }

    pub fn new() -> (r: IdMap<V>)
        ensures
            r.wf(),
            r@ =~= Map::<i64, V>::empty(),
            r.seq().len() == 0,
    {
        IdMap { entries: Vec::new() }
    }

    pub fn len(&self) -> (r: usize)
        ensures
            r == self.seq().len(),
    {
        self.entries.len()
    }

    pub fn is_empty(&self) -> (r: bool)
        requires
            self.wf(),
        ensures
            r == (self@ =~= Map::<i64, V>::empty()),
    {
        let r = self.entries.len() == 0;
        proof {
            if r {
                assert(forall|k: i64| !self.spec_contains(k));
            } else {
                let k0 = self.entries@[0].0;
                assert(self.spec_contains(k0));
                assert(self@.contains_key(k0));
            }
        }
        r
    }

    pub fn key_at(&self, i: usize) -> (r: i64)
        requires
            self.wf(),
            i < self.seq().len(),
        ensures
            r == self.seq()[i as int].0,
            self@.contains_key(r),
            self@[r] == self.seq()[i as int].1,
    {
        proof {
            self.lemma_seq_view(i as int);
        }
        self.entries[i].0
    }

    pub fn val_at(&self, i: usize) -> (r: &V)
        requires
            self.wf(),
            i < self.seq().len(),
        ensures
            *r == self.seq()[i as int].1,
            self@.contains_key(self.seq()[i as int].0),
            self@[self.seq()[i as int].0] == *r,
    {
        proof {
            self.lemma_seq_view(i as int);
        }
        &self.entries[i].1
    }

    fn find(&self, k: i64) -> (r: Option<usize>)
        requires
            self.wf(),
        ensures
            match r {
                Some(i) => i < self.seq().len() && self.seq()[i as int].0 == k,
                None => !self.spec_contains(k),
            },
    {
        let n = self.entries.len();
        let mut i: usize = 0;
        while i < n
            invariant
                n == self.seq().len(),
                i <= n,
                forall|j: int| 0 <= j < i ==> (#[trigger] self.seq()[j]).0 != k,
            decreases n - i,
        {
            if self.entries[i].0 == k {
                return Some(i);
            }
            i += 1;
        }
        None
    }

    pub fn contains(&self, k: i64) -> (r: bool)
        requires
            self.wf(),
        ensures
            r == self@.contains_key(k),
    {
        match self.find(k) {
            Some(_) => true,
            None => false,
        }
    }

    pub fn get(&self, k: i64) -> (r: Option<&V>)
        requires
            self.wf(),
        ensures
            match r {
                Some(v) => self@.contains_key(k) && *v == self@[k],
                None => !self@.contains_key(k),
            },
    {
        match self.find(k) {
            Some(i) => {
                proof {
                    assert(self.spec_contains(k));
                    self.lemma_index_unique(i as int, self.index_of(k));
                }
                Some(&self.entries[i].1)
            },
            None => None,
        }
    }

    /// Inserts or replaces; returns the value previously under `k`.
    pub fn insert(&mut self, k: i64, v: V) -> (r: Option<V>)
        requires
            old(self).wf(),
        ensures
            final(self).wf(),
            final(self)@ =~= old(self)@.insert(k, v),
            final(self).seq().len() <= old(self).seq().len() + 1,
            match r {
                Some(w) => {
                    &&& old(self)@.contains_key(k)
                    &&& w == old(self)@[k]
                    &&& final(self).seq().len() == old(self).seq().len()
                },
                None => {
                    &&& !old(self)@.contains_key(k)
                    &&& final(self).seq().len() == old(self).seq().len() + 1
                },
            },
    {
        let prev = self.remove(k);
        let ghost mid = *self;
        self.entries.push((k, v));
        proof {
            let fself = *final(self);
            assert(fself.entries@ =~= mid.entries@.push((k, v)));
            assert forall|a: int, b: int|
                0 <= a < b < fself.entries@.len() implies (#[trigger] fself.entries@[a]).0 != (
            #[trigger] fself.entries@[b]).0 by {
                if b < fself.entries@.len() - 1 {
                    assert(mid.entries@[a].0 != mid.entries@[b].0);
                } else {
                    assert(fself.entries@[b].0 == k);
                    assert(mid.entries@[a].0 == fself.entries@[a].0);
                    assert(mid.spec_contains(fself.entries@[a].0));
                    assert(!mid@.contains_key(k));
                }
            }
            assert forall|k2: i64| #[trigger]
                fself@.contains_key(k2) == mid@.insert(k, v).contains_key(k2) && (
            fself@.contains_key(k2) ==> fself@[k2] == mid@.insert(k, v)[k2]) by {
                let n = mid.entries@.len();
                if k2 == k {
                    assert(fself.entries@[n as int].0 == k);
                    assert(fself.spec_contains(k));
                    fself.lemma_index_unique(n as int, fself.index_of(k));
                } else {
                    if mid.spec_contains(k2) {
                        let j = mid.index_of(k2);
                        assert(fself.entries@[j].0 == k2);
                        assert(fself.spec_contains(k2));
                        fself.lemma_index_unique(j, fself.index_of(k2));
                        mid.lemma_index_unique(j, mid.index_of(k2));
                    }
                    if fself.spec_contains(k2) {
                        let j = fself.index_of(k2);
                        assert(j < n);
                        assert(mid.entries@[j].0 == k2);
                        assert(mid.spec_contains(k2));
                    }
                }
            }
            assert(fself@ =~= old(self)@.insert(k, v));
        }
        prev
    }

    pub fn remove(&mut self, k: i64) -> (r: Option<V>)
        requires
            old(self).wf(),
        ensures
            final(self).wf(),
            final(self)@ =~= old(self)@.remove(k),
            final(self).seq().len() <= old(self).seq().len(),
            match r {
                Some(v) => {
                    &&& old(self)@.contains_key(k)
                    &&& v == old(self)@[k]
                    &&& final(self).seq().len() == old(self).seq().len() - 1
                },
                None => {
                    &&& !old(self)@.contains_key(k)
                    &&& *final(self) == *old(self)
                },
            },
    {
        let idx_opt = self.find(k);
        match idx_opt {
            Some(i) => {
                proof {
                    assert(self.spec_contains(k));
                    self.lemma_index_unique(i as int, self.index_of(k));
                }
                let pair = self.entries.swap_remove(i);
                proof {
                    let fself = *final(self);
                    let oldm = old(self);
                    let n = oldm.entries@.len();
                    assert forall|a: int, b: int|
                        0 <= a < b < fself.entries@.len() implies (#[trigger] fself.entries@[a]).0
                        != (#[trigger] fself.entries@[b]).0 by {
                        let a2: int = if a == i { n - 1 } else { a };
                        let b2: int = if b == i { n - 1 } else { b };
                        assert(fself.entries@[a] == oldm.entries@[a2]);
                        assert(fself.entries@[b] == oldm.entries@[b2]);
                    }
                    assert forall|k2: i64| #[trigger]
                        fself@.contains_key(k2) == oldm@.remove(k).contains_key(k2) && (
                    fself@.contains_key(k2) ==> fself@[k2] == oldm@.remove(k)[k2]) by {
                        if k2 != k {
                            if oldm.spec_contains(k2) {
                                let j = oldm.index_of(k2);
                                oldm.lemma_index_unique(j, oldm.index_of(k2));
                                let j2: int = if j == n - 1 { i as int } else { j };
                                assert(j != i);
                                if j == n - 1 {
                                    assert(fself.entries@[i as int] == oldm.entries@[n - 1]);
                                } else {
                                    assert(fself.entries@[j] == oldm.entries@[j]);
                                }
                                assert(fself.entries@[j2].0 == k2);
                                assert(fself.spec_contains(k2));
                                fself.lemma_index_unique(j2, fself.index_of(k2));
                            }
                            if fself.spec_contains(k2) {
                                let j = fself.index_of(k2);
                                let j2: int = if j == i { n - 1 } else { j };
                                assert(fself.entries@[j] == oldm.entries@[j2]);
                                assert(oldm.spec_contains(k2));
                            }
                        } else {
                            if fself.spec_contains(k) {
                                let j = fself.index_of(k);
                                let j2: int = if j == i { n - 1 } else { j };
                                assert(fself.entries@[j] == oldm.entries@[j2]);
                                assert(j2 != i);
                                oldm.lemma_index_unique(j2, i as int);
                            }
                        }
                    }
                    assert(fself@ =~= oldm@.remove(k));
                }
                Some(pair.1)
            },
            None => {
                proof {
                    assert(!self@.contains_key(k));
                    assert(self@ =~= self@.remove(k));
                }
                None
            },
        }
    }
}

impl<V> View for IdMap<V> {
    type V = Map<i64, V>;

    open spec fn view(&self) -> Map<i64, V> {
        Map::new(|k: i64| self.spec_contains(k), |k: i64| self.entries@[self.index_of(k)].1)
    }
}

} // verus!
