use vstd::prelude::*;

verus! {

/// Association vector keyed by a 128-bit cell index, holding byte cells.
/// The abstraction is the map from index to byte sequence; entry order
/// is not part of it.
#[derive(Debug)]
pub struct CellMap {
    pub entries: Vec<(u128, Vec<u8>)>,
}

impl CellMap {
    pub open spec fn wf(&self) -> bool {
        forall|i: int, j: int|
            0 <= i < j < self.entries@.len() ==> (#[trigger] self.entries@[i]).0 != (
            #[trigger] self.entries@[j]).0
    }

    pub open spec fn spec_contains(&self, k: u128) -> bool {
        exists|i: int| 0 <= i < self.entries@.len() && (#[trigger] self.entries@[i]).0 == k
    }

    pub open spec fn index_of(&self, k: u128) -> int {
        choose|i: int| 0 <= i < self.entries@.len() && (#[trigger] self.entries@[i]).0 == k
    }

    pub open spec fn seq(&self) -> Seq<(u128, Vec<u8>)> {
        self.entries@
    }

    pub proof fn lemma_index_unique(&self, i: int, j: int)
        requires
            self.wf(),
            0 <= i < self.entries@.len(),
            0 <= j < self.entries@.len(),
            self.entries@[i].0 == self.entries@[j].0,
        ensures
            i == j,
    {
    }

    pub fn new() -> (r: CellMap)
        ensures
            r.wf(),
            r@ =~= Map::<u128, Seq<u8>>::empty(),
    {
        CellMap { entries: Vec::new() }
    }

    fn find(&self, k: u128) -> (r: Option<usize>)
        requires
            self.wf(),
        ensures
            match r {
                Some(i) => i < self.seq().len() && self.seq()[i as int].0 == k,
                None => !self.spec_contains(k),
            },
    {
        let n = self.entries.len();
        let mut i: usize = 0;
        while i < n
            invariant
                n == self.seq().len(),
                i <= n,
                forall|j: int| 0 <= j < i ==> (#[trigger] self.seq()[j]).0 != k,
            decreases n - i,
        {
            if self.entries[i].0 == k {
                return Some(i);
            }
            i += 1;
        }
        None
    }

    pub fn contains(&self, k: u128) -> (r: bool)
        requires
            self.wf(),
        ensures
            r == self@.contains_key(k),
    {
        match self.find(k) {
            Some(_) => true,
            None => false,
        }
    }

    pub fn get(&self, k: u128) -> (r: Option<&Vec<u8>>)
        requires
            self.wf(),
        ensures
            match r {
                Some(v) => self@.contains_key(k) && v@ == self@[k],
                None => !self@.contains_key(k),
            },
    {
        match self.find(k) {
            Some(i) => {
                proof {
                    assert(self.spec_contains(k));
                    self.lemma_index_unique(i as int, self.index_of(k));
                }
                Some(&self.entries[i].1)
            },
            None => None,
        }
    }

    /// Inserts or replaces the cell under `k`.
    pub fn insert(&mut self, k: u128, v: Vec<u8>)
        requires
            old(self).wf(),
        ensures
            final(self).wf(),
            final(self)@ =~= old(self)@.insert(k, v@),
    {
        let ghost vv = v@;
        self.remove(k);
        let ghost mid = *self;
        self.entries.push((k, v));
        proof {
            let fself = *final(self);
            assert forall|a: int, b: int|
                0 <= a < b < fself.entries@.len() implies (#[trigger] fself.entries@[a]).0 != (
            #[trigger] fself.entries@[b]).0 by {
                if b < fself.entries@.len() - 1 {
                    assert(mid.entries@[a].0 != mid.entries@[b].0);
                } else {
                    assert(mid.entries@[a] == fself.entries@[a]);
                    assert(mid.spec_contains(fself.entries@[a].0));
                    assert(!mid@.contains_key(k));
                }
            }
            assert forall|k2: u128| #[trigger]
                fself@.contains_key(k2) == mid@.insert(k, vv).contains_key(k2) && (
            fself@.contains_key(k2) ==> fself@[k2] == mid@.insert(k, vv)[k2]) by {
                let n = mid.entries@.len();
                if k2 == k {
                    assert(fself.entries@[n as int].0 == k);
                    assert(fself.spec_contains(k));
                    fself.lemma_index_unique(n as int, fself.index_of(k));
                } else {
                    if mid.spec_contains(k2) {
                        let j = mid.index_of(k2);
                        assert(fself.entries@[j].0 == k2);
                        assert(fself.spec_contains(k2));
                        fself.lemma_index_unique(j, fself.index_of(k2));
                        mid.lemma_index_unique(j, mid.index_of(k2));
                    }
                    if fself.spec_contains(k2) {
                        let j = fself.index_of(k2);
                        assert(j < n);
                        assert(mid.entries@[j].0 == k2);
                        assert(mid.spec_contains(k2));
                    }
                }
            }
            assert(fself@ =~= mid@.insert(k, vv));
            assert(mid@.insert(k, vv) =~= old(self)@.insert(k, vv));
        }
    }

    pub fn remove(&mut self, k: u128) -> (r: Option<Vec<u8>>)
        requires
            old(self).wf(),
        ensures
            final(self).wf(),
            final(self)@ =~= old(self)@.remove(k),
            match r {
                Some(v) => old(self)@.contains_key(k) && v@ == old(self)@[k],
                None => {
                    &&& !old(self)@.contains_key(k)
                    &&& *final(self) == *old(self)
                },
            },
    {
        let idx_opt = self.find(k);
        match idx_opt {
            Some(i) => {
                proof {
                    assert(self.spec_contains(k));
                    self.lemma_index_unique(i as int, self.index_of(k));
                }
                let pair = self.entries.swap_remove(i);
                proof {
                    let fself = *final(self);
                    let oldm = *old(self);
                    let n = oldm.entries@.len();
                    assert forall|a: int, b: int|
                        0 <= a < b < fself.entries@.len() implies (#[trigger] fself.entries@[a]).0
                        != (#[trigger] fself.entries@[b]).0 by {
                        let a2: int = if a == i { n - 1 } else { a };
                        let b2: int = if b == i { n - 1 } else { b };
                        assert(fself.entries@[a] == oldm.entries@[a2]);
                        assert(fself.entries@[b] == oldm.entries@[b2]);
                    }
                    assert forall|k2: u128| #[trigger]
                        fself@.contains_key(k2) == oldm@.remove(k).contains_key(k2) && (
                    fself@.contains_key(k2) ==> fself@[k2] == oldm@.remove(k)[k2]) by {
                        if k2 != k {
                            if oldm.spec_contains(k2) {
                                let j = oldm.index_of(k2);
                                oldm.lemma_index_unique(j, oldm.index_of(k2));
                                let j2: int = if j == n - 1 { i as int } else { j };
                                assert(j != i);
                                if j == n - 1 {
                                    assert(fself.entries@[i as int] == oldm.entries@[n - 1]);
                                } else {
                                    assert(fself.entries@[j] == oldm.entries@[j]);
                                }
                                assert(fself.entries@[j2].0 == k2);
                                assert(fself.spec_contains(k2));
                                fself.lemma_index_unique(j2, fself.index_of(k2));
                            }
                            if fself.spec_contains(k2) {
                                let j = fself.index_of(k2);
                                let j2: int = if j == i { n - 1 } else { j };
                                assert(fself.entries@[j] == oldm.entries@[j2]);
                                assert(oldm.spec_contains(k2));
                            }
                        } else {
                            if fself.spec_contains(k) {
                                let j = fself.index_of(k);
                                let j2: int = if j == i { n - 1 } else { j };
                                assert(fself.entries@[j] == oldm.entries@[j2]);
                                assert(j2 != i);
                                oldm.lemma_index_unique(j2, i as int);
                            }
                        }
                    }
                    assert(fself@ =~= oldm@.remove(k));
                }
                Some(pair.1)
            },
            None => {
                proof {
                    assert(!self@.contains_key(k));
                    assert(self@ =~= self@.remove(k));
                }
                None
            },
        }
    }
}

impl Clone for CellMap {
    fn clone(&self) -> (r: Self)
        ensures
            self.wf() ==> r.wf() && r@ == self@,
    {
        let mut entries: Vec<(u128, Vec<u8>)> = Vec::new();
        let n = self.entries.len();
        let mut i: usize = 0;
        while i < n
            invariant
                n == self.entries@.len(),
                i <= n,
                entries@.len() == i,
                forall|j: int|
                    0 <= j < i ==> (#[trigger] entries@[j]).0 == self.entries@[j].0
                        && entries@[j].1@ == self.entries@[j].1@,
            decreases n - i,
        {
            let k = self.entries[i].0;
            let mut v: Vec<u8> = Vec::new();
            let m = self.entries[i].1.len();
            let mut b: usize = 0;
            while b < m
                invariant
                    i < n,
                    n == self.entries@.len(),
                    m == self.entries@[i as int].1@.len(),
                    b <= m,
                    v@.len() == b,
                    forall|q: int| 0 <= q < b ==> #[trigger] v@[q] == self.entries@[i as int].1@[q],
                decreases m - b,
            {
                v.push(self.entries[i].1[b]);
                b += 1;
            }
            proof {
                assert(v@ =~= self.entries@[i as int].1@);
            }
            entries.push((k, v));
            i += 1;
        }
        let r = CellMap { entries };
        proof {
            if self.wf() {
                assert forall|i2: int, j2: int|
                    0 <= i2 < j2 < r.entries@.len() implies (#[trigger] r.entries@[i2]).0 != (
                #[trigger] r.entries@[j2]).0 by {
                    assert(self.entries@[i2].0 != self.entries@[j2].0);
                }
                assert(r.wf());
                assert forall|k2: u128| #[trigger]
                    r@.contains_key(k2) == self@.contains_key(k2) && (r@.contains_key(k2)
                    ==> r@[k2] == self@[k2]) by {
                    if self.spec_contains(k2) {
                        let j = self.index_of(k2);
                        assert(r.entries@[j].0 == k2);
                        assert(r.spec_contains(k2));
                        r.lemma_index_unique(j, r.index_of(k2));
                        self.lemma_index_unique(j, self.index_of(k2));
                    }
                    if r.spec_contains(k2) {
                        let j = r.index_of(k2);
                        assert(self.entries@[j].0 == k2);
                        assert(self.spec_contains(k2));
                    }
                }
                assert(r@ =~= self@);
            }
        }
        r
    }
}

impl View for CellMap {
    type V = Map<u128, Seq<u8>>;

    open spec fn view(&self) -> Map<u128, Seq<u8>> {
        Map::new(
            |k: u128| self.spec_contains(k),
            |k: u128| self.entries@[self.index_of(k)].1@,
        )
    }
}

} // verus!
