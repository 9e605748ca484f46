use vstd::prelude::*;

use crate::strutil::{spec_prefix_of, str_eq, str_starts_with};

verus! {

/// The CRC-32 checksum of a byte sequence, a function of the data alone.
pub uninterp spec fn crc32_of(data: Seq<u8>) -> u32;

/// Relies on crc32fast::hash for the CRC-32 (IEEE) checksum of the
/// bytes; the result depends on the bytes alone.
#[verifier::external_body]
fn crc32(data: &Vec<u8>) -> (r: u32)
    ensures
        r == crc32_of(data@),
{
    crc32fast::hash(data.as_slice())
}

/// What a fetch asks the remote store for.
#[derive(Debug)]
pub enum VarPathSpec {
    /// One key.
    SingleVar(String),
    /// Every key under a prefix.
    Prefix(String),
}

#[verifier::ext_equal]
pub ghost enum VarPathSpecView {
    SingleVar(Seq<char>),
    Prefix(Seq<char>),
}

impl View for VarPathSpec {
    type V = VarPathSpecView;

    open spec fn view(&self) -> VarPathSpecView {
        match self {
            VarPathSpec::SingleVar(s) => VarPathSpecView::SingleVar(s@),
            VarPathSpec::Prefix(s) => VarPathSpecView::Prefix(s@),
        }
    }
}

impl DeepView for VarPathSpec {
    type V = VarPathSpecView;

    open spec fn deep_view(&self) -> VarPathSpecView {
        self.view()
    }
}

/// One operation of the remote key-value dialogue.
#[derive(Debug)]
pub enum Operation {
    Get(VarPathSpec),
    SetValue { key: String, value: Vec<u8>, with_lease: bool },
    DelKey { key: String },
    DelPrefix { prefix: String },
    Nope,
}

#[verifier::ext_equal]
pub ghost enum OperationView {
    Get(VarPathSpecView),
    SetValue { key: Seq<char>, value: Seq<u8>, with_lease: bool },
    DelKey(Seq<char>),
    DelPrefix(Seq<char>),
    Nope,
}

impl View for Operation {
    type V = OperationView;

    open spec fn view(&self) -> OperationView {
        match self {
            Operation::Get(s) => OperationView::Get(s@),
            Operation::SetValue { key, value, with_lease } => OperationView::SetValue {
                key: key@,
                value: value@,
                with_lease: *with_lease,
            },
            Operation::DelKey { key } => OperationView::DelKey(key@),
            Operation::DelPrefix { prefix } => OperationView::DelPrefix(prefix@),
            Operation::Nope => OperationView::Nope,
        }
    }
}

impl DeepView for Operation {
    type V = OperationView;

    open spec fn deep_view(&self) -> OperationView {
        self.view()
    }
}

/// The fetch requests among `s`, in order.
pub open spec fn gets_of(s: Seq<OperationView>) -> Seq<VarPathSpecView>
    decreases s.len(),
{
    if s.len() == 0 {
        Seq::empty()
    } else {
        let rest = gets_of(s.drop_last());
        match s.last() {
            OperationView::Get(g) => rest.push(g),
            _ => rest,
        }
    }
}

/// The operations of `s` that are not fetch requests, in order.
pub open spec fn non_gets_of(s: Seq<OperationView>) -> Seq<OperationView>
    decreases s.len(),
{
    if s.len() == 0 {
        Seq::empty()
    } else {
        let rest = non_gets_of(s.drop_last());
        match s.last() {
            OperationView::Get(_) => rest,
            _ => rest.push(s.last()),
        }
    }
}

/// The snapshot after filing each fetched (key, value) pair in turn,
/// each with its checksum.
pub open spec fn spec_apply_fetched(
    m: Map<Seq<char>, (u32, Seq<u8>)>,
    results: Seq<(Seq<char>, Seq<u8>)>,
) -> Map<Seq<char>, (u32, Seq<u8>)>
    decreases results.len(),
{
    if results.len() == 0 {
        m
    } else {
        spec_apply_fetched(m, results.drop_last()).insert(
            results.last().0,
            (crc32_of(results.last().1), results.last().1),
        )
    }
}

/// One mirrored parameter: its key, the checksum of its value, and the
/// value.
#[derive(Debug)]
pub struct ParamEntry {
    pub key: String,
    pub crc: u32,
    pub value: Vec<u8>,
}

/// The local mirror of the remote configuration: a checksum-indexed
/// snapshot of selected keys, and the queue of operations waiting for
/// the worker that talks to the remote store.
#[derive(Debug)]
pub struct ParameterStore {
    pub params: Vec<ParamEntry>,
    pub ops: Vec<Operation>,
}

impl ParameterStore {
    /// Keys are unique and every entry carries the checksum of its own
    /// value.
    pub open spec fn wf(&self) -> bool {
        &&& forall|i: int, j: int|
            0 <= i < j < self.params@.len() ==> (#[trigger] self.params@[i]).key@ != (
            #[trigger] self.params@[j]).key@
        &&& forall|i: int|
            0 <= i < self.params@.len() ==> (#[trigger] self.params@[i]).crc == crc32_of(
                self.params@[i].value@,
            )
    }

    pub open spec fn spec_contains(&self, k: Seq<char>) -> bool {
        exists|i: int| 0 <= i < self.params@.len() && (#[trigger] self.params@[i]).key@ == k
    }

    pub open spec fn index_of(&self, k: Seq<char>) -> int {
        choose|i: int| 0 <= i < self.params@.len() && (#[trigger] self.params@[i]).key@ == k
    }

    /// The mirrored snapshot: key to (checksum, value).
    pub open spec fn snapshot(&self) -> Map<Seq<char>, (u32, Seq<u8>)> {
        Map::new(
            |k: Seq<char>| self.spec_contains(k),
            |k: Seq<char>|
                (self.params@[self.index_of(k)].crc, self.params@[self.index_of(k)].value@),
        )
    }

    pub open spec fn ops_view(&self) -> Seq<OperationView> {
        self.ops.deep_view()
    }

    pub proof fn lemma_index_unique(&self, i: int, j: int)
        requires
            self.wf(),
            0 <= i < self.params@.len(),
            0 <= j < self.params@.len(),
            self.params@[i].key@ == self.params@[j].key@,
        ensures
            i == j,
    {
    }

    pub fn new() -> (r: ParameterStore)
        ensures
            r.wf(),
            r.snapshot() =~= Map::<Seq<char>, (u32, Seq<u8>)>::empty(),
            r.ops_view() =~= Seq::<OperationView>::empty(),
    {
        ParameterStore { params: Vec::new(), ops: Vec::new() }
    }

    fn find(&self, key: &str) -> (r: Option<usize>)
        ensures
            match r {
                Some(i) => i < self.params@.len() && self.params@[i as int].key@ == key@,
                None => !self.spec_contains(key@),
            },
    {
        let n = self.params.len();
        let mut i: usize = 0;
        while i < n
            invariant
                n == self.params@.len(),
                i <= n,
                forall|j: int| 0 <= j < i ==> (#[trigger] self.params@[j]).key@ != key@,
            decreases n - i,
        {
            if str_eq(self.params[i].key.as_str(), key) {
                return Some(i);
            }
            i += 1;
        }
        None
    }

    pub fn is_present(&self, key: &str) -> (r: bool)
        requires
            self.wf(),
        ensures
            r == self.snapshot().contains_key(key@),
    {
        match self.find(key) {
            Some(i) => {
                proof {
                    assert(self.spec_contains(key@));
                }
                true
            },
            None => false,
        }
    }

    pub fn get_data(&self, key: &str) -> (r: Option<(u32, Vec<u8>)>)
        requires
            self.wf(),
        ensures
            match r {
                Some(p) => {
                    &&& self.snapshot().contains_key(key@)
                    &&& (p.0, p.1@) == self.snapshot().index(key@)
                    &&& p.0 == crc32_of(p.1@)
                },
                None => !self.snapshot().contains_key(key@),
            },
    {
        match self.find(key) {
            Some(i) => {
                proof {
                    assert(self.spec_contains(key@));
                    self.lemma_index_unique(i as int, self.index_of(key@));
                }
                let mut v: Vec<u8> = Vec::new();
                let m = self.params[i].value.len();
                let mut b: usize = 0;
                while b < m
                    invariant
                        i < self.params@.len(),
                        m == self.params@[i as int].value@.len(),
                        b <= m,
                        v@.len() == b,
                        forall|q: int|
                            0 <= q < b ==> #[trigger] v@[q] == self.params@[i as int].value@[q],
                    decreases m - b,
                {
                    v.push(self.params[i].value[b]);
                    b += 1;
                }
                proof {
                    assert(v@ =~= self.params@[i as int].value@);
                }
                Some((self.params[i].crc, v))
            },
            None => None,
        }
    }

    pub fn get_data_checksum(&self, key: &str) -> (r: Option<u32>)
        requires
            self.wf(),
        ensures
            match r {
                Some(c) => self.snapshot().contains_key(key@) && c == self.snapshot().index(
                    key@,
                ).0,
                None => !self.snapshot().contains_key(key@),
            },
    {
        match self.find(key) {
            Some(i) => {
                proof {
                    assert(self.spec_contains(key@));
                    self.lemma_index_unique(i as int, self.index_of(key@));
                }
                Some(self.params[i].crc)
            },
            None => None,
        }
    }

    /// Queues a fetch; the snapshot is untouched until the worker
    /// answers.
    pub fn order_data_update(&mut self, path: VarPathSpec)
        requires
            old(self).wf(),
        ensures
            final(self).wf(),
            final(self).snapshot() == old(self).snapshot(),
            final(self).ops_view() =~= old(self).ops_view().push(OperationView::Get(path@)),
    {
        let ghost pv = path@;
        self.ops.push(Operation::Get(path));
        proof {
            assert(final(self).ops_view() =~= old(self).ops_view().push(OperationView::Get(pv)));
            assert(final(self).snapshot() =~= old(self).snapshot());
        }
    }

    /// Queues a write to the remote store; the local snapshot changes
    /// only when the watch later reports it.
    pub fn set(&mut self, key: &str, value: Vec<u8>)
        requires
            old(self).wf(),
        ensures
            final(self).wf(),
            final(self).snapshot() == old(self).snapshot(),
            final(self).ops_view() =~= old(self).ops_view().push(
                OperationView::SetValue { key: key@, value: value@, with_lease: false },
            ),
    {
        let ghost vv = value@;
        self.ops.push(Operation::SetValue { key: key.to_owned(), value, with_lease: false });
        proof {
            assert(final(self).ops_view() =~= old(self).ops_view().push(
                OperationView::SetValue { key: key@, value: vv, with_lease: false },
            ));
            assert(final(self).snapshot() =~= old(self).snapshot());
        }
    }

    /// Drains the queue for the worker: the fetch requests, and the
    /// other operations bound for the remote store, each in queue order.
    pub fn take_ops(&mut self) -> (r: (Vec<VarPathSpec>, Vec<Operation>))
        requires
            old(self).wf(),
        ensures
            final(self).wf(),
            final(self).snapshot() == old(self).snapshot(),
            final(self).ops_view() =~= Seq::<OperationView>::empty(),
            r.0.deep_view() =~= gets_of(old(self).ops_view()),
            r.1.deep_view() =~= non_gets_of(old(self).ops_view()),
    {
        let ghost opsv = self.ops.deep_view();
        let mut gets: Vec<VarPathSpec> = Vec::new();
        let mut others: Vec<Operation> = Vec::new();
        let n = self.ops.len();
        let mut taken: Vec<Operation> = Vec::new();
        core::mem::swap(&mut taken, &mut self.ops);
        proof {
            assert(final(self).snapshot() =~= old(self).snapshot());
            assert(final(self).ops_view() =~= Seq::<OperationView>::empty());
            assert(taken.deep_view() == opsv);
        }
        let mut i: usize = 0;
        let nt = taken.len();
        while i < nt
            invariant
                nt == taken@.len(),
                i <= nt,
                opsv == taken.deep_view(),
                gets.deep_view() =~= gets_of(opsv.take(i as int)),
                others.deep_view() =~= non_gets_of(opsv.take(i as int)),
            decreases nt - i,
        {
            proof {
                assert(opsv.take(i + 1).drop_last() =~= opsv.take(i as int));
                assert(opsv.take(i + 1).last() == opsv[i as int]);
                assert(opsv[i as int] == taken@[i as int]@);
            }
            let is_get = match &taken[i] {
                Operation::Get(_) => true,
                _ => false,
            };
            if is_get {
                let g = match clone_op_spec(&taken[i]) {
                    Some(g) => g,
                    None => {
                        proof {
                            assert(false);
                        }
                        VarPathSpec::SingleVar(String::new())
                    },
                };
                gets.push(g);
                proof {
                    assert(gets.deep_view() =~= gets_of(opsv.take(i + 1)));
                    assert(others.deep_view() =~= non_gets_of(opsv.take(i + 1)));
                }
            } else {
                let o = clone_op(&taken[i]);
                others.push(o);
                proof {
                    assert(gets.deep_view() =~= gets_of(opsv.take(i + 1)));
                    assert(others.deep_view() =~= non_gets_of(opsv.take(i + 1)));
                }
            }
            i += 1;
        }
        proof {
            assert(opsv.take(nt as int) =~= opsv);
        }
        (gets, others)
    }

    /// Files what the worker fetched, each value under its checksum.
    pub fn apply_fetched(&mut self, results: Vec<(String, Vec<u8>)>)
        requires
            old(self).wf(),
        ensures
            final(self).wf(),
            final(self).ops_view() == old(self).ops_view(),
            final(self).snapshot() =~= spec_apply_fetched(
                old(self).snapshot(),
                results.deep_view(),
            ),
    {
        let ghost rv = results.deep_view();
        let n = results.len();
        let mut results = results;
        let mut i: usize = 0;
        while i < n
            invariant
                n == rv.len(),
                results@.len() == n - i,
                i <= n,
                forall|q: int|
                    0 <= q < results@.len() ==> (#[trigger] results@[q]).0@ == rv[i + q].0
                        && results@[q].1@ == rv[i + q].1,
                self.wf(),
                self.ops_view() == old(self).ops_view(),
                self.snapshot() =~= spec_apply_fetched(old(self).snapshot(), rv.take(i as int)),
            decreases n - i,
        {
            let ghost prev_vec = results@;
            let pair = results.remove(0);
            let ghost kv = pair.0@;
            let ghost vv = pair.1@;
            proof {
                assert(pair == prev_vec[0]);
                assert(kv == rv[i as int].0);
                assert(vv == rv[i as int].1);
                assert forall|q: int|
                    0 <= q < results@.len() implies (#[trigger] results@[q]).0@ == rv[i + 1 + q].0
                    && results@[q].1@ == rv[i + 1 + q].1 by {
                    assert(results@[q] == prev_vec.subrange(1, prev_vec.len() as int)[q]);
                    assert(results@[q] == prev_vec[q + 1]);
                }
                assert(rv.take(i + 1).drop_last() =~= rv.take(i as int));
                assert(rv.take(i + 1).last() == rv[i as int]);
            }
            let c = crc32(&pair.1);
            self.upsert(pair.0, c, pair.1);
            proof {
                assert(self.snapshot() =~= spec_apply_fetched(
                    old(self).snapshot(),
                    rv.take(i + 1),
                ));
            }
            i += 1;
        }
        proof {
            assert(rv.take(n as int) =~= rv);
        }
    }

    /// Applies one watch notification to the snapshot: a set files the
    /// value under its checksum, a key delete removes it, a prefix
    /// delete removes every key under the prefix. Fetch results and
    /// no-ops are not watch notifications.
    #[verifier::rlimit(100)]
    pub fn apply_watch(&mut self, op: Operation)
        requires
            old(self).wf(),
            !(op@ is Get),
            !(op@ is Nope),
        ensures
            final(self).wf(),
            final(self).ops_view() == old(self).ops_view(),
            match op@ {
                OperationView::SetValue { key, value, with_lease: _ } => final(self).snapshot() =~= old(
                    self,
                ).snapshot().insert(key, (crc32_of(value), value)),
                OperationView::DelKey(key) => final(self).snapshot() =~= old(
                    self,
                ).snapshot().remove(key),
                OperationView::DelPrefix(prefix) => final(self).snapshot() =~= Map::new(
                    |k: Seq<char>|
                        old(self).snapshot().contains_key(k) && !spec_prefix_of(k, prefix),
                    |k: Seq<char>| old(self).snapshot().index(k),
                ),
                _ => false,
            },
    {
        match op {
            Operation::SetValue { key, value, with_lease: _ } => {
                let c = crc32(&value);
                self.upsert(key, c, value);
            },
            Operation::DelKey { key } => {
                self.remove_key(key.as_str());
            },
            Operation::DelPrefix { prefix } => {
                let ghost pre = *self;
                let ghost pv = prefix@;
                // every key of the snapshot, in table order
                let mut keys: Vec<String> = Vec::new();
                let n = self.params.len();
                let mut i: usize = 0;
                while i < n
                    invariant
                        n == self.params@.len(),
                        i <= n,
                        keys@.len() == i,
                        forall|q: int|
                            0 <= q < i ==> (#[trigger] keys@[q])@ == self.params@[q].key@,
                    decreases n - i,
                {
                    keys.push(self.params[i].key.clone());
                    i += 1;
                }
                let ghost keysv = keys.deep_view();
                proof {
                    assert forall|q: int|
                        0 <= q < n implies #[trigger] keysv[q] == pre.params@[q].key@ by {
                        assert(keysv[q] == keys@[q]@);
                    }
                }
                // remove those under the prefix
                let nk = keys.len();
                let mut j: usize = 0;
                while j < nk
                    invariant
                        nk == keysv.len(),
                        keysv == keys.deep_view(),
                        pv == prefix@,
                        j <= nk,
                        pre.wf(),
                        self.wf(),
                        self.ops_view() == pre.ops_view(),
                        self.snapshot() =~= Map::new(
                            |k: Seq<char>|
                                pre.snapshot().contains_key(k) && !(spec_prefix_of(k, pv)
                                    && keysv.take(j as int).contains(k)),
                            |k: Seq<char>| pre.snapshot().index(k),
                        ),
                    decreases nk - j,
                {
                    let ghost snap0 = self.snapshot();
                    proof {
                        assert(keysv.take(j + 1).drop_last() =~= keysv.take(j as int));
                        assert(keysv[j as int] == keys@[j as int]@);
                    }
                    if str_starts_with(keys[j].as_str(), prefix.as_str()) {
                        self.remove_key(keys[j].as_str());
                        proof {
                            assert forall|k: Seq<char>|
                                #[trigger] keysv.take(j + 1).contains(k) == (keysv.take(
                                    j as int,
                                ).contains(k) || k == keysv[j as int]) by {
                                if keysv.take(j + 1).contains(k) {
                                    let w = choose|w: int|
                                        0 <= w < j + 1 && #[trigger] keysv.take(j + 1)[w] == k;
                                    if w < j {
                                        assert(keysv.take(j as int)[w] == k);
                                    }
                                } else {
                                    if keysv.take(j as int).contains(k) {
                                        let w = choose|w: int|
                                            0 <= w < j && #[trigger] keysv.take(j as int)[w]
                                                == k;
                                        assert(keysv.take(j + 1)[w] == k);
                                    }
                                    if k == keysv[j as int] {
                                        assert(keysv.take(j + 1)[j as int] == k);
                                    }
                                }
                            }
                            assert(self.snapshot() =~= Map::new(
                                |k: Seq<char>|
                                    pre.snapshot().contains_key(k) && !(spec_prefix_of(k, pv)
                                        && keysv.take(j + 1).contains(k)),
                                |k: Seq<char>| pre.snapshot().index(k),
                            ));
                        }
                    } else {
                        proof {
                            assert forall|k: Seq<char>|
                                #[trigger] keysv.take(j + 1).contains(k) == (keysv.take(
                                    j as int,
                                ).contains(k) || k == keysv[j as int]) by {
                                if keysv.take(j + 1).contains(k) {
                                    let w = choose|w: int|
                                        0 <= w < j + 1 && #[trigger] keysv.take(j + 1)[w] == k;
                                    if w < j {
                                        assert(keysv.take(j as int)[w] == k);
                                    }
                                } else {
                                    if keysv.take(j as int).contains(k) {
                                        let w = choose|w: int|
                                            0 <= w < j && #[trigger] keysv.take(j as int)[w]
                                                == k;
                                        assert(keysv.take(j + 1)[w] == k);
                                    }
                                    if k == keysv[j as int] {
                                        assert(keysv.take(j + 1)[j as int] == k);
                                    }
                                }
                            }
                            assert(!spec_prefix_of(keysv[j as int], pv));
                            assert(self.snapshot() =~= Map::new(
                                |k: Seq<char>|
                                    pre.snapshot().contains_key(k) && !(spec_prefix_of(k, pv)
                                        && keysv.take(j + 1).contains(k)),
                                |k: Seq<char>| pre.snapshot().index(k),
                            ));
                        }
                    }
                    j += 1;
                }
                proof {
                    assert(keysv.take(nk as int) =~= keysv);
                    assert forall|k: Seq<char>|
                        pre.snapshot().contains_key(k) && spec_prefix_of(k, pv) implies
                        #[trigger] keysv.contains(k) by {
                        let p = pre.index_of(k);
                        assert(pre.params@[p].key@ == k);
                        assert(keysv[p] == k);
                    }
                    assert(self.snapshot() =~= Map::new(
                        |k: Seq<char>|
                            pre.snapshot().contains_key(k) && !spec_prefix_of(k, pv),
                        |k: Seq<char>| pre.snapshot().index(k),
                    ));
                }
            },
            _ => {
                proof {
                    assert(false);
                }
            },
        }
    }

    /// Inserts or replaces the entry under `key`.
    fn upsert(&mut self, key: String, crc: u32, value: Vec<u8>)
        requires
            old(self).wf(),
            crc == crc32_of(value@),
        ensures
            final(self).wf(),
            final(self).ops_view() == old(self).ops_view(),
            final(self).snapshot() =~= old(self).snapshot().insert(key@, (crc, value@)),
    {
        let ghost kv = key@;
        let ghost vv = value@;
        self.remove_key(key.as_str());
        let ghost mid = *self;
        self.params.push(ParamEntry { key, crc, value });
        proof {
            let fself = *final(self);
            assert forall|x: int, y: int|
                0 <= x < y < fself.params@.len() implies (#[trigger] fself.params@[x]).key@ != (
            #[trigger] fself.params@[y]).key@ by {
                if y < fself.params@.len() - 1 {
                    assert(mid.params@[x].key@ != mid.params@[y].key@);
                } else {
                    assert(fself.params@[y].key@ == kv);
                    assert(mid.params@[x] == fself.params@[x]);
                    assert(mid.spec_contains(fself.params@[x].key@));
                    assert(!mid.snapshot().contains_key(kv));
                    assert(!mid.spec_contains(kv));
                }
            }
            assert forall|k2: Seq<char>| #[trigger]
                fself.snapshot().contains_key(k2) == mid.snapshot().insert(
                kv,
                (crc, vv),
            ).contains_key(k2) && (fself.snapshot().contains_key(k2)
                ==> fself.snapshot().index(k2) == mid.snapshot().insert(kv, (crc, vv)).index(
                k2)) by {
                let n = mid.params@.len();
                if k2 == kv {
                    assert(fself.params@[n as int].key@ == kv);
                    assert(fself.spec_contains(kv));
                    fself.lemma_index_unique(n as int, fself.index_of(kv));
                } else {
                    if mid.spec_contains(k2) {
                        let j = mid.index_of(k2);
                        assert(fself.params@[j].key@ == k2);
                        assert(fself.spec_contains(k2));
                        fself.lemma_index_unique(j, fself.index_of(k2));
                        mid.lemma_index_unique(j, mid.index_of(k2));
                    }
                    if fself.spec_contains(k2) {
                        let j = fself.index_of(k2);
                        assert(j < n);
                        assert(mid.params@[j].key@ == k2);
                        assert(mid.spec_contains(k2));
                    }
                }
            }
            assert(fself.snapshot() =~= mid.snapshot().insert(kv, (crc, vv)));
            assert(mid.snapshot().insert(kv, (crc, vv)) =~= old(self).snapshot().insert(
                kv,
                (crc, vv),
            ));
        }
    }

    /// Removes the entry under `key`, if any.
    fn remove_key(&mut self, key: &str)
        requires
            old(self).wf(),
        ensures
            final(self).wf(),
            final(self).ops_view() == old(self).ops_view(),
            final(self).snapshot() =~= old(self).snapshot().remove(key@),
    {
        let idx_opt = self.find(key);
        match idx_opt {
            Some(i) => {
                proof {
                    assert(self.spec_contains(key@));
                    self.lemma_index_unique(i as int, self.index_of(key@));
                }
                self.params.swap_remove(i);
                proof {
                    let fself = *final(self);
                    let oldm = *old(self);
                    let n = oldm.params@.len();
                    assert forall|a: int, b: int|
                        0 <= a < b < fself.params@.len() implies (#[trigger] fself.params@[a]).key@
                        != (#[trigger] fself.params@[b]).key@ by {
                        let a2: int = if a == i { n - 1 } else { a };
                        let b2: int = if b == i { n - 1 } else { b };
                        assert(fself.params@[a] == oldm.params@[a2]);
                        assert(fself.params@[b] == oldm.params@[b2]);
                    }
                    assert forall|k2: Seq<char>| #[trigger]
                        fself.snapshot().contains_key(k2) == oldm.snapshot().remove(
                        key@,
                    ).contains_key(k2) && (fself.snapshot().contains_key(k2)
                        ==> fself.snapshot().index(k2) == oldm.snapshot().remove(key@).index(
                        k2)) by {
                        if k2 != key@ {
                            if oldm.spec_contains(k2) {
                                let j = oldm.index_of(k2);
                                let j2: int = if j == n - 1 { i as int } else { j };
                                assert(j != i);
                                if j == n - 1 {
                                    assert(fself.params@[i as int] == oldm.params@[n - 1]);
                                } else {
                                    assert(fself.params@[j] == oldm.params@[j]);
                                }
                                assert(fself.params@[j2].key@ == k2);
                                assert(fself.spec_contains(k2));
                                fself.lemma_index_unique(j2, fself.index_of(k2));
                            }
                            if fself.spec_contains(k2) {
                                let j = fself.index_of(k2);
                                let j2: int = if j == i { n - 1 } else { j };
                                assert(fself.params@[j] == oldm.params@[j2]);
                                assert(oldm.spec_contains(k2));
                            }
                        } else {
                            if fself.spec_contains(key@) {
                                let j = fself.index_of(key@);
                                let j2: int = if j == i { n - 1 } else { j };
                                assert(fself.params@[j] == oldm.params@[j2]);
                                assert(j2 != i);
                                oldm.lemma_index_unique(j2, i as int);
                            }
                        }
                    }
                    assert(fself.snapshot() =~= oldm.snapshot().remove(key@));
                }
            },
            None => {
                proof {
                    assert(!self.snapshot().contains_key(key@));
                    assert(self.snapshot() =~= self.snapshot().remove(key@));
                }
            },
        }
    }
}

/// The fetch request inside a queued operation, duplicated for the
/// worker; nothing for other operations.
fn clone_op_spec(op: &Operation) -> (r: Option<VarPathSpec>)
    ensures
        match r {
            Some(g) => op@ is Get && op@->Get_0 == g@,
            None => !(op@ is Get),
        },
{
    match op {
        Operation::Get(VarPathSpec::SingleVar(s)) => Some(VarPathSpec::SingleVar(s.clone())),
        Operation::Get(VarPathSpec::Prefix(s)) => Some(VarPathSpec::Prefix(s.clone())),
        _ => None,
    }
}

/// A duplicate of a queued operation, for handing to the remote client.
fn clone_op(op: &Operation) -> (r: Operation)
    ensures
        r@ == op@,
{
    match op {
        Operation::Get(VarPathSpec::SingleVar(s)) => Operation::Get(
            VarPathSpec::SingleVar(s.clone()),
        ),
        Operation::Get(VarPathSpec::Prefix(s)) => Operation::Get(VarPathSpec::Prefix(s.clone())),
        Operation::SetValue { key, value, with_lease } => {
            let mut v: Vec<u8> = Vec::new();
            let m = value.len();
            let mut b: usize = 0;
            while b < m
                invariant
                    m == value@.len(),
                    b <= m,
                    v@.len() == b,
                    forall|q: int| 0 <= q < b ==> #[trigger] v@[q] == value@[q],
                decreases m - b,
            {
                v.push(value[b]);
                b += 1;
            }
            proof {
                assert(v@ =~= value@);
            }
            Operation::SetValue { key: key.clone(), value: v, with_lease: *with_lease }
        },
        Operation::DelKey { key } => Operation::DelKey { key: key.clone() },
        Operation::DelPrefix { prefix } => Operation::DelPrefix { prefix: prefix.clone() },
        Operation::Nope => Operation::Nope,
    }
}

} // verus!
