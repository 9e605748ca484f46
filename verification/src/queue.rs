use vstd::prelude::*;

use crate::cellmap::CellMap;
use crate::errors::QueueError;

verus! {

/// The reserved cell holding the write index.
pub const WRITE_INDEX_CELL: u128 = u128::MAX;

/// The reserved cell holding the read index.
pub const READ_INDEX_CELL: u128 = u128::MAX - 1;

/// The little-endian bytes of `x`, `n` of them, least significant first.
pub open spec fn spec_le_bytes(x: nat, n: nat) -> Seq<u8>
    decreases n,
{
    if n == 0 {
        Seq::empty()
    } else {
        seq![(x % 256) as u8] + spec_le_bytes(x / 256, (n - 1) as nat)
    }
}

/// The number a little-endian byte sequence denotes.
pub open spec fn spec_from_le(s: Seq<u8>) -> nat
    decreases s.len(),
{
    if s.len() == 0 {
        0
    } else {
        s[0] as nat + 256 * spec_from_le(s.drop_first())
    }
}

pub open spec fn pow256(n: nat) -> nat
    decreases n,
{
    if n == 0 {
        1
    } else {
        256 * pow256((n - 1) as nat)
    }
}

pub proof fn lemma_from_le_bound(s: Seq<u8>)
    ensures
        spec_from_le(s) < pow256(s.len()),
    decreases s.len(),
{
    if s.len() > 0 {
        lemma_from_le_bound(s.drop_first());
    }
}

/// Encoding then decoding gives the number back.
pub proof fn lemma_le_round_trip(x: nat, n: nat)
    requires
        x < pow256(n),
    ensures
        spec_from_le(spec_le_bytes(x, n)) == x,
        spec_le_bytes(x, n).len() == n,
    decreases n,
{
    if n > 0 {
        assert(x == 256 * (x / 256) + x % 256);
        if x / 256 >= pow256((n - 1) as nat) {
            assert(x >= 256 * pow256((n - 1) as nat));
        }
        lemma_le_round_trip(x / 256, (n - 1) as nat);
        let s = spec_le_bytes(x, n);
        assert(s.drop_first() =~= spec_le_bytes(x / 256, (n - 1) as nat));
        assert(s[0] == (x % 256) as u8);
    }
}

/// Sixteen little-endian bytes for a cell index.
pub fn index_to_key(index: u128) -> (r: Vec<u8>)
    ensures
        r@ == spec_le_bytes(index as nat, 16),
        r@.len() == 16,
{
    let mut r: Vec<u8> = Vec::new();
    let mut rem: u128 = index;
    let mut i: usize = 0;
    while i < 16
        invariant
            i <= 16,
            r@.len() == i,
            spec_le_bytes(index as nat, 16) =~= r@ + spec_le_bytes(rem as nat, (16 - i) as nat),
        decreases 16 - i,
    {
        let ghost prev = r@;
        let ghost prem = rem as nat;
        r.push((rem % 256) as u8);
        rem = rem / 256;
        proof {
            assert(spec_le_bytes(prem, (16 - i) as nat) =~= seq![(prem % 256) as u8]
                + spec_le_bytes(prem / 256, (16 - i - 1) as nat));
            assert(r@ =~= prev + seq![(prem % 256) as u8]);
            assert(r@ + spec_le_bytes(rem as nat, (16 - (i + 1)) as nat) =~= prev
                + spec_le_bytes(prem, (16 - i) as nat));
        }
        i += 1;
    }
    proof {
        assert(spec_le_bytes(rem as nat, 0) =~= Seq::<u8>::empty());
        assert(r@ + Seq::<u8>::empty() =~= r@);
    }
    r
}

/// The cell index denoted by sixteen little-endian bytes.
pub fn key_to_index(bytes: &Vec<u8>) -> (r: Result<u128, QueueError>)
    ensures
        match r {
            Ok(x) => bytes@.len() == 16 && x as nat == spec_from_le(bytes@),
            Err(e) => e == QueueError::BadIndexCell && bytes@.len() != 16,
        },
{
    if bytes.len() != 16 {
        return Err(QueueError::BadIndexCell);
    }
    proof {
        assert(pow256(16) == 0x1_0000_0000_0000_0000_0000_0000_0000_0000) by {
            reveal_with_fuel(pow256, 17);
        }
    }
    let mut acc: u128 = 0;
    let mut i: usize = 16;
    while i > 0
        invariant
            bytes@.len() == 16,
            i <= 16,
            acc as nat == spec_from_le(bytes@.skip(i as int)),
            pow256(16) == 0x1_0000_0000_0000_0000_0000_0000_0000_0000,
        decreases i,
    {
        proof {
            lemma_from_le_bound(bytes@.skip(i as int));
            lemma_pow256_le((16 - i) as nat, 15);
            assert(bytes@.skip(i - 1).drop_first() =~= bytes@.skip(i as int));
            assert(bytes@.skip(i - 1)[0] == bytes@[i - 1]);
        }
        acc = acc * 256 + (bytes[i - 1] as u128);
        i -= 1;
    }
    proof {
        assert(bytes@.skip(0) =~= bytes@);
    }
    Ok(acc)
}

proof fn lemma_pow256_le(a: nat, b: nat)
    requires
        a <= b,
    ensures
        pow256(a) <= pow256(b),
    decreases b,
{
    if a < b {
        lemma_pow256_le(a, (b - 1) as nat);
    }
}

/// Whether the ring size and the element bound are usable.
pub open spec fn spec_queue_config_ok(max_elements: u128, max_allowed_index: u128) -> bool {
    2 <= max_allowed_index <= READ_INDEX_CELL && 0 < max_elements
}

/// Whether a reserved index cell, where present, holds sixteen bytes
/// denoting an index inside the ring.
pub open spec fn spec_index_cell_ok(cells: Map<u128, Seq<u8>>, key: u128, m: u128) -> bool {
    cells.contains_key(key) ==> (cells[key].len() == 16 && spec_from_le(cells[key]) < m)
}

/// The two ring indices and the bounds fixed at open time.
#[derive(Clone, Copy, Debug, PartialEq, Eq, Structural)]
pub struct QueueState {
    pub write_index: u128,
    pub read_index: u128,
    pub max_elements: u128,
    /// Indices advance modulo this ring size.
    pub max_allowed_index: u128,
}

impl QueueState {
    pub open spec fn wf(&self) -> bool {
        &&& 2 <= self.max_allowed_index
        &&& self.max_allowed_index <= READ_INDEX_CELL
        &&& self.write_index < self.max_allowed_index
        &&& self.read_index < self.max_allowed_index
        &&& 0 < self.max_elements
    }

    /// How many items the indices enclose: (write − read) modulo the
    /// ring size.
    pub open spec fn spec_len(&self) -> u128 {
        if self.write_index >= self.read_index {
            (self.write_index - self.read_index) as u128
        } else {
            (self.max_allowed_index - self.read_index + self.write_index) as u128
        }
    }

    pub fn len(&self) -> (r: u128)
        requires
            self.wf(),
        ensures
            r == self.spec_len(),
    {
        if self.write_index >= self.read_index {
            self.write_index - self.read_index
        } else {
            self.max_allowed_index - self.read_index + self.write_index
        }
    }

    pub fn is_empty(&self) -> (r: bool)
        requires
            self.wf(),
        ensures
            r == (self.spec_len() == 0),
    {
        self.write_index == self.read_index
    }
}

/// The next ring index after `i`.
pub open spec fn spec_advance(i: u128, m: u128) -> u128
    recommends
        i < m,
{
    if i + 1 == m {
        0
    } else {
        (i + 1) as u128
    }
}

/// The cell that holds the `j`-th item counted from the read index.
pub open spec fn spec_cell(r: u128, j: nat, m: u128) -> u128
    recommends
        r < m,
        j < m,
{
    if r + j < m {
        (r + j) as u128
    } else {
        (r + j - m) as u128
    }
}

/// A bounded FIFO of byte buffers over a cell store: data cells keyed by
/// ring index, and two reserved cells persisting the ring indices, so
/// that reopening the store finds the queue as it was. Every mutation
/// keeps the cell store exactly in step with the indices; a driver that
/// mirrors the cell writes into a durable store gets crash safety from
/// writing each mutation's cells as one atomic batch.
#[derive(Debug)]
pub struct PersistentQueue {
    pub state: QueueState,
    pub cells: CellMap,
}

impl PersistentQueue {
    pub open spec fn wf(&self) -> bool {
        &&& self.state.wf()
        &&& self.cells.wf()
        &&& self.cells@.contains_key(WRITE_INDEX_CELL)
        &&& self.cells@[WRITE_INDEX_CELL] == spec_le_bytes(self.state.write_index as nat, 16)
        &&& self.cells@.contains_key(READ_INDEX_CELL)
        &&& self.cells@[READ_INDEX_CELL] == spec_le_bytes(self.state.read_index as nat, 16)
        &&& forall|j: nat|
            j < self.state.spec_len() ==> self.cells@.contains_key(
                #[trigger] spec_cell(
                    self.state.read_index,
                    j,
                    self.state.max_allowed_index,
                ),
            )
    }

    /// The live items, oldest first.
    pub open spec fn contents(&self) -> Seq<Seq<u8>> {
        Seq::new(
            self.state.spec_len() as nat,
            |j: int|
                self.cells@[spec_cell(
                    self.state.read_index,
                    j as nat,
                    self.state.max_allowed_index,
                )],
        )
    }

    /// A fresh, empty queue over a ring of `max_allowed_index` cells,
    /// holding at most `max_elements` items.
    pub fn new(max_elements: u128, max_allowed_index: u128) -> (r: Result<
        PersistentQueue,
        QueueError,
    >)
        ensures
            match r {
                Ok(q) => {
                    &&& q.wf()
                    &&& q.state.write_index == 0
                    &&& q.state.read_index == 0
                    &&& q.state.max_elements == max_elements
                    &&& q.state.max_allowed_index == max_allowed_index
                    &&& q.contents() =~= Seq::<Seq<u8>>::empty()
                },
                Err(e) => {
                    &&& e == QueueError::BadConfiguration
                    &&& !(2 <= max_allowed_index <= READ_INDEX_CELL && 0 < max_elements)
                },
            },
    {
        if !(2 <= max_allowed_index && max_allowed_index <= READ_INDEX_CELL && 0 < max_elements) {
            return Err(QueueError::BadConfiguration);
        }
        let mut cells = CellMap::new();
        cells.insert(WRITE_INDEX_CELL, index_to_key(0));
        cells.insert(READ_INDEX_CELL, index_to_key(0));
        let q = PersistentQueue {
            state: QueueState {
                write_index: 0,
                read_index: 0,
                max_elements,
                max_allowed_index,
            },
            cells,
        };
        Ok(q)
    }

    /// Reopens a queue from a persisted cell store: the ring indices are
    /// read back from the reserved cells, an absent cell standing for 0.
    pub fn from_cells(cells: CellMap, max_elements: u128, max_allowed_index: u128) -> (r: Result<
        PersistentQueue,
        QueueError,
    >)
        requires
            cells.wf(),
        ensures
            (r is Ok) == (spec_queue_config_ok(max_elements, max_allowed_index)
                && spec_index_cell_ok(cells@, WRITE_INDEX_CELL, max_allowed_index)
                && spec_index_cell_ok(cells@, READ_INDEX_CELL, max_allowed_index)),
            match r {
                Ok(q) => {
                    &&& q.state.max_elements == max_elements
                    &&& q.state.max_allowed_index == max_allowed_index
                    &&& (cells@.contains_key(WRITE_INDEX_CELL) ==> q.state.write_index as nat
                        == spec_from_le(cells@[WRITE_INDEX_CELL]))
                    &&& (!cells@.contains_key(WRITE_INDEX_CELL) ==> q.state.write_index == 0)
                    &&& (cells@.contains_key(READ_INDEX_CELL) ==> q.state.read_index as nat
                        == spec_from_le(cells@[READ_INDEX_CELL]))
                    &&& (!cells@.contains_key(READ_INDEX_CELL) ==> q.state.read_index == 0)
                    &&& q.cells@ =~= cells@.insert(
                        WRITE_INDEX_CELL,
                        spec_le_bytes(q.state.write_index as nat, 16),
                    ).insert(READ_INDEX_CELL, spec_le_bytes(q.state.read_index as nat, 16))
                    &&& q.state.wf()
                    &&& q.cells.wf()
                    &&& (q.wf() <==> forall|j: nat|
                        j < q.state.spec_len() ==> q.cells@.contains_key(
                            #[trigger] spec_cell(
                                q.state.read_index,
                                j,
                                q.state.max_allowed_index,
                            ),
                        ))
                },
                Err(e) => {
                    &&& (e == QueueError::BadConfiguration <==> !spec_queue_config_ok(
                        max_elements,
                        max_allowed_index,
                    ))
                    &&& (e == QueueError::BadIndexCell <==> spec_queue_config_ok(
                        max_elements,
                        max_allowed_index,
                    ) && !(spec_index_cell_ok(cells@, WRITE_INDEX_CELL, max_allowed_index)
                        && spec_index_cell_ok(cells@, READ_INDEX_CELL, max_allowed_index)))
                    &&& (e == QueueError::BadConfiguration || e == QueueError::BadIndexCell)
                },
            },
    {
        if !(2 <= max_allowed_index && max_allowed_index <= READ_INDEX_CELL && 0 < max_elements) {
            return Err(QueueError::BadConfiguration);
        }
        let write_index = match cells.get(WRITE_INDEX_CELL) {
            Some(v) => match key_to_index(v) {
                Ok(x) => x,
                Err(e) => {
                    proof {
                        assert(!spec_index_cell_ok(
                            cells@,
                            WRITE_INDEX_CELL,
                            max_allowed_index,
                        ));
                    }
                    return Err(e);
                },
            },
            None => 0,
        };
        let read_index = match cells.get(READ_INDEX_CELL) {
            Some(v) => match key_to_index(v) {
                Ok(x) => x,
                Err(e) => {
                    proof {
                        assert(!spec_index_cell_ok(
                            cells@,
                            READ_INDEX_CELL,
                            max_allowed_index,
                        ));
                    }
                    return Err(e);
                },
            },
            None => 0,
        };
        if write_index >= max_allowed_index || read_index >= max_allowed_index {
            proof {
                if write_index >= max_allowed_index {
                    assert(!spec_index_cell_ok(cells@, WRITE_INDEX_CELL, max_allowed_index));
                } else {
                    assert(!spec_index_cell_ok(cells@, READ_INDEX_CELL, max_allowed_index));
                }
            }
            return Err(QueueError::BadIndexCell);
        }
        let mut cells = cells;
        cells.insert(WRITE_INDEX_CELL, index_to_key(write_index));
        cells.insert(READ_INDEX_CELL, index_to_key(read_index));
        proof {
            assert(pow256(16) == 0x1_0000_0000_0000_0000_0000_0000_0000_0000) by {
                reveal_with_fuel(pow256, 17);
            }
            lemma_le_round_trip(write_index as nat, 16);
            lemma_le_round_trip(read_index as nat, 16);
        }
        let q = PersistentQueue {
            state: QueueState { write_index, read_index, max_elements, max_allowed_index },
            cells,
        };
        proof {
            assert(q.cells@.contains_key(WRITE_INDEX_CELL));
            assert(q.cells@[WRITE_INDEX_CELL] == spec_le_bytes(q.state.write_index as nat, 16));
            assert(q.cells@.contains_key(READ_INDEX_CELL));
            assert(q.cells@[READ_INDEX_CELL] == spec_le_bytes(q.state.read_index as nat, 16));
        }
        Ok(q)
    }

    /// Reopening the cells of a well-formed queue restores it exactly.
    pub proof fn lemma_reopen_exact(q: PersistentQueue)
        requires
            q.wf(),
        ensures
            q.cells@.insert(
                WRITE_INDEX_CELL,
                spec_le_bytes(
                    (spec_from_le(q.cells@[WRITE_INDEX_CELL]) as u128) as nat,
                    16,
                ),
            ).insert(
                READ_INDEX_CELL,
                spec_le_bytes((spec_from_le(q.cells@[READ_INDEX_CELL]) as u128) as nat, 16),
            ) =~= q.cells@,
            spec_from_le(q.cells@[WRITE_INDEX_CELL]) == q.state.write_index as nat,
            spec_from_le(q.cells@[READ_INDEX_CELL]) == q.state.read_index as nat,
    {
        assert(pow256(16) == 0x1_0000_0000_0000_0000_0000_0000_0000_0000) by {
            reveal_with_fuel(pow256, 17);
        }
        lemma_le_round_trip(q.state.write_index as nat, 16);
        lemma_le_round_trip(q.state.read_index as nat, 16);
    }

    pub fn len(&self) -> (r: u128)
        requires
            self.wf(),
        ensures
            r == self.state.spec_len(),
            r == self.contents().len(),
    {
        self.state.len()
    }

    pub fn is_empty(&self) -> (r: bool)
        requires
            self.wf(),
        ensures
            r == (self.contents().len() == 0),
    {
        self.state.is_empty()
    }

    /// Appends `value`, unless the queue already holds `max_elements`
    /// items or all but one cell of the ring is in use. The data cell and
    /// the advanced write index are both filed in the cell store.
    pub fn push(&mut self, value: &Vec<u8>) -> (r: Result<(), QueueError>)
        requires
            old(self).wf(),
        ensures
            final(self).wf(),
            final(self).state.max_elements == old(self).state.max_elements,
            final(self).state.max_allowed_index == old(self).state.max_allowed_index,
            match r {
                Ok(_) => {
                    &&& old(self).contents().len() < old(self).state.max_elements
                    &&& old(self).contents().len() < old(self).state.max_allowed_index - 1
                    &&& final(self).contents() =~= old(self).contents().push(value@)
                    &&& final(self).state.read_index == old(self).state.read_index
                    &&& final(self).state.write_index == spec_advance(
                        old(self).state.write_index,
                        old(self).state.max_allowed_index,
                    )
                },
                Err(e) => {
                    &&& e == QueueError::QueueFull
                    &&& (old(self).contents().len() >= old(self).state.max_elements || old(
                        self,
                    ).contents().len() >= old(self).state.max_allowed_index - 1)
                    &&& *final(self) == *old(self)
                },
            },
    {
        if self.state.len() >= self.state.max_elements || self.state.len()
            >= self.state.max_allowed_index - 1 {
            return Err(QueueError::QueueFull);
        }
        let ghost pre = *self;
        let ghost m = self.state.max_allowed_index;
        let ghost r0 = self.state.read_index;
        let ghost w0 = self.state.write_index;
        let ghost len0 = self.state.spec_len() as nat;
        let w = self.state.write_index;
        let mut data: Vec<u8> = Vec::new();
        let n = value.len();
        let mut i: usize = 0;
        while i < n
            invariant
                n == value@.len(),
                i <= n,
                data@.len() == i,
                forall|j: int| 0 <= j < i ==> #[trigger] data@[j] == value@[j],
            decreases n - i,
        {
            data.push(value[i]);
            i += 1;
        }
        proof {
            assert(data@ =~= value@);
        }
        self.cells.insert(w, data);
        let w2 = if w + 1 == self.state.max_allowed_index {
            0
        } else {
            w + 1
        };
        self.state.write_index = w2;
        self.cells.insert(WRITE_INDEX_CELL, index_to_key(w2));
        proof {
            let fin = *final(self);
            assert(w2 == spec_advance(w0, m));
            assert(w < m);
            assert(spec_cell(r0, len0, m) == w0);
            assert(fin.state.spec_len() == len0 + 1);
            assert forall|j: nat| j < len0 + 1 implies fin.cells@.contains_key(
                #[trigger] spec_cell(r0, j, m)) by {
                if j < len0 {
                    assert(spec_cell(r0, j, m) != w0);
                    assert(spec_cell(r0, j, m) != WRITE_INDEX_CELL);
                    assert(pre.cells@.contains_key(spec_cell(r0, j, m)));
                } else {
                    assert(spec_cell(r0, j, m) == w0);
                }
            }
            assert forall|j: int| 0 <= j < len0 + 1 implies #[trigger] fin.contents()[j] == pre
                .contents().push(value@)[j] by {
                if j < len0 {
                    assert(spec_cell(r0, j as nat, m) != w0);
                    assert(spec_cell(r0, j as nat, m) != WRITE_INDEX_CELL);
                } else {
                    assert(spec_cell(r0, j as nat, m) == w0);
                }
            }
            assert(fin.contents() =~= pre.contents().push(value@));
        }
        Ok(())
    }

    /// Takes the oldest item, deleting its data cell and filing the
    /// advanced read index; nothing when the queue is empty.
    pub fn pop(&mut self) -> (r: Option<Vec<u8>>)
        requires
            old(self).wf(),
        ensures
            final(self).wf(),
            final(self).state.max_elements == old(self).state.max_elements,
            final(self).state.max_allowed_index == old(self).state.max_allowed_index,
            match r {
                Some(v) => {
                    &&& old(self).contents().len() > 0
                    &&& v@ == old(self).contents()[0]
                    &&& final(self).contents() =~= old(self).contents().subrange(
                        1,
                        old(self).contents().len() as int,
                    )
                    &&& final(self).state.write_index == old(self).state.write_index
                    &&& final(self).state.read_index == spec_advance(
                        old(self).state.read_index,
                        old(self).state.max_allowed_index,
                    )
                },
                None => {
                    &&& old(self).contents().len() == 0
                    &&& *final(self) == *old(self)
                },
            },
    {
        if self.state.write_index == self.state.read_index {
            return None;
        }
        let ghost pre = *self;
        let ghost m = self.state.max_allowed_index;
        let ghost r0 = self.state.read_index;
        let ghost len0 = self.state.spec_len() as nat;
        let rd = self.state.read_index;
        proof {
            assert(spec_cell(r0, 0, m) == r0);
            assert(pre.cells@.contains_key(r0));
        }
        let value = match self.cells.remove(rd) {
            Some(v) => v,
            None => {
                proof {
                    assert(false);
                }
                return None;
            },
        };
        let r2 = if rd + 1 == self.state.max_allowed_index {
            0
        } else {
            rd + 1
        };
        self.state.read_index = r2;
        self.cells.insert(READ_INDEX_CELL, index_to_key(r2));
        proof {
            let fin = *final(self);
            assert(r2 == spec_advance(r0, m));
            assert(fin.state.spec_len() == len0 - 1);
            assert forall|j: nat| j < len0 - 1 implies fin.cells@.contains_key(
                #[trigger] spec_cell(r2, j, m)) by {
                assert(spec_cell(r2, j, m) == spec_cell(r0, (j + 1) as nat, m));
                assert(spec_cell(r0, (j + 1) as nat, m) != r0);
                assert(spec_cell(r0, (j + 1) as nat, m) != READ_INDEX_CELL);
                assert(pre.cells@.contains_key(spec_cell(r0, (j + 1) as nat, m)));
            }
            assert forall|j: int| 0 <= j < len0 - 1 implies #[trigger] fin.contents()[j] == pre
                .contents().subrange(1, len0 as int)[j] by {
                assert(spec_cell(r2, j as nat, m) == spec_cell(r0, (j + 1) as nat, m));
                assert(spec_cell(r0, (j + 1) as nat, m) != r0);
                assert(spec_cell(r0, (j + 1) as nat, m) != READ_INDEX_CELL);
            }
            assert(fin.contents() =~= pre.contents().subrange(1, len0 as int));
            assert(value@ == pre.contents()[0]);
        }
        Some(value)
    }
}

} // verus!
