//! Row production for the data tables: where a key's values lie in its
//! period file, and the rows that those bytes become.
use vstd::prelude::*;
use crate::catalog::SolutionDataset;
use crate::model::{Key, KeyIndex};

verus! {

/// Number of values read from a period file at a time.
pub const CHUNK_VALUES: u64 = 4096;

/// Why a key's values cannot be read.
#[derive(Debug, Clone, PartialEq, Eq, Structural)]
pub enum DataError {
    /// No period file is available for the key's period type.
    UnknownPeriodType { key_id: i64, period_type_id: i64 },
    /// The key, or its index, is not in the catalog.
    UnknownKey { key_id: i64 },
    /// The period file of the key is not given, or ends before the key's values.
    ShortRead { key_id: i64 },
    /// The key's byte position is not a multiple of 8.
    Misaligned { key_id: i64, position: u64 },
    /// A byte offset or a block identifier does not fit in 64 bits.
    Overflow { key_id: i64 },
}

/// One row of a data table. `value_bits` holds the IEEE-754 bits of the
/// double, as read little-endian from the period file.
#[derive(Debug, Clone, Copy, PartialEq, Eq, Structural)]
pub struct DataRow {
    pub key_id: i64,
    pub sample_id: i64,
    pub band_id: i64,
    pub membership_id: i64,
    pub block_id: i64,
    pub value_bits: u64,
}

/// The byte span of a key's values in its period file, checked.
#[derive(Debug, Clone, Copy, PartialEq, Eq, Structural)]
pub struct KeyRead {
    pub key_id: i64,
    pub period_type_id: i64,
    pub position: u64,
    pub length: u64,
    pub period_offset: i64,
}

/// The unsigned value of the `n` bytes of `b` from `at`, least significant
/// first.
pub open spec fn le_value(b: Seq<u8>, at: int, n: nat) -> nat
    decreases n,
{
    if n == 0 {
        0
    } else {
        b[at] as nat + 256 * le_value(b, at + 1, (n - 1) as nat)
    }
}

/// The block identifier of the `i`-th value of a key.
pub open spec fn block_id_of(period_offset: i64, i: int) -> int {
    i + period_offset + 1
}

/// Every block identifier of a key of this length fits in an `i64`.
pub open spec fn block_ids_fit(length: u64, period_offset: i64) -> bool {
    length == 0 || block_id_of(period_offset, length - 1) <= i64::MAX
}

/// The check that comes before a key is read: its file exists, it is aligned,
/// and its byte span and block identifiers fit in 64 bits.
pub open spec fn read_outcome(ki: KeyIndex, has_file: bool) -> Result<KeyRead, DataError> {
    if !has_file {
        Err(DataError::UnknownPeriodType { key_id: ki.key_id, period_type_id: ki.period_type_id })
    } else if ki.position % 8 != 0 {
        Err(DataError::Misaligned { key_id: ki.key_id, position: ki.position })
    } else if ki.position + 8 * ki.length > u64::MAX || !block_ids_fit(ki.length, ki.period_offset) {
        Err(DataError::Overflow { key_id: ki.key_id })
    } else {
        Ok(
            KeyRead {
                key_id: ki.key_id,
                period_type_id: ki.period_type_id,
                position: ki.position,
                length: ki.length,
                period_offset: ki.period_offset,
            },
        )
    }
}

/// A checked read of a key: its span ends within 64 bits and its block
/// identifiers fit.
pub open spec fn read_ok(r: KeyRead) -> bool {
    &&& r.position % 8 == 0
    &&& r.position + 8 * r.length <= u64::MAX
    &&& block_ids_fit(r.length, r.period_offset)
}

/// The row for the `i`-th value of a key, given the bytes of the period file.
pub open spec fn row_of(key: Key, r: KeyRead, file: Seq<u8>, i: int) -> DataRow {
    DataRow {
        key_id: r.key_id,
        sample_id: key.sample_id,
        band_id: key.band_id,
        membership_id: key.membership_id,
        block_id: block_id_of(r.period_offset, i) as i64,
        value_bits: le_value(file, r.position + 8 * i, 8) as u64,
    }
}

/// Checks a key's layout before it is read. `has_file` tells whether a period
/// file for its period type is available.
pub fn plan_key_read(ki: &KeyIndex, has_file: bool) -> (r: Result<KeyRead, DataError>)
    ensures
        r == read_outcome(*ki, has_file),
        r matches Ok(rd) ==> read_ok(rd),
{
    if !has_file {
        return Err(DataError::UnknownPeriodType { key_id: ki.key_id, period_type_id: ki.period_type_id });
    }
    if ki.position % 8 != 0 {
        return Err(DataError::Misaligned { key_id: ki.key_id, position: ki.position });
    }
    let bytes = ki.length.checked_mul(8);
    let end = match bytes {
        Some(b) => ki.position.checked_add(b),
        None => None,
    };
    if end.is_none() {
        return Err(DataError::Overflow { key_id: ki.key_id });
    }
    if ki.length > 0 {
        let last: u64 = ki.length - 1;
        if last > i64::MAX as u64 {
            return Err(DataError::Overflow { key_id: ki.key_id });
        }
        let fits = match (last as i64).checked_add(ki.period_offset) {
            Some(v) => v < i64::MAX,
            None => false,
        };
        if !fits {
            return Err(DataError::Overflow { key_id: ki.key_id });
        }
    }
    Ok(
        KeyRead {
            key_id: ki.key_id,
            period_type_id: ki.period_type_id,
            position: ki.position,
            length: ki.length,
            period_offset: ki.period_offset,
        },
    )
}

/// The chunk of a key that starts at value `start`: its byte offset in the
/// period file and the number of values in it.
pub fn chunk_at(r: &KeyRead, start: u64) -> (c: (u64, u64))
    requires
        read_ok(*r),
        start < r.length,
    ensures
        c.0 == r.position + 8 * start,
        c.1 == if r.length - start < CHUNK_VALUES {
            r.length - start
        } else {
            CHUNK_VALUES as int
        },
        0 < c.1 <= CHUNK_VALUES,
{
    let n = if r.length - start < CHUNK_VALUES {
        r.length - start
    } else {
        CHUNK_VALUES
    };
    (r.position + 8 * start, n)
}

/// The value of the eight bytes of `b` from `at`, least significant first.
pub fn le_u64_at(b: &Vec<u8>, at: usize) -> (v: u64)
    requires
        at + 8 <= b@.len(),
    ensures
        v as nat == le_value(b@, at as int, 8),
{
    proof {
        reveal_with_fuel(le_value, 9);
    }
    let len = b.len();
    assert(at + 8 <= len);
    let b0 = b[at] as u64;
    let b1 = b[at + 1] as u64;
    let b2 = b[at + 2] as u64;
    let b3 = b[at + 3] as u64;
    let b4 = b[at + 4] as u64;
    let b5 = b[at + 5] as u64;
    let b6 = b[at + 6] as u64;
    let b7 = b[at + 7] as u64;
    let v7 = b7;
    let v6 = v7 * 256 + b6;
    let v5 = v6 * 256 + b5;
    let v4 = v5 * 256 + b4;
    let v3 = v4 * 256 + b3;
    let v2 = v3 * 256 + b2;
    let v1 = v2 * 256 + b1;
    let v0 = v1 * 256 + b0;
    v0
}

/// The row for the `j`-th value of a chunk whose first value is the key's
/// value `start`.
pub open spec fn chunk_row(key: Key, r: KeyRead, chunk: Seq<u8>, start: int, j: int) -> DataRow {
    DataRow {
        key_id: r.key_id,
        sample_id: key.sample_id,
        band_id: key.band_id,
        membership_id: key.membership_id,
        block_id: block_id_of(r.period_offset, start + j) as i64,
        value_bits: le_value(chunk, 8 * j, 8) as u64,
    }
}

/// Appends the rows of a chunk of a key: `chunk` holds the bytes read from the
/// chunk's offset on, one value per eight bytes, for the key's values from
/// `start` on.
pub fn decode_chunk(key: &Key, r: &KeyRead, start: u64, chunk: &Vec<u8>, rows: &mut Vec<DataRow>)
    requires
        read_ok(*r),
        chunk@.len() % 8 == 0,
        start + chunk@.len() / 8 <= r.length,
    ensures
        final(rows)@.len() == old(rows)@.len() + chunk@.len() / 8,
        forall|i: int| 0 <= i < old(rows)@.len() ==> final(rows)@[i] == old(rows)@[i],
        forall|j: int|
            0 <= j < chunk@.len() / 8 ==> #[trigger] final(rows)@[old(rows)@.len() + j] == chunk_row(
                *key,
                *r,
                chunk@,
                start as int,
                j,
            ),
{
    let clen: usize = chunk.len();
    let n: usize = clen / 8;
    let ghost base = rows@.len();
    let mut i: usize = 0;
    while i < n
        invariant
            clen == chunk@.len(),
            n == chunk@.len() / 8,
            chunk@.len() % 8 == 0,
            i <= n,
            read_ok(*r),
            start + n <= r.length,
            rows@.len() == base + i,
            base == old(rows)@.len(),
            forall|j: int| 0 <= j < base ==> rows@[j] == old(rows)@[j],
            forall|j: int|
                0 <= j < i ==> #[trigger] rows@[base + j] == chunk_row(*key, *r, chunk@, start as int, j),
        decreases n - i,
    {
        assert(8 * i + 8 <= chunk@.len()) by (nonlinear_arith)
            requires
                i < n,
                n == chunk@.len() / 8,
        ;
        let bits = le_u64_at(chunk, 8 * i);
        let idx: u64 = start + i as u64;
        let block_id = idx as i64 + r.period_offset + 1;
        rows.push(
            DataRow {
                key_id: r.key_id,
                sample_id: key.sample_id,
                band_id: key.band_id,
                membership_id: key.membership_id,
                block_id,
                value_bits: bits,
            },
        );
        i = i + 1;
    }
}

/// Where a chunk holds the bytes of the period file from the chunk's offset,
/// each decoded row is the row of that value of the key: its value is the
/// double stored at `position + 8 * i` and its block is `i + period_offset + 1`.
pub proof fn lemma_chunk_rows_match_file(key: Key, r: KeyRead, start: int, chunk: Seq<u8>, file: Seq<u8>, j: int)
    requires
        0 <= start,
        0 <= j < chunk.len() / 8,
        chunk.len() % 8 == 0,
        r.position + 8 * start + chunk.len() <= file.len(),
        chunk == file.subrange(r.position + 8 * start, r.position + 8 * start + chunk.len()),
    ensures
        chunk_row(key, r, chunk, start, j) == row_of(key, r, file, start + j),
{
    lemma_le_value_shift(chunk, file, 8 * j, r.position + 8 * start, 8);
    assert(r.position + 8 * start + 8 * j == r.position + 8 * (start + j));
}

proof fn lemma_le_value_shift(a: Seq<u8>, b: Seq<u8>, at: int, off: int, n: nat)
    requires
        0 <= at,
        at + n <= a.len(),
        0 <= off,
        forall|k: int| 0 <= k < a.len() ==> a[k] == b[off + k],
    ensures
        le_value(a, at, n) == le_value(b, off + at, n),
    decreases n,
{
    if n > 0 {
        lemma_le_value_shift(a, b, at + 1, off, (n - 1) as nat);
        assert(off + at + 1 == off + (at + 1));
    }
}

/// The (key, block) pairs of a key's rows, in order.
pub open spec fn key_blocks(r: KeyRead) -> Seq<(i64, i64)> {
    Seq::new(r.length as nat, |i: int| (r.key_id, block_id_of(r.period_offset, i) as i64))
}

/// The (key, block) pairs of the rows of the first `n` keys, key after key.
pub open spec fn all_blocks(reads: Seq<KeyRead>, n: int) -> Seq<(i64, i64)>
    decreases n,
{
    if n <= 0 {
        Seq::empty()
    } else {
        all_blocks(reads, n - 1) + key_blocks(reads[n - 1])
    }
}

/// The number of values of the first `n` keys.
pub open spec fn total_values(reads: Seq<KeyRead>, n: int) -> int
    decreases n,
{
    if n <= 0 {
        0
    } else {
        total_values(reads, n - 1) + reads[n - 1].length
    }
}

/// How a key of a data table is read, or why it cannot be.
pub open spec fn key_outcome(ds: SolutionDataset, key_id: i64) -> Result<(Key, KeyRead), DataError> {
    match (ds.key_index.lookup(key_id), ds.key.lookup(key_id)) {
        (Some(ki), Some(k)) => match read_outcome(ki, ds.period_data@.contains(ki.period_type_id)) {
            Ok(r) => Ok((k, r)),
            Err(e) => Err(e),
        },
        _ => Err(DataError::UnknownKey { key_id }),
    }
}

/// A chunk of a period file to read: `values` doubles from byte `offset` of
/// the file of `period_type_id`.
#[derive(Debug, Clone, Copy, PartialEq, Eq, Structural)]
pub struct ChunkRead {
    pub period_type_id: i64,
    pub offset: u64,
    pub values: u64,
}

/// The writing of one data table: its keys in plan order, each read chunk by
/// chunk. The caller reads each chunk that `next_chunk` names and hands its
/// bytes to `accept`, which returns the chunk's rows.
pub struct TableWriter {
    keys: Vec<Key>,
    reads: Vec<KeyRead>,
    key_pos: usize,
    value_pos: u64,
    emitted: Ghost<Seq<(i64, i64)>>,
}

impl TableWriter {
    pub closed spec fn keys(&self) -> Seq<Key> {
        self.keys@
    }

    pub closed spec fn reads(&self) -> Seq<KeyRead> {
        self.reads@
    }

    pub closed spec fn key_pos(&self) -> int {
        self.key_pos as int
    }

    pub closed spec fn value_pos(&self) -> int {
        self.value_pos as int
    }

    /// The (key, block) pairs of the rows handed out so far.
    pub closed spec fn emitted(&self) -> Seq<(i64, i64)> {
        self.emitted@
    }

    pub open spec fn inv(&self) -> bool {
        &&& self.keys().len() == self.reads().len()
        &&& forall|i: int| 0 <= i < self.reads().len() ==> read_ok(#[trigger] self.reads()[i])
        &&& 0 <= self.key_pos() <= self.reads().len()
        &&& self.key_pos() < self.reads().len() ==> 0 <= self.value_pos() < self.reads()[self.key_pos()].length
        &&& self.key_pos() == self.reads().len() ==> self.value_pos() == 0
        &&& self.emitted() == all_blocks(self.reads(), self.key_pos()) + if self.key_pos() < self.reads().len() {
            key_blocks(self.reads()[self.key_pos()]).take(self.value_pos())
        } else {
            Seq::empty()
        }
    }

    pub open spec fn done(&self) -> bool {
        self.key_pos() == self.reads().len()
    }

    /// Skips the keys without values from the current one on.
    fn skip_empty(&mut self)
        requires
            old(self).keys().len() == old(self).reads().len(),
            forall|i: int| 0 <= i < old(self).reads().len() ==> read_ok(#[trigger] old(self).reads()[i]),
            0 <= old(self).key_pos() <= old(self).reads().len(),
            old(self).value_pos() == 0,
            old(self).emitted() == all_blocks(old(self).reads(), old(self).key_pos()),
        ensures
            final(self).inv(),
            final(self).keys() == old(self).keys(),
            final(self).reads() == old(self).reads(),
            final(self).emitted() == old(self).emitted(),
            final(self).key_pos() >= old(self).key_pos(),
            forall|i: int| old(self).key_pos() <= i < final(self).key_pos() ==> (#[trigger] old(self).reads()[i]).length == 0,
    {
        while self.key_pos < self.reads.len() && self.reads[self.key_pos].length == 0
            invariant
                self.keys@.len() == self.reads@.len(),
                self.keys@ == old(self).keys@,
                self.reads@ == old(self).reads@,
                forall|i: int| 0 <= i < self.reads@.len() ==> read_ok(#[trigger] self.reads@[i]),
                old(self).key_pos <= self.key_pos <= self.reads@.len(),
                self.value_pos == 0,
                self.emitted@ == old(self).emitted@,
                self.emitted@ == all_blocks(self.reads@, self.key_pos as int),
                forall|i: int| old(self).key_pos <= i < self.key_pos ==> (#[trigger] old(self).reads@[i]).length == 0,
            decreases self.reads@.len() - self.key_pos,
        {
            proof {
                assert(key_blocks(self.reads@[self.key_pos as int]) =~= Seq::<(i64, i64)>::empty());
                assert(all_blocks(self.reads@, self.key_pos + 1) =~= all_blocks(self.reads@, self.key_pos as int));
            }
            self.key_pos = self.key_pos + 1;
        }
        proof {
            if self.key_pos < self.reads@.len() {
                assert(key_blocks(self.reads@[self.key_pos as int]).take(0) =~= Seq::<(i64, i64)>::empty());
            }
            assert(self.emitted@ =~= all_blocks(self.reads@, self.key_pos as int) + if self.key_pos < self.reads@.len() {
                key_blocks(self.reads@[self.key_pos as int]).take(0)
            } else {
                Seq::empty()
            });
        }
    }

    /// Plans the writing of the table with these keys: each key needs its
    /// index and its record, a period file for its period type, and a layout
    /// that passes `plan_key_read`. Fails on the first key that does not.
    pub fn new(ds: &SolutionDataset, key_ids: &Vec<i64>) -> (r: Result<TableWriter, DataError>)
        requires
            ds.wf(),
        ensures
            r is Ok <==> forall|i: int| 0 <= i < key_ids@.len() ==> (#[trigger] key_outcome(*ds, key_ids@[i])) is Ok,
            r matches Err(e) ==> exists|i: int|
                0 <= i < key_ids@.len() && #[trigger] key_outcome(*ds, key_ids@[i]) == Err::<(Key, KeyRead), DataError>(e)
                    && forall|j: int| 0 <= j < i ==> (#[trigger] key_outcome(*ds, key_ids@[j])) is Ok,
            r matches Ok(w) ==> {
                &&& w.inv()
                &&& w.emitted().len() == 0
                &&& w.reads().len() == key_ids@.len()
                &&& forall|i: int|
                    0 <= i < key_ids@.len() ==> key_outcome(*ds, key_ids@[i]) == Ok::<(Key, KeyRead), DataError>(
                        (#[trigger] w.keys()[i], w.reads()[i]),
                    )
            },
    {
        let mut keys: Vec<Key> = Vec::new();
        let mut reads: Vec<KeyRead> = Vec::new();
        let mut i: usize = 0;
        while i < key_ids.len()
            invariant
                ds.wf(),
                i <= key_ids@.len(),
                keys@.len() == i,
                reads@.len() == i,
                forall|j: int|
                    0 <= j < i ==> key_outcome(*ds, key_ids@[j]) == Ok::<(Key, KeyRead), DataError>(
                        (#[trigger] keys@[j], reads@[j]),
                    ),
                forall|j: int| 0 <= j < i ==> read_ok(#[trigger] reads@[j]),
                forall|j: int| 0 <= j < i ==> (#[trigger] key_outcome(*ds, key_ids@[j])) is Ok,
            decreases key_ids@.len() - i,
        {
            let id = key_ids[i];
            let (ki, k) = match (ds.key_index.get(id), ds.key.get(id)) {
                (Some(ki), Some(k)) => (ki, k),
                _ => {
                    assert(key_outcome(*ds, key_ids@[i as int]) == Err::<(Key, KeyRead), DataError>(
                        DataError::UnknownKey { key_id: id },
                    ));
                    return Err(DataError::UnknownKey { key_id: id });
                },
            };
            let has = ds.has_period_data(ki.period_type_id);
            let rd = match plan_key_read(ki, has) {
                Ok(rd) => rd,
                Err(e) => {
                    assert(key_outcome(*ds, key_ids@[i as int]) == Err::<(Key, KeyRead), DataError>(e));
                    return Err(e);
                },
            };
            assert(key_outcome(*ds, key_ids@[i as int]) == Ok::<(Key, KeyRead), DataError>((*k, rd)));
            keys.push(*k);
            reads.push(rd);
            i = i + 1;
        }
        assert forall|j: int| 0 <= j < key_ids@.len() implies (#[trigger] key_outcome(*ds, key_ids@[j])) is Ok by {
            assert(key_outcome(*ds, key_ids@[j]) == Ok::<(Key, KeyRead), DataError>((keys@[j], reads@[j])));
        }
        let mut w = TableWriter { keys, reads, key_pos: 0, value_pos: 0, emitted: Ghost(Seq::empty()) };
        w.skip_empty();
        proof {
            assert forall|j: int| 0 <= j < w.key_pos() implies (#[trigger] w.reads()[j]).length == 0 by {}
            lemma_all_blocks_empty(w.reads(), w.key_pos());
        }
        Ok(w)
    }

    /// Whether every key has been written.
    pub fn is_done(&self) -> (r: bool)
        requires
            self.inv(),
        ensures
            r == self.done(),
    {
        self.key_pos == self.reads.len()
    }

    /// The next chunk to read: at most `CHUNK_VALUES` values of the current
    /// key, from its next value on.
    pub fn next_chunk(&self) -> (c: ChunkRead)
        requires
            self.inv(),
            !self.done(),
        ensures
            c.period_type_id == self.reads()[self.key_pos()].period_type_id,
            c.offset == self.reads()[self.key_pos()].position + 8 * self.value_pos(),
            c.values == if self.reads()[self.key_pos()].length - self.value_pos() < CHUNK_VALUES {
                self.reads()[self.key_pos()].length - self.value_pos()
            } else {
                CHUNK_VALUES as int
            },
            0 < c.values <= CHUNK_VALUES,
    {
        let r = &self.reads[self.key_pos];
        let (offset, values) = chunk_at(r, self.value_pos);
        ChunkRead { period_type_id: r.period_type_id, offset, values }
    }

    /// Takes the bytes of the chunk that `next_chunk` named and returns its
    /// rows; moves on to the next chunk.
    pub fn accept(&mut self, chunk: &Vec<u8>) -> (rows: Vec<DataRow>)
        requires
            old(self).inv(),
            !old(self).done(),
            chunk@.len() == 8 * old(self).next_chunk_values(),
        ensures
            final(self).inv(),
            final(self).keys() == old(self).keys(),
            final(self).reads() == old(self).reads(),
            rows@.len() == old(self).next_chunk_values(),
            forall|j: int|
                0 <= j < rows@.len() ==> #[trigger] rows@[j] == chunk_row(
                    old(self).keys()[old(self).key_pos()],
                    old(self).reads()[old(self).key_pos()],
                    chunk@,
                    old(self).value_pos(),
                    j,
                ),
            final(self).emitted() == old(self).emitted() + rows@.map_values(|r: DataRow| (r.key_id, r.block_id)),
            final(self).key_pos() > old(self).key_pos() || (final(self).key_pos() == old(self).key_pos()
                && final(self).value_pos() > old(self).value_pos()),
    {
        let values = self.next_chunk().values;
        let n = self.reads.len();
        let mut rows: Vec<DataRow> = Vec::new();
        let k = self.key_pos;
        let start = self.value_pos;
        assert(chunk@.len() / 8 == values as int);
        decode_chunk(&self.keys[k], &self.reads[k], start, chunk, &mut rows);
        let ghost r = self.reads@[k as int];
        proof {
            assert forall|j: int| 0 <= j < rows@.len() implies #[trigger] rows@[j] == chunk_row(
                self.keys@[k as int],
                r,
                chunk@,
                start as int,
                j,
            ) by {
                assert(rows@[0 + j] == chunk_row(self.keys@[k as int], r, chunk@, start as int, j));
            }
            let m = rows@.map_values(|x: DataRow| (x.key_id, x.block_id));
            assert forall|j: int| 0 <= j < values implies #[trigger] m[j] == key_blocks(r).subrange(
                start as int,
                start + values,
            )[j] by {
                assert(rows@[0 + j] == chunk_row(self.keys@[k as int], r, chunk@, start as int, j));
            }
            assert(rows@.map_values(|x: DataRow| (x.key_id, x.block_id)) =~= key_blocks(r).subrange(start as int, start + values));
            assert(key_blocks(r).take(start + values) =~= key_blocks(r).take(start as int) + key_blocks(r).subrange(start as int, start + values));
        }
        self.emitted = Ghost(self.emitted@ + rows@.map_values(|x: DataRow| (x.key_id, x.block_id)));
        if start + values == self.reads[k].length {
            proof {
                assert(key_blocks(r).take(start + values) =~= key_blocks(r));
                assert(all_blocks(self.reads@, k + 1) == all_blocks(self.reads@, k as int) + key_blocks(r));
                assert(self.emitted@ =~= all_blocks(self.reads@, k + 1));
            }
            self.key_pos = k + 1;
            self.value_pos = 0;
            self.skip_empty();
        } else {
            self.value_pos = start + values;
            proof {
                assert(self.emitted@ =~= all_blocks(self.reads@, k as int) + key_blocks(r).take(start + values));
            }
        }
        rows
    }

    /// The number of values of the next chunk.
    pub open spec fn next_chunk_values(&self) -> int {
        let r = self.reads()[self.key_pos()];
        if r.length - self.value_pos() < CHUNK_VALUES {
            r.length - self.value_pos()
        } else {
            CHUNK_VALUES as int
        }
    }
}

proof fn lemma_all_blocks_empty(reads: Seq<KeyRead>, n: int)
    requires
        0 <= n <= reads.len(),
        forall|i: int| 0 <= i < n ==> (#[trigger] reads[i]).length == 0,
    ensures
        all_blocks(reads, n) == Seq::<(i64, i64)>::empty(),
    decreases n,
{
    if n > 0 {
        lemma_all_blocks_empty(reads, n - 1);
        assert(key_blocks(reads[n - 1]) =~= Seq::<(i64, i64)>::empty());
        assert(all_blocks(reads, n) =~= Seq::<(i64, i64)>::empty());
    }
}

/// The bytes of the period file of period type `t`: the first of `files`
/// under that type.
pub open spec fn file_bytes(files: Seq<(i64, Vec<u8>)>, t: i64) -> Option<Seq<u8>>
    decreases files.len(),
{
    if files.len() == 0 {
        None
    } else if files[0].0 == t {
        Some(files[0].1@)
    } else {
        file_bytes(files.drop_first(), t)
    }
}

/// The period file of a key read holds all of its values.
pub open spec fn file_covers(files: Seq<(i64, Vec<u8>)>, r: KeyRead) -> bool {
    file_bytes(files, r.period_type_id) matches Some(f) && r.position + 8 * r.length <= f.len()
}

/// The rows of one key: one per value, in order.
pub open spec fn key_rows(key: Key, r: KeyRead, file: Seq<u8>) -> Seq<DataRow> {
    Seq::new(r.length as nat, |i: int| row_of(key, r, file, i))
}

/// The rows of the first `n` of these keys, key after key.
pub open spec fn rows_of_keys(keys: Seq<Key>, reads: Seq<KeyRead>, files: Seq<(i64, Vec<u8>)>, n: int) -> Seq<DataRow>
    decreases n,
{
    if n <= 0 {
        Seq::empty()
    } else {
        rows_of_keys(keys, reads, files, n - 1) + key_rows(
            keys[n - 1],
            reads[n - 1],
            file_bytes(files, reads[n - 1].period_type_id)->Some_0,
        )
    }
}

/// The keys of a table, where each can be read.
pub open spec fn table_keys(ds: SolutionDataset, key_ids: Seq<i64>) -> Seq<Key> {
    Seq::new(key_ids.len(), |j: int| key_outcome(ds, key_ids[j])->Ok_0.0)
}

/// The checked reads of the keys of a table, where each can be read.
pub open spec fn table_reads(ds: SolutionDataset, key_ids: Seq<i64>) -> Seq<KeyRead> {
    Seq::new(key_ids.len(), |j: int| key_outcome(ds, key_ids[j])->Ok_0.1)
}

fn covers(files: &Vec<(i64, Vec<u8>)>, rd: &KeyRead) -> (r: bool)
    ensures
        r == file_covers(files@, *rd),
{
    match find_file(files, rd.period_type_id) {
        Some(f) => {
            let flen = f.len() as u64;
            flen >= rd.position && (flen - rd.position) / 8 >= rd.length
        },
        None => false,
    }
}

fn find_file(files: &Vec<(i64, Vec<u8>)>, t: i64) -> (r: Option<&Vec<u8>>)
    ensures
        match file_bytes(files@, t) {
            Some(f) => r matches Some(v) && v@ == f,
            None => r is None,
        },
{
    let mut i: usize = 0;
    assert(files@.skip(0) =~= files@);
    while i < files.len()
        invariant
            i <= files@.len(),
            file_bytes(files@, t) == file_bytes(files@.skip(i as int), t),
        decreases files@.len() - i,
    {
        assert(files@.skip(i as int)[0] == files@[i as int]);
        if files[i].0 == t {
            return Some(&files[i].1);
        }
        assert(files@.skip(i as int).drop_first() =~= files@.skip(i + 1));
        i = i + 1;
    }
    None
}

fn copy_range(b: &Vec<u8>, from: usize, to: usize) -> (r: Vec<u8>)
    requires
        from <= to <= b@.len(),
    ensures
        r@ == b@.subrange(from as int, to as int),
{
    let mut out: Vec<u8> = Vec::new();
    let mut i: usize = from;
    while i < to
        invariant
            from <= i <= to <= b@.len(),
            out@ == b@.subrange(from as int, i as int),
        decreases to - i,
    {
        out.push(b[i]);
        i = i + 1;
        assert(out@ =~= b@.subrange(from as int, i as int));
    }
    out
}

/// Appends the rows of one key, read from its period file in `files`;
/// `false`, with nothing appended, where that file is absent or too short.
fn append_key_rows(key: &Key, rd: &KeyRead, files: &Vec<(i64, Vec<u8>)>, rows: &mut Vec<DataRow>) -> (ok: bool)
    requires
        read_ok(*rd),
    ensures
        ok == file_covers(files@, *rd),
        ok ==> final(rows)@ == old(rows)@ + key_rows(*key, *rd, file_bytes(files@, rd.period_type_id)->Some_0),
        !ok ==> final(rows)@ == old(rows)@,
{
    let file = match find_file(files, rd.period_type_id) {
        Some(f) => f,
        None => return false,
    };
    let flen = file.len() as u64;
    if flen < rd.position || (flen - rd.position) / 8 < rd.length {
        return false;
    }
    let end = rd.position + 8 * rd.length;
    let chunk = copy_range(file, rd.position as usize, end as usize);
    assert(chunk@.len() == 8 * rd.length);
    assert((8 * rd.length) / 8 == rd.length as int) by (nonlinear_arith);
    assert(chunk@.len() % 8 == 0) by (nonlinear_arith)
        requires
            chunk@.len() == 8 * rd.length,
    ;
    let ghost before = rows@;
    decode_chunk(key, rd, 0, &chunk, rows);
    proof {
        let f = file@;
        assert forall|j: int| 0 <= j < rd.length implies #[trigger] rows@[before.len() + j] == row_of(*key, *rd, f, j) by {
            lemma_chunk_rows_match_file(*key, *rd, 0, chunk@, f, j);
            assert(rows@[before.len() + j] == chunk_row(*key, *rd, chunk@, 0, j));
        }
        assert(rows@.len() == before.len() + rd.length);
        assert forall|x: int| 0 <= x < rows@.len() implies #[trigger] rows@[x] == (before + key_rows(*key, *rd, f))[x] by {
            if x >= before.len() {
                assert(rows@[before.len() + (x - before.len())] == row_of(*key, *rd, f, x - before.len()));
            }
        }
        assert(rows@ =~= before + key_rows(*key, *rd, f));
    }
    true
}

/// The rows of a data table whose period files are held in memory: for each
/// key, in the given order, one row per value, with block
/// `period_offset + 1 + i` and the bits of the `i`-th double of its span.
/// Fails on the first key that cannot be read (`TableWriter::new`), else on
/// the first key whose period file is absent or too short.
#[verifier::rlimit(50)]
pub fn table_rows(ds: &SolutionDataset, key_ids: &Vec<i64>, files: &Vec<(i64, Vec<u8>)>) -> (r: Result<
    Vec<DataRow>,
    DataError,
>)
    requires
        ds.wf(),
    ensures
        r is Ok <==> forall|i: int|
            0 <= i < key_ids@.len() ==> (#[trigger] key_outcome(*ds, key_ids@[i])) is Ok && file_covers(
                files@,
                key_outcome(*ds, key_ids@[i])->Ok_0.1,
            ),
        r matches Err(e) ==> exists|i: int|
            0 <= i < key_ids@.len() && (forall|j: int| 0 <= j < i ==> (#[trigger] key_outcome(*ds, key_ids@[j])) is Ok)
                && (#[trigger] key_outcome(*ds, key_ids@[i]) == Err::<(Key, KeyRead), DataError>(e) || (forall|j: int|
                0 <= j < key_ids@.len() ==> (#[trigger] key_outcome(*ds, key_ids@[j])) is Ok) && (forall|j: int|
                0 <= j < i ==> file_covers(files@, (#[trigger] key_outcome(*ds, key_ids@[j]))->Ok_0.1)) && !file_covers(
                files@,
                key_outcome(*ds, key_ids@[i])->Ok_0.1,
            ) && e == DataError::ShortRead { key_id: key_ids@[i] }),
        r matches Ok(rows) ==> rows@ == rows_of_keys(
            table_keys(*ds, key_ids@),
            table_reads(*ds, key_ids@),
            files@,
            key_ids@.len() as int,
        ),
{
    let w = TableWriter::new(ds, key_ids)?;
    let n = w.reads.len();
    assert(w.keys@ =~= table_keys(*ds, key_ids@)) by {
        assert forall|j: int| 0 <= j < n implies #[trigger] w.keys@[j] == table_keys(*ds, key_ids@)[j] by {
            assert(key_outcome(*ds, key_ids@[j]) == Ok::<(Key, KeyRead), DataError>((w.keys@[j], w.reads@[j])));
        }
    }
    assert(w.reads@ =~= table_reads(*ds, key_ids@)) by {
        assert forall|j: int| 0 <= j < n implies #[trigger] w.reads@[j] == table_reads(*ds, key_ids@)[j] by {
            assert(key_outcome(*ds, key_ids@[j]) == Ok::<(Key, KeyRead), DataError>((w.keys@[j], w.reads@[j])));
        }
    }
    let mut i: usize = 0;
    while i < n
        invariant
            n == key_ids@.len(),
            w.reads@.len() == n,
            w.reads@ == table_reads(*ds, key_ids@),
            forall|j: int| 0 <= j < n ==> (#[trigger] key_outcome(*ds, key_ids@[j])) is Ok,
            i <= n,
            forall|j: int| 0 <= j < i ==> file_covers(files@, #[trigger] w.reads@[j]),
        decreases n - i,
    {
        if !covers(files, &w.reads[i]) {
            proof {
                assert(w.reads@[i as int] == key_outcome(*ds, key_ids@[i as int])->Ok_0.1);
                assert forall|j: int| 0 <= j < i implies file_covers(
                    files@,
                    (#[trigger] key_outcome(*ds, key_ids@[j]))->Ok_0.1,
                ) by {
                    assert(w.reads@[j] == table_reads(*ds, key_ids@)[j]);
                }
            }
            return Err(DataError::ShortRead { key_id: key_ids[i] });
        }
        i = i + 1;
    }
    let mut rows: Vec<DataRow> = Vec::new();
    let mut i: usize = 0;
    while i < n
        invariant
            w.inv(),
            w.reads@.len() == n,
            w.keys@.len() == n,
            i <= n,
            forall|j: int| 0 <= j < n ==> file_covers(files@, #[trigger] w.reads@[j]),
            rows@ == rows_of_keys(w.keys@, w.reads@, files@, i as int),
        decreases n - i,
    {
        let ok = append_key_rows(&w.keys[i], &w.reads[i], files, &mut rows);
        assert(ok);
        i = i + 1;
    }
    assert forall|j: int| 0 <= j < key_ids@.len() implies (#[trigger] key_outcome(*ds, key_ids@[j])) is Ok
        && file_covers(files@, key_outcome(*ds, key_ids@[j])->Ok_0.1) by {
        assert(key_outcome(*ds, key_ids@[j]) == Ok::<(Key, KeyRead), DataError>((w.keys@[j], w.reads@[j])));
        assert(file_covers(files@, w.reads@[j]));
    }
    Ok(rows)
}

/// The block of every value of a checked read fits in an `i64`.
pub proof fn lemma_read_block_fits(r: KeyRead, j: int)
    requires
        0 <= j < r.length,
        block_ids_fit(r.length, r.period_offset),
    ensures
        i64::MIN <= block_id_of(r.period_offset, j) <= i64::MAX,
{
}

} // verus!
