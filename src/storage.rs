//! Tables, transactions and the table registry.
//!
//! A table owns an append-only list of segments.  A transaction freezes that
//! list when it opens; a write transaction gathers chunks and, at commit,
//! turns them into one new segment under a fresh id.  Writing the segment's
//! bytes is the caller's part: a commit hands out a [`PendingRowset`], and
//! the table lists the segment only once it is published, after the bytes
//! are stored.
use vstd::prelude::*;

use crate::array::{kind_for, kind_of_type, ArrayKind};
use crate::catalog::{ColumnDesc, TableRefId};
use crate::data_chunk::{chunk_wf, concat_view, law_concat_single, rows, rows_prefix, ColumnView, DataChunk};
use crate::encoding::{chunk_bytes, decode_chunk, law_chunk_round_trip, parse_chunk, storable};
use crate::rowset::{shape_kinds, DiskRowset, PendingRowset, RowsetBuilder, RowsetView};

verus! {

/// A storage fault.
#[derive(Debug, Clone, PartialEq)]
pub enum StorageError {
    /// No table has this id.
    NotFound(TableRefId),
    /// A table with this id exists already.
    AlreadyExists(TableRefId),
    /// Chunks cannot be appended in a read-only transaction.
    ReadOnly,
    /// A chunk's columns differ from the table's.
    SchemaMismatch,
    /// A transaction gathered more rows than can be counted.
    CapacityExceeded,
    /// Every segment id of the table has been handed out.
    RowsetIdsExhausted,
    /// A segment is published out of order, or for another table.
    OutOfOrder,
    /// A segment's bytes do not hold a chunk of the table's columns.
    Corrupted,
    /// A fault of the environment, such as a failed read or write.
    Other(String),
}

/// Wraps a fault of the environment, described by `message`.
pub fn err(message: String) -> (r: StorageError)
    ensures
        (r matches StorageError::Other(m) && m@ == message@),
{
    StorageError::Other(message)
}

/// Configuration shared by all tables.
pub struct StorageOptions {
    /// The directory under which every table has its own.
    pub base_path: String,
}

pub open spec fn digit_char(d: nat) -> char {
    if d == 0 {
        '0'
    } else if d == 1 {
        '1'
    } else if d == 2 {
        '2'
    } else if d == 3 {
        '3'
    } else if d == 4 {
        '4'
    } else if d == 5 {
        '5'
    } else if d == 6 {
        '6'
    } else if d == 7 {
        '7'
    } else if d == 8 {
        '8'
    } else {
        '9'
    }
}

/// The decimal digits of `n`, without leading zeros.
pub open spec fn decimal(n: nat) -> Seq<char>
    decreases n,
{
    if n < 10 {
        seq![digit_char(n)]
    } else {
        decimal(n / 10).push(digit_char(n % 10))
    }
}

/// The path of the entry `name` in directory `base`.
pub open spec fn join_path(base: Seq<char>, name: Seq<char>) -> Seq<char> {
    if base.len() == 0 {
        name
    } else if base.last() == '/' {
        base + name
    } else {
        base + seq!['/'] + name
    }
}

/// The directory of table `table_id`.
pub open spec fn table_path_spec(base: Seq<char>, table_id: u32) -> Seq<char> {
    join_path(base, decimal(table_id as nat))
}

/// The path of segment `rowset_id` of table `table_id`.
pub open spec fn rowset_path_spec(base: Seq<char>, table_id: u32, rowset_id: u32) -> Seq<char> {
    join_path(table_path_spec(base, table_id), decimal(rowset_id as nat))
}

fn digit_str(d: u32) -> (r: &'static str)
    requires
        d < 10,
    ensures
        r@ == seq![digit_char(d as nat)],
{
    proof {
        reveal_strlit("0");
        reveal_strlit("1");
        reveal_strlit("2");
        reveal_strlit("3");
        reveal_strlit("4");
        reveal_strlit("5");
        reveal_strlit("6");
        reveal_strlit("7");
        reveal_strlit("8");
        reveal_strlit("9");
    }
    let r = if d == 0 {
        "0"
    } else if d == 1 {
        "1"
    } else if d == 2 {
        "2"
    } else if d == 3 {
        "3"
    } else if d == 4 {
        "4"
    } else if d == 5 {
        "5"
    } else if d == 6 {
        "6"
    } else if d == 7 {
        "7"
    } else if d == 8 {
        "8"
    } else {
        "9"
    };
    assert(r@ =~= seq![digit_char(d as nat)]);
    r
}

fn push_decimal(x: u32, out: &mut String)
    ensures
        final(out)@ == old(out)@ + decimal(x as nat),
    decreases x,
{
    if x >= 10 {
        push_decimal(x / 10, out);
    }
    out.append(digit_str(x % 10));
    assert(final(out)@ =~= old(out)@ + decimal(x as nat));
}

fn join(base: &String, name: &String) -> (r: String)
    ensures
        r@ == join_path(base@, name@),
{
    let n = base.as_str().unicode_len();
    let mut r = base.clone();
    if n > 0 && base.as_str().get_char(n - 1) != '/' {
        proof {
            reveal_strlit("/");
        }
        r.append("/");
    }
    r.append(name.as_str());
    assert(r@ =~= join_path(base@, name@));
    r
}

fn decimal_string(x: u32) -> (r: String)
    ensures
        r@ == decimal(x as nat),
{
    let mut r = String::new();
    push_decimal(x, &mut r);
    assert(r@ =~= decimal(x as nat));
    r
}

/// The kinds of the columns described by `descs`.
pub open spec fn kinds_of(descs: Seq<ColumnDesc>) -> Seq<ArrayKind> {
    descs.map_values(|d: ColumnDesc| kind_of_type(d.datatype.kind))
}

/// Segment ids strictly increase along the list.
pub open spec fn ids_increasing(s: Seq<RowsetView>) -> bool {
    forall|i: int, j: int| 0 <= i < j < s.len() ==> (#[trigger] s[i]).0 < (#[trigger] s[j]).0
}

fn copy_kinds(kinds: &Vec<ArrayKind>) -> (r: Vec<ArrayKind>)
    ensures
        r@ == kinds@,
{
    let mut r: Vec<ArrayKind> = Vec::new();
    let mut i: usize = 0;
    while i < kinds.len()
        invariant
            i <= kinds@.len(),
            r@ == kinds@.subrange(0, i as int),
        decreases kinds@.len() - i,
    {
        r.push(kinds[i]);
        i += 1;
        assert(r@ =~= kinds@.subrange(0, i as int));
    }
    assert(kinds@.subrange(0, kinds@.len() as int) =~= kinds@);
    r
}

fn copy_rowsets(rowsets: &Vec<DiskRowset>) -> (r: Vec<DiskRowset>)
    ensures
        r@.map_values(|s: DiskRowset| s@) == rowsets@.map_values(|s: DiskRowset| s@),
{
    let mut r: Vec<DiskRowset> = Vec::new();
    let mut i: usize = 0;
    while i < rowsets.len()
        invariant
            i <= rowsets@.len(),
            r@.len() == i,
            forall|k: int| 0 <= k < i ==> (#[trigger] r@[k])@ == rowsets@[k]@,
        decreases rowsets@.len() - i,
    {
        r.push(rowsets[i].duplicate());
        i += 1;
    }
    assert(r@.map_values(|s: DiskRowset| s@) =~= rowsets@.map_values(|s: DiskRowset| s@));
    r
}

/// One table: its columns, its segment-id counter and its committed
/// segments, in commit order.
pub struct DiskTable {
    id: TableRefId,
    column_descs: Vec<ColumnDesc>,
    base_path: String,
    next_rowset_id: u32,
    rowsets: Vec<DiskRowset>,
}

impl DiskTable {
    pub closed spec fn table_ref(&self) -> TableRefId {
        self.id
    }

    pub closed spec fn base(&self) -> Seq<char> {
        self.base_path@
    }

    /// The kinds of the table's columns.
    pub closed spec fn kinds(&self) -> Seq<ArrayKind> {
        kinds_of(self.column_descs@)
    }

    /// The id the next commit will take.
    pub closed spec fn next_id(&self) -> u32 {
        self.next_rowset_id
    }

    /// The committed segments, in commit order.
    pub closed spec fn rowsets_view(&self) -> Seq<RowsetView> {
        self.rowsets@.map_values(|s: DiskRowset| s@)
    }

    /// Segment ids increase in commit order and were all handed out by the
    /// counter; every segment lies at its own path.
    pub open spec fn wf(&self) -> bool {
        &&& ids_increasing(self.rowsets_view())
        &&& forall|i: int|
            0 <= i < self.rowsets_view().len() ==> (#[trigger] self.rowsets_view()[i]).0
                < self.next_id() && self.rowsets_view()[i].1 == rowset_path_spec(
                self.base(),
                self.table_ref().table_id,
                self.rowsets_view()[i].0,
            )
    }

    pub fn id(&self) -> (r: TableRefId)
        ensures
            r == self.table_ref(),
    {
        self.id
    }

    pub fn column_descs(&self) -> (r: &[ColumnDesc])
        ensures
            kinds_of(r@) == self.kinds(),
    {
        self.column_descs.as_slice()
    }

    /// The committed segments, in commit order.
    pub fn rowsets(&self) -> (r: &[DiskRowset])
        ensures
            r@.map_values(|s: DiskRowset| s@) == self.rowsets_view(),
    {
        self.rowsets.as_slice()
    }

    /// The directory that holds the table's segments.
    pub fn table_path(&self) -> (r: String)
        ensures
            r@ == table_path_spec(self.base(), self.table_ref().table_id),
    {
        join(&self.base_path, &decimal_string(self.id.table_id))
    }

    /// Where segment `rowset_id` of this table is stored.
    pub fn rowset_path_of(&self, rowset_id: u32) -> (r: String)
        ensures
            r@ == rowset_path_spec(self.base(), self.table_ref().table_id, rowset_id),
    {
        join(&self.table_path(), &decimal_string(rowset_id))
    }

    fn open(&self, read_only: bool) -> (r: DiskTransaction)
        ensures
            r.wf(),
            r.is_read_only() == read_only,
            r.table() == self.table_ref(),
            r.kinds() == self.kinds(),
            r.snapshot() == self.rowsets_view(),
            r.pending() == Seq::<Seq<ColumnView>>::empty(),
    {
        let mut kinds: Vec<ArrayKind> = Vec::new();
        let mut i: usize = 0;
        while i < self.column_descs.len()
            invariant
                i <= self.column_descs@.len(),
                kinds@ == kinds_of(self.column_descs@.subrange(0, i as int)),
            decreases self.column_descs@.len() - i,
        {
            let kind = kind_for(&self.column_descs[i].datatype);
            kinds.push(kind);
            i += 1;
            assert(kinds@ =~= kinds_of(self.column_descs@.subrange(0, i as int)));
        }
        assert(self.column_descs@.subrange(0, self.column_descs@.len() as int)
            =~= self.column_descs@);
        DiskTransaction {
            read_only,
            table: self.id,
            kinds,
            snapshot: copy_rowsets(&self.rowsets),
            builder: None,
        }
    }

    /// Opens a read-only transaction on the segments committed so far.
    pub fn read(&self) -> (r: DiskTransaction)
        ensures
            r.wf(),
            r.is_read_only(),
            r.table() == self.table_ref(),
            r.kinds() == self.kinds(),
            r.snapshot() == self.rowsets_view(),
            r.pending() == Seq::<Seq<ColumnView>>::empty(),
    {
        self.open(true)
    }

    /// Opens a write transaction; it reads the segments committed so far.
    pub fn write(&self) -> (r: DiskTransaction)
        ensures
            r.wf(),
            !r.is_read_only(),
            r.table() == self.table_ref(),
            r.kinds() == self.kinds(),
            r.snapshot() == self.rowsets_view(),
            r.pending() == Seq::<Seq<ColumnView>>::empty(),
    {
        self.open(false)
    }

    /// Lists a segment whose bytes are stored.  Refused unless it belongs to
    /// this table, took its id from this table's counter, and comes after
    /// every segment listed so far.
    pub fn publish(&mut self, pending: PendingRowset) -> (r: Result<(), StorageError>)
        requires
            old(self).wf(),
        ensures
            published(*old(self), *final(self), pending.rowset_view(), r),
    {
        let rowset = pending.into_rowset();
        let id = rowset.rowset_id();
        let n = self.rowsets.len();
        let expected = self.rowset_path_of(id);
        let in_order = id < self.next_rowset_id && (n == 0 || self.rowsets[n - 1].rowset_id() < id);
        let same_path = *rowset.path() == expected;
        if !in_order || !same_path {
            return Err(StorageError::OutOfOrder);
        }
        let ghost before = self.rowsets_view();
        self.rowsets.push(rowset);
        assert(self.rowsets_view() =~= before.push(pending.rowset_view()));
        proof {
            assert forall|i: int, j: int|
                0 <= i < j < self.rowsets_view().len() implies (#[trigger] self.rowsets_view()[i]).0
                < (#[trigger] self.rowsets_view()[j]).0 by {
                if j == n && i < n - 1 {
                    assert(before[i].0 < before[n - 1].0);
                }
            }
        }
        Ok(())
    }
}

/// Whether segment `s` can be listed after those of `t`.
pub open spec fn can_publish(t: DiskTable, s: RowsetView) -> bool {
    &&& s.0 < t.next_id()
    &&& s.1 == rowset_path_spec(t.base(), t.table_ref().table_id, s.0)
    &&& (t.rowsets_view().len() == 0 || t.rowsets_view().last().0 < s.0)
}

/// What publishing segment `s` did to table `t0`, leaving `t1`.
pub open spec fn published(
    t0: DiskTable,
    t1: DiskTable,
    s: RowsetView,
    r: Result<(), StorageError>,
) -> bool {
    &&& t1.wf()
    &&& t1.table_ref() == t0.table_ref()
    &&& t1.base() == t0.base()
    &&& t1.kinds() == t0.kinds()
    &&& t1.next_id() == t0.next_id()
    &&& (r is Ok <==> can_publish(t0, s))
    &&& (r is Ok ==> t1.rowsets_view() == t0.rowsets_view().push(s))
    &&& (r is Err ==> r == Err::<(), StorageError>(StorageError::OutOfOrder) && t1.rowsets_view()
        == t0.rowsets_view())
}

/// What committing a transaction that gathered `pending` did to table `t0`,
/// leaving `t1`.
pub open spec fn committed(
    pending: Seq<Seq<ColumnView>>,
    t0: DiskTable,
    t1: DiskTable,
    r: Result<Option<PendingRowset>, StorageError>,
) -> bool {
    &&& t1.wf()
    &&& t1.table_ref() == t0.table_ref()
    &&& t1.base() == t0.base()
    &&& t1.kinds() == t0.kinds()
    &&& t1.rowsets_view() == t0.rowsets_view()
    &&& (pending.len() == 0 ==> (r matches Ok(None)) && t1.next_id() == t0.next_id())
    &&& (pending.len() > 0 && t0.next_id() == u32::MAX ==> r == Err::<
        Option<PendingRowset>,
        StorageError,
    >(StorageError::RowsetIdsExhausted) && t1.next_id() == t0.next_id())
    &&& (pending.len() > 0 && t0.next_id() < u32::MAX ==> {
        &&& r matches Ok(Some(p))
        &&& t1.next_id() == t0.next_id() + 1
        &&& p.rowset_view() == (
            t0.next_id(),
            rowset_path_spec(t0.base(), t0.table_ref().table_id, t0.next_id()),
        )
        &&& storable(concat_view(pending))
        &&& p.bytes_view() == chunk_bytes(concat_view(pending))
    })
}

/// A read or write session on one table, with the table's segment list as
/// it was when the session opened.
pub struct DiskTransaction {
    read_only: bool,
    table: TableRefId,
    kinds: Vec<ArrayKind>,
    snapshot: Vec<DiskRowset>,
    builder: Option<RowsetBuilder>,
}

impl DiskTransaction {
    pub closed spec fn is_read_only(&self) -> bool {
        self.read_only
    }

    pub closed spec fn table(&self) -> TableRefId {
        self.table
    }

    pub closed spec fn kinds(&self) -> Seq<ArrayKind> {
        self.kinds@
    }

    /// The segments visible to the transaction.
    pub closed spec fn snapshot(&self) -> Seq<RowsetView> {
        self.snapshot@.map_values(|s: DiskRowset| s@)
    }

    /// The chunks appended so far, in order.
    pub closed spec fn pending(&self) -> Seq<Seq<ColumnView>> {
        match self.builder {
            Some(b) => b.chunks_view(),
            None => Seq::empty(),
        }
    }

    pub closed spec fn wf(&self) -> bool {
        match self.builder {
            Some(b) => {
                &&& !self.read_only
                &&& b.wf()
                &&& b.kinds_view() == self.kinds@
                &&& b.chunks_view().len() > 0
            },
            None => true,
        }
    }

    pub fn read_only(&self) -> (r: bool)
        ensures
            r == self.is_read_only(),
    {
        self.read_only
    }

    pub fn table_id(&self) -> (r: TableRefId)
        ensures
            r == self.table(),
    {
        self.table
    }

    /// Appends `chunk` to what the transaction will commit.  Fails in a
    /// read-only transaction, and when the chunk's columns differ from the
    /// table's.
    pub fn append(&mut self, chunk: DataChunk) -> (r: Result<(), StorageError>)
        requires
            old(self).wf(),
            chunk.wf(),
        ensures
            final(self).wf(),
            final(self).is_read_only() == old(self).is_read_only(),
            final(self).table() == old(self).table(),
            final(self).kinds() == old(self).kinds(),
            final(self).snapshot() == old(self).snapshot(),
            old(self).is_read_only() ==> r == Err::<(), StorageError>(StorageError::ReadOnly),
            !old(self).is_read_only() && shape_kinds(chunk@) != old(self).kinds() ==> r == Err::<
                (),
                StorageError,
            >(StorageError::SchemaMismatch),
            !old(self).is_read_only() && shape_kinds(chunk@) == old(self).kinds() ==> (r is Ok
                <==> rows_prefix(old(self).pending(), old(self).pending().len()) + rows(chunk@)
                <= usize::MAX),
            !old(self).is_read_only() && shape_kinds(chunk@) == old(self).kinds() && r is Err
                ==> r == Err::<(), StorageError>(StorageError::CapacityExceeded),
            r is Ok ==> final(self).pending() == old(self).pending().push(chunk@),
            r is Err ==> final(self).pending() == old(self).pending(),
    {
        if self.read_only {
            return Err(StorageError::ReadOnly);
        }
        let mut builder = match self.builder.take() {
            Some(b) => b,
            None => RowsetBuilder::new(copy_kinds(&self.kinds)),
        };
        proof {
            if old(self).builder is None {
                assert(rows_prefix(builder.chunks_view(), 0) == 0);
            }
        }
        let r = builder.append(chunk);
        if builder.chunk_count() > 0 {
            self.builder = Some(builder);
        }
        r
    }

    /// Ends the transaction.  With nothing appended this changes nothing.
    /// Otherwise the appended chunks, stacked into one, are encoded as a new
    /// segment under the next id of `table`'s counter, and handed out to be
    /// stored and then published; the table's segment list is left as it was.
    pub fn commit(self, table: &mut DiskTable) -> (r: Result<Option<PendingRowset>, StorageError>)
        requires
            self.wf(),
            old(table).wf(),
            old(table).table_ref() == self.table(),
        ensures
            committed(self.pending(), *old(table), *final(table), r),
    {
        match self.builder {
            None => Ok(None),
            Some(builder) => {
                if table.next_rowset_id == u32::MAX {
                    return Err(StorageError::RowsetIdsExhausted);
                }
                let rowset_id = table.next_rowset_id;
                table.next_rowset_id = rowset_id + 1;
                let path = table.rowset_path_of(rowset_id);
                let pending = builder.flush(rowset_id, path);
                Ok(Some(pending))
            },
        }
    }

    /// Where the bytes of each visible segment are stored, in commit order.
    pub fn rowset_paths(&self) -> (r: Vec<String>)
        ensures
            r@.len() == self.snapshot().len(),
            forall|i: int| 0 <= i < r@.len() ==> (#[trigger] r@[i])@ == self.snapshot()[i].1,
    {
        let mut r: Vec<String> = Vec::new();
        let mut i: usize = 0;
        while i < self.snapshot.len()
            invariant
                i <= self.snapshot@.len(),
                r@.len() == i,
                forall|k: int| 0 <= k < i ==> (#[trigger] r@[k])@ == self.snapshot()[k].1,
            decreases self.snapshot@.len() - i,
        {
            r.push(self.snapshot[i].path().clone());
            i += 1;
        }
        r
    }

    /// The chunks of the visible segments, in commit order, from the bytes
    /// stored for each (`contents[i]` for segment `i`).  Fails when some bytes
    /// do not hold a chunk of the table's columns.
    pub fn all_chunks(&self, contents: &Vec<Vec<u8>>) -> (r: Result<Vec<DataChunk>, StorageError>)
        requires
            contents@.len() == self.snapshot().len(),
        ensures
            r is Ok <==> (forall|i: int|
                0 <= i < contents@.len() ==> readable(#[trigger] contents@[i]@, self.kinds())),
            r is Err ==> r == Err::<Vec<DataChunk>, StorageError>(StorageError::Corrupted),
            r matches Ok(cs) ==> cs@.len() == contents@.len() && (forall|i: int|
                0 <= i < cs@.len() ==> (#[trigger] cs@[i]).wf() && Some(cs@[i]@) == parse_chunk(
                    contents@[i]@,
                )),
    {
        let mut chunks: Vec<DataChunk> = Vec::new();
        let mut i: usize = 0;
        while i < contents.len()
            invariant
                i <= contents@.len(),
                chunks@.len() == i,
                forall|k: int| 0 <= k < i ==> readable(#[trigger] contents@[k]@, self.kinds()),
                forall|k: int|
                    0 <= k < i ==> (#[trigger] chunks@[k]).wf() && Some(chunks@[k]@) == parse_chunk(
                        contents@[k]@,
                    ),
            decreases contents@.len() - i,
        {
            match decode_chunk(contents[i].as_slice()) {
                Some(chunk) => {
                    if !RowsetBuilder::matches_kinds(&self.kinds, &chunk) {
                        return Err(StorageError::Corrupted);
                    }
                    chunks.push(chunk);
                },
                None => {
                    return Err(StorageError::Corrupted);
                },
            }
            i += 1;
        }
        Ok(chunks)
    }
}

/// The bytes hold a chunk whose columns have the kinds `kinds`.
pub open spec fn readable(bytes: Seq<u8>, kinds: Seq<ArrayKind>) -> bool {
    &&& parse_chunk(bytes) is Some
    &&& shape_kinds(parse_chunk(bytes).unwrap()) == kinds
}

fn copy_descs(descs: &[ColumnDesc]) -> (r: Vec<ColumnDesc>)
    ensures
        kinds_of(r@) == kinds_of(descs@),
{
    let mut r: Vec<ColumnDesc> = Vec::new();
    let mut i: usize = 0;
    while i < descs.len()
        invariant
            i <= descs@.len(),
            r@.len() == i,
            forall|k: int| 0 <= k < i ==> (#[trigger] r@[k]).datatype == descs@[k].datatype,
        decreases descs@.len() - i,
    {
        r.push(descs[i].duplicate());
        i += 1;
    }
    assert(kinds_of(r@) =~= kinds_of(descs@));
    r
}

/// The registry of tables, keyed by table id, with the configuration they
/// share.
pub struct DiskStorage {
    tables: Vec<DiskTable>,
    options: StorageOptions,
}

impl DiskStorage {
    /// The tables, in the order they were added.
    pub closed spec fn tables_view(&self) -> Seq<DiskTable> {
        self.tables@
    }

    pub closed spec fn base(&self) -> Seq<char> {
        self.options.base_path@
    }

    pub open spec fn has_table(&self, id: TableRefId) -> bool {
        exists|i: int| 0 <= i < self.tables_view().len() && (#[trigger] self.tables_view()[i]).table_ref() == id
    }

    /// The position of table `id`, when it is present.
    pub open spec fn index_of(&self, id: TableRefId) -> int {
        choose|i: int| 0 <= i < self.tables_view().len() && (#[trigger] self.tables_view()[i]).table_ref() == id
    }

    /// Table ids are unique; every table is well formed and lies under the
    /// shared base path.
    pub open spec fn wf(&self) -> bool {
        &&& forall|i: int|
            0 <= i < self.tables_view().len() ==> (#[trigger] self.tables_view()[i]).wf()
                && self.tables_view()[i].base() == self.base()
        &&& forall|i: int, j: int|
            0 <= i < self.tables_view().len() && 0 <= j < self.tables_view().len() && i != j
                ==> (#[trigger] self.tables_view()[i]).table_ref() != (#[trigger] self.tables_view()[j]).table_ref()
    }

    pub fn new(options: StorageOptions) -> (r: DiskStorage)
        ensures
            r.wf(),
            r.base() == options.base_path@,
            r.tables_view() == Seq::<DiskTable>::empty(),
    {
        let r = DiskStorage { tables: Vec::new(), options };
        assert(r.tables_view() =~= Seq::<DiskTable>::empty());
        r
    }

    pub fn base_path(&self) -> (r: &String)
        ensures
            r@ == self.base(),
    {
        &self.options.base_path
    }

    fn find(&self, id: TableRefId) -> (r: Option<usize>)
        requires
            self.wf(),
        ensures
            r is None <==> !self.has_table(id),
            r matches Some(i) ==> i == self.index_of(id) && i < self.tables_view().len(),
    {
        let mut i: usize = 0;
        while i < self.tables.len()
            invariant
                self.wf(),
                i <= self.tables@.len(),
                forall|k: int| 0 <= k < i ==> (#[trigger] self.tables_view()[k]).table_ref() != id,
            decreases self.tables@.len() - i,
        {
            if self.tables[i].id() == id {
                proof {
                    assert(self.tables_view()[i as int].table_ref() == id);
                    let j = self.index_of(id);
                    assert(0 <= j < self.tables_view().len() && self.tables_view()[j].table_ref() == id);
                    lemma_unique_ids(*self, j, i as int);
                }
                return Some(i);
            }
            i += 1;
        }
        None
    }

    /// Adds table `id` with the columns `column_descs`, no segments and a
    /// fresh segment-id counter.  Fails when the id is taken, leaving every
    /// table as it was.
    pub fn add_table(&mut self, id: TableRefId, column_descs: &[ColumnDesc]) -> (r: Result<
        (),
        StorageError,
    >)
        requires
            old(self).wf(),
        ensures
            final(self).wf(),
            final(self).base() == old(self).base(),
            old(self).has_table(id) ==> r == Err::<(), StorageError>(StorageError::AlreadyExists(id))
                && final(self).tables_view() == old(self).tables_view(),
            !old(self).has_table(id) ==> r is Ok && added(old(self).tables_view(), final(self).tables_view(), id, kinds_of(column_descs@), old(self).base()),
    {
        if self.find(id).is_some() {
            return Err(StorageError::AlreadyExists(id));
        }
        let table = DiskTable {
            id,
            column_descs: copy_descs(column_descs),
            base_path: self.options.base_path.clone(),
            next_rowset_id: 0,
            rowsets: Vec::new(),
        };
        assert(table.rowsets_view() =~= Seq::<RowsetView>::empty());
        let ghost before = self.tables_view();
        assert(forall|k: int| 0 <= k < before.len() ==> (#[trigger] before[k]).table_ref() != id);
        self.tables.push(table);
        assert(self.tables_view().subrange(0, before.len() as int) =~= before);
        proof {
            assert forall|i: int, j: int|
                0 <= i < self.tables_view().len() && 0 <= j < self.tables_view().len() && i != j
                    implies (#[trigger] self.tables_view()[i]).table_ref() != (#[trigger] self.tables_view()[j]).table_ref() by {
                if i < before.len() && j < before.len() {
                    assert(self.tables_view()[i] == before[i]);
                    assert(self.tables_view()[j] == before[j]);
                } else if i < before.len() {
                    assert(self.tables_view()[i] == before[i]);
                    assert(before[i].table_ref() != id);
                } else {
                    assert(self.tables_view()[j] == before[j]);
                    assert(before[j].table_ref() != id);
                }
            }
        }
        Ok(())
    }

    /// The table `id`.
    pub fn get_table(&self, id: TableRefId) -> (r: Result<&DiskTable, StorageError>)
        requires
            self.wf(),
        ensures
            r is Ok <==> self.has_table(id),
            r matches Ok(t) ==> *t == self.tables_view()[self.index_of(id)] && t.table_ref() == id,
            r is Err ==> r == Err::<&DiskTable, StorageError>(StorageError::NotFound(id)),
    {
        match self.find(id) {
            Some(i) => Ok(&self.tables[i]),
            None => Err(StorageError::NotFound(id)),
        }
    }

    /// Commits `txn` on its table.  Fails when the table is gone.
    pub fn commit(&mut self, txn: DiskTransaction) -> (r: Result<Option<PendingRowset>, StorageError>)
        requires
            old(self).wf(),
            txn.wf(),
        ensures
            final(self).wf(),
            final(self).base() == old(self).base(),
            !old(self).has_table(txn.table()) ==> r == Err::<Option<PendingRowset>, StorageError>(
                StorageError::NotFound(txn.table()),
            ) && final(self).tables_view() == old(self).tables_view(),
            old(self).has_table(txn.table()) ==> updated(
                old(self).tables_view(),
                final(self).tables_view(),
                old(self).index_of(txn.table()),
            ) && committed(
                txn.pending(),
                old(self).tables_view()[old(self).index_of(txn.table())],
                final(self).tables_view()[old(self).index_of(txn.table())],
                r,
            ),
    {
        let table = txn.table_id();
        match self.find(table) {
            None => Err(StorageError::NotFound(table)),
            Some(i) => {
                let ghost before = self.tables@;
                let r = txn.commit(&mut self.tables[i]);
                proof {
                    self.lemma_replace_keeps_wf(before, i as int);
                }
                r
            },
        }
    }

    /// Lists `pending` among the segments of table `table`.  Fails when the
    /// table is gone or the segment is out of order.
    pub fn publish(&mut self, table: TableRefId, pending: PendingRowset) -> (r: Result<(), StorageError>)
        requires
            old(self).wf(),
        ensures
            final(self).wf(),
            final(self).base() == old(self).base(),
            !old(self).has_table(table) ==> r == Err::<(), StorageError>(StorageError::NotFound(table))
                && final(self).tables_view() == old(self).tables_view(),
            old(self).has_table(table) ==> updated(
                old(self).tables_view(),
                final(self).tables_view(),
                old(self).index_of(table),
            ) && published(
                old(self).tables_view()[old(self).index_of(table)],
                final(self).tables_view()[old(self).index_of(table)],
                pending.rowset_view(),
                r,
            ),
    {
        match self.find(table) {
            None => Err(StorageError::NotFound(table)),
            Some(i) => {
                let ghost before = self.tables@;
                let r = self.tables[i].publish(pending);
                proof {
                    self.lemma_replace_keeps_wf(before, i as int);
                }
                r
            },
        }
    }

    /// Replacing one table by a well-formed one with the same id and base
    /// keeps the registry well formed.
    proof fn lemma_replace_keeps_wf(&self, before: Seq<DiskTable>, i: int)
        requires
            0 <= i < before.len(),
            self.tables_view() == before.update(i, self.tables_view()[i]),
            self.tables_view()[i].wf(),
            self.tables_view()[i].table_ref() == before[i].table_ref(),
            self.tables_view()[i].base() == before[i].base(),
            forall|k: int| 0 <= k < before.len() ==> (#[trigger] before[k]).wf() && before[k].base() == self.base(),
            forall|a: int, b: int|
                0 <= a < before.len() && 0 <= b < before.len() && a != b
                    ==> (#[trigger] before[a]).table_ref() != (#[trigger] before[b]).table_ref(),
        ensures
            self.wf(),
    {
        assert forall|a: int, b: int|
            0 <= a < self.tables_view().len() && 0 <= b < self.tables_view().len() && a != b
                implies (#[trigger] self.tables_view()[a]).table_ref() != (#[trigger] self.tables_view()[b]).table_ref() by {
            assert(before[a].table_ref() != before[b].table_ref());
        }
    }
}

/// In a well-formed registry, a table id determines the table's position.
proof fn lemma_unique_ids(s: DiskStorage, a: int, b: int)
    requires
        s.wf(),
        0 <= a < s.tables_view().len(),
        0 <= b < s.tables_view().len(),
        s.tables_view()[a].table_ref() == s.tables_view()[b].table_ref(),
    ensures
        a == b,
{
}

/// `t1` is `t0` with one more table, `id`, at the end: columns of kinds
/// `kinds`, no segments, a counter at zero.
pub open spec fn added(t0: Seq<DiskTable>, t1: Seq<DiskTable>, id: TableRefId, kinds: Seq<ArrayKind>, base: Seq<char>) -> bool {
    &&& t1.len() == t0.len() + 1
    &&& t1.subrange(0, t0.len() as int) == t0
    &&& t1.last().table_ref() == id
    &&& t1.last().kinds() == kinds
    &&& t1.last().base() == base
    &&& t1.last().next_id() == 0
    &&& t1.last().rowsets_view() == Seq::<RowsetView>::empty()
}

/// `t1` is `t0` with only the table at `i` changed, and that one kept its id.
pub open spec fn updated(t0: Seq<DiskTable>, t1: Seq<DiskTable>, i: int) -> bool {
    &&& 0 <= i < t0.len()
    &&& t1.len() == t0.len()
    &&& forall|k: int| 0 <= k < t0.len() && k != i ==> #[trigger] t1[k] == t0[k]
    &&& t1[i].table_ref() == t0[i].table_ref()
}

/// Segment ids strictly increase in commit order: the id a commit takes is
/// above every id listed before it, and below the counter that the next
/// commit starts from.
pub proof fn law_rowset_ids_increase(
    pending: Seq<Seq<ColumnView>>,
    t0: DiskTable,
    t1: DiskTable,
    r: Result<Option<PendingRowset>, StorageError>,
)
    requires
        t0.wf(),
        committed(pending, t0, t1, r),
    ensures
        ids_increasing(t0.rowsets_view()),
        ids_increasing(t1.rowsets_view()),
        r matches Ok(Some(p)) ==> (forall|i: int|
            0 <= i < t0.rowsets_view().len() ==> (#[trigger] t0.rowsets_view()[i]).0
                < p.rowset_view().0) && p.rowset_view().0 < t1.next_id(),
{
}

/// A transaction's snapshot, taken from a table's segment list, does not
/// hold a segment published on that table afterwards.
pub proof fn law_snapshot_isolation(
    snapshot: Seq<RowsetView>,
    t0: DiskTable,
    t1: DiskTable,
    s: RowsetView,
    r: Result<(), StorageError>,
)
    requires
        t0.wf(),
        snapshot == t0.rowsets_view(),
        published(t0, t1, s, r),
        r is Ok,
    ensures
        !snapshot.contains(s),
        t1.rowsets_view() == snapshot.push(s),
{
    if snapshot.contains(s) {
        let i = choose|i: int| 0 <= i < snapshot.len() && snapshot[i] == s;
        assert(snapshot[i].0 <= snapshot.last().0);
    }
}

/// Committing a transaction on which nothing was appended adds no segment
/// and hands out none.
pub proof fn law_empty_commit(t0: DiskTable, t1: DiskTable, r: Result<Option<PendingRowset>, StorageError>)
    requires
        committed(Seq::<Seq<ColumnView>>::empty(), t0, t1, r),
    ensures
        r matches Ok(None),
        t1.rowsets_view() == t0.rowsets_view(),
        t1.next_id() == t0.next_id(),
{
}

/// A chunk appended alone in a write transaction comes back, value by value
/// and null by null, from the bytes its commit hands out to be stored.
pub proof fn law_round_trip_through_disk(
    v: Seq<ColumnView>,
    t0: DiskTable,
    t1: DiskTable,
    r: Result<Option<PendingRowset>, StorageError>,
)
    requires
        chunk_wf(v),
        t0.next_id() < u32::MAX,
        committed(seq![v], t0, t1, r),
    ensures
        r matches Ok(Some(p)) && parse_chunk(p.bytes_view()) == Some(v),
{
    law_concat_single(v);
    law_chunk_round_trip(v);
}

} // verus!
