//! Segments ("rowsets"): the immutable, once-written units of a table's
//! data, and the builder that gathers a transaction's chunks into one.
use vstd::prelude::*;

use crate::array::ArrayKind;
use crate::data_chunk::{
    chunk_views, chunk_wf, concat_view, rows, rows_prefix, uniform, ColumnView, DataChunk,
};
use crate::encoding::{chunk_bytes, encode_chunk, storable};
use crate::storage::StorageError;

verus! {

/// The kinds of a chunk's columns, in order.
pub open spec fn shape_kinds(v: Seq<ColumnView>) -> Seq<ArrayKind> {
    v.map_values(|c: ColumnView| c.0)
}

/// A handle on a stored segment: its id and where its bytes lie.
#[derive(Debug)]
pub struct DiskRowset {
    rowset_id: u32,
    path: String,
}

/// The content of a segment handle.
pub type RowsetView = (u32, Seq<char>);

impl View for DiskRowset {
    type V = RowsetView;

    closed spec fn view(&self) -> RowsetView {
        (self.rowset_id, self.path@)
    }
}

impl DiskRowset {
    pub fn rowset_id(&self) -> (r: u32)
        ensures
            r == self@.0,
    {
        self.rowset_id
    }

    pub fn path(&self) -> (r: &String)
        ensures
            r@ == self@.1,
    {
        &self.path
    }

    /// Another handle on the same segment.
    pub fn duplicate(&self) -> (r: DiskRowset)
        ensures
            r@ == self@,
    {
        DiskRowset { rowset_id: self.rowset_id, path: self.path.clone() }
    }
}

/// A segment that a commit has encoded but not yet published: its handle,
/// and the bytes to be written at the handle's path before publishing.
pub struct PendingRowset {
    rowset: DiskRowset,
    bytes: Vec<u8>,
}

impl PendingRowset {
    pub closed spec fn rowset_view(&self) -> RowsetView {
        self.rowset@
    }

    pub closed spec fn bytes_view(&self) -> Seq<u8> {
        self.bytes@
    }

    pub fn rowset(&self) -> (r: &DiskRowset)
        ensures
            r@ == self.rowset_view(),
    {
        &self.rowset
    }

    pub fn bytes(&self) -> (r: &[u8])
        ensures
            r@ == self.bytes_view(),
    {
        self.bytes.as_slice()
    }

    pub fn into_rowset(self) -> (r: DiskRowset)
        ensures
            r@ == self.rowset_view(),
    {
        self.rowset
    }
}

/// Gathers the chunks appended in one write transaction.  Every chunk has
/// the table's column kinds; `flush` stacks them into one chunk and encodes
/// it.
pub struct RowsetBuilder {
    kinds: Vec<ArrayKind>,
    chunks: Vec<DataChunk>,
    total_rows: usize,
}

impl RowsetBuilder {
    pub closed spec fn kinds_view(&self) -> Seq<ArrayKind> {
        self.kinds@
    }

    /// The chunks appended so far, in order.
    pub closed spec fn chunks_view(&self) -> Seq<Seq<ColumnView>> {
        chunk_views(self.chunks@)
    }

    pub closed spec fn wf(&self) -> bool {
        &&& forall|k: int| 0 <= k < self.chunks@.len() ==> (#[trigger] self.chunks@[k]).wf()
        &&& forall|k: int|
            0 <= k < self.chunks@.len() ==> shape_kinds(#[trigger] self.chunks@[k]@)
                == self.kinds@
        &&& self.total_rows == rows_prefix(chunk_views(self.chunks@), self.chunks@.len())
    }

    pub fn new(kinds: Vec<ArrayKind>) -> (r: RowsetBuilder)
        ensures
            r.wf(),
            r.kinds_view() == kinds@,
            r.chunks_view() == Seq::<Seq<ColumnView>>::empty(),
    {
        let r = RowsetBuilder { kinds, chunks: Vec::new(), total_rows: 0 };
        assert(r.chunks_view() =~= Seq::<Seq<ColumnView>>::empty());
        r
    }

    /// The number of chunks appended so far.
    pub fn chunk_count(&self) -> (r: usize)
        ensures
            r == self.chunks_view().len(),
    {
        self.chunks.len()
    }

    /// Whether `chunk` has exactly the columns kinds `kinds`, in order.
    pub(crate) fn matches_kinds(kinds: &Vec<ArrayKind>, chunk: &DataChunk) -> (r: bool)
        ensures
            r == (shape_kinds(chunk@) == kinds@),
    {
        let arrays = chunk.arrays();
        if arrays.len() != kinds.len() {
            assert(shape_kinds(chunk@).len() != kinds@.len());
            return false;
        }
        let mut j: usize = 0;
        while j < kinds.len()
            invariant
                arrays@.len() == kinds@.len(),
                arrays@.map_values(|a: crate::array::ArrayImpl| crate::data_chunk::column_view(a))
                    == chunk@,
                j <= kinds@.len(),
                forall|i: int| 0 <= i < j ==> #[trigger] shape_kinds(chunk@)[i] == kinds@[i],
            decreases kinds@.len() - j,
        {
            if arrays[j].kind() != kinds[j] {
                assert(shape_kinds(chunk@)[j as int] != kinds@[j as int]);
                return false;
            }
            j += 1;
        }
        assert(shape_kinds(chunk@) =~= kinds@);
        true
    }

    /// Adds `chunk`.  Fails when its columns differ from the table's, or when
    /// the rows gathered would no longer be countable.
    pub fn append(&mut self, chunk: DataChunk) -> (r: Result<(), StorageError>)
        requires
            old(self).wf(),
            chunk.wf(),
        ensures
            final(self).wf(),
            final(self).kinds_view() == old(self).kinds_view(),
            shape_kinds(chunk@) != old(self).kinds_view() ==> r == Err::<(), StorageError>(
                StorageError::SchemaMismatch,
            ),
            shape_kinds(chunk@) == old(self).kinds_view() ==> (r is Ok <==> rows_prefix(
                old(self).chunks_view(),
                old(self).chunks_view().len(),
            ) + rows(chunk@) <= usize::MAX),
            r is Err && shape_kinds(chunk@) == old(self).kinds_view() ==> r == Err::<
                (),
                StorageError,
            >(StorageError::CapacityExceeded),
            r is Ok ==> final(self).chunks_view() == old(self).chunks_view().push(chunk@),
            r is Err ==> final(self).chunks_view() == old(self).chunks_view(),
    {
        if !Self::matches_kinds(&self.kinds, &chunk) {
            return Err(StorageError::SchemaMismatch);
        }
        let n = chunk.cardinality();
        if n > usize::MAX - self.total_rows {
            return Err(StorageError::CapacityExceeded);
        }
        let ghost prev = self.chunks@;
        self.total_rows = self.total_rows + n;
        self.chunks.push(chunk);
        assert(chunk_views(self.chunks@) =~= chunk_views(prev).push(chunk@));
        assert(chunk_views(self.chunks@).drop_last() =~= chunk_views(prev));
        proof {
            assert(rows_prefix(chunk_views(self.chunks@), prev.len()) == rows_prefix(
                chunk_views(prev),
                prev.len(),
            )) by {
                lemma_rows_prefix_extend(chunk_views(prev), chunk@, prev.len());
            }
        }
        Ok(())
    }

    /// Stacks the gathered chunks into one and encodes it, to be stored as
    /// segment `rowset_id` at `path`.
    pub fn flush(self, rowset_id: u32, path: String) -> (r: PendingRowset)
        requires
            self.wf(),
            self.chunks_view().len() > 0,
        ensures
            r.rowset_view() == (rowset_id, path@),
            storable(concat_view(self.chunks_view())),
            r.bytes_view() == chunk_bytes(concat_view(self.chunks_view())),
    {
        let ghost vs = chunk_views(self.chunks@);
        proof {
            assert forall|k: int| 0 <= k < vs.len() implies chunk_wf(#[trigger] vs[k]) && crate::data_chunk::same_shape(vs[0], vs[k]) by {
                assert(self.chunks@[k].wf());
                assert(shape_kinds(self.chunks@[k]@) == self.kinds@);
                assert(shape_kinds(self.chunks@[0]@) == self.kinds@);
                assert forall|j: int| 0 <= j < vs[0].len() implies #[trigger] vs[0][j].0 == vs[k][j].0 by {
                    assert(shape_kinds(vs[0])[j] == shape_kinds(vs[k])[j]);
                }
            }
            assert(uniform(vs));
        }
        let chunk = DataChunk::concat(self.chunks.as_slice()).unwrap();
        proof {
            chunk.lemma_typed();
        }
        let bytes = encode_chunk(&chunk);
        PendingRowset { rowset: DiskRowset { rowset_id, path }, bytes }
    }
}

proof fn lemma_rows_prefix_extend(vs: Seq<Seq<ColumnView>>, v: Seq<ColumnView>, k: nat)
    requires
        k <= vs.len(),
    ensures
        rows_prefix(vs.push(v), k) == rows_prefix(vs, k),
    decreases k,
{
    if k > 0 {
        lemma_rows_prefix_extend(vs, v, (k - 1) as nat);
        assert(vs.push(v)[k - 1] == vs[k - 1]);
    }
}

} // verus!
