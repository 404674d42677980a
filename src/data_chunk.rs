//! Data chunks: batches of equal-length arrays.
use std::sync::Arc;

use vstd::prelude::*;

use crate::array::{Array, ArrayBuilderImpl, ArrayImpl, ArrayKind, I32Array};
use crate::encoding::column_typed;
use crate::types::Datum;

verus! {

/// The content of one column: its kind and its values.
pub type ColumnView = (ArrayKind, Seq<Datum>);

pub open spec fn column_view(a: ArrayImpl) -> ColumnView {
    (a.kind_spec(), a.datums())
}

/// A well-formed chunk has at least one column, and all its columns have
/// the same number of values.
pub open spec fn chunk_wf(v: Seq<ColumnView>) -> bool {
    &&& v.len() > 0
    &&& forall|i: int| 0 <= i < v.len() ==> #[trigger] v[i].1.len() == v[0].1.len()
}

/// The number of rows of a well-formed chunk.
pub open spec fn rows(v: Seq<ColumnView>) -> nat {
    v[0].1.len()
}

/// Two chunks have the same shape when they have the same number of
/// columns, of the same kinds, in the same order.
pub open spec fn same_shape(a: Seq<ColumnView>, b: Seq<ColumnView>) -> bool {
    &&& a.len() == b.len()
    &&& forall|j: int| 0 <= j < a.len() ==> #[trigger] a[j].0 == b[j].0
}

/// The values of column `j` of the first `k` chunks, one chunk after another.
pub open spec fn column_prefix(vs: Seq<Seq<ColumnView>>, j: int, k: nat) -> Seq<Datum>
    decreases k,
{
    if k == 0 {
        Seq::empty()
    } else {
        column_prefix(vs, j, (k - 1) as nat) + vs[k - 1][j].1
    }
}

/// The number of rows of the first `k` chunks together.
pub open spec fn rows_prefix(vs: Seq<Seq<ColumnView>>, k: nat) -> nat
    decreases k,
{
    if k == 0 {
        0
    } else {
        rows_prefix(vs, (k - 1) as nat) + rows(vs[k - 1])
    }
}

/// The chunk that stacks the rows of `vs` in order, shaped like `vs[0]`.
pub open spec fn concat_view(vs: Seq<Seq<ColumnView>>) -> Seq<ColumnView> {
    Seq::new(vs[0].len(), |j: int| (vs[0][j].0, column_prefix(vs, j, vs.len())))
}

/// Why a chunk could not be formed.
#[derive(Debug, Clone, Copy, PartialEq, Eq, Structural)]
pub enum ChunkError {
    /// A chunk needs at least one array.
    NoArrays,
    /// The arrays of a chunk must all have the same length.
    LengthMismatch,
    /// Concatenation needs at least one chunk.
    NoChunks,
    /// The chunks being concatenated differ in their columns' number or kinds.
    ShapeMismatch,
    /// The chunks being concatenated hold more rows than can be counted.
    TooManyRows,
}

/// A batch of arrays of equal length: the record batch.  The arrays are
/// shared, so that a clone of a chunk does not copy its data.
#[derive(Debug, Clone, PartialEq)]
pub struct DataChunk {
    arrays: Arc<Vec<ArrayImpl>>,
}

impl View for DataChunk {
    type V = Seq<ColumnView>;

    closed spec fn view(&self) -> Seq<ColumnView> {
        self.arrays@.map_values(|a: ArrayImpl| column_view(a))
    }
}

impl DataChunk {
    pub open spec fn wf(&self) -> bool {
        chunk_wf(self@)
    }

    /// The chunk made of `arrays`, in order.  Fails when there are none or
    /// when their lengths differ.
    pub fn from_arrays(arrays: Vec<ArrayImpl>) -> (r: Result<DataChunk, ChunkError>)
        ensures
            arrays@.len() == 0 ==> r == Err::<DataChunk, ChunkError>(ChunkError::NoArrays),
            arrays@.len() > 0 ==> (r is Ok <==> chunk_wf(arrays@.map_values(|a: ArrayImpl| column_view(a)))),
            arrays@.len() > 0 && r is Err ==> r == Err::<DataChunk, ChunkError>(ChunkError::LengthMismatch),
            r matches Ok(c) ==> c@ == arrays@.map_values(|a: ArrayImpl| column_view(a)) && c.wf(),
    {
        let ghost v = arrays@.map_values(|a: ArrayImpl| column_view(a));
        if arrays.len() == 0 {
            return Err(ChunkError::NoArrays);
        }
        let cardinality = arrays[0].len();
        let mut i: usize = 1;
        while i < arrays.len()
            invariant
                0 < i <= arrays@.len(),
                v == arrays@.map_values(|a: ArrayImpl| column_view(a)),
                cardinality == v[0].1.len(),
                forall|k: int| 0 <= k < i ==> #[trigger] v[k].1.len() == v[0].1.len(),
            decreases arrays@.len() - i,
        {
            if arrays[i].len() != cardinality {
                assert(v[i as int].1.len() != v[0].1.len());
                return Err(ChunkError::LengthMismatch);
            }
            i += 1;
        }
        Ok(DataChunk { arrays: Arc::new(arrays) })
    }

    /// A chunk of one Int32 column holding the single value `item`.
    pub fn single(item: i32) -> (r: DataChunk)
        ensures
            r.wf(),
            r@ == seq![(ArrayKind::Int32, seq![Datum::Int32(item)])],
    {
        let slots = vec![Some(item)];
        let ints = I32Array::from_options(slots);
        assert(ints.slots() =~= seq![Some(item)]);
        let array = ArrayImpl::Int32(ints);
        assert(array.datums() =~= seq![Datum::Int32(item)]);
        let mut arrays: Vec<ArrayImpl> = Vec::new();
        arrays.push(array);
        let r = DataChunk { arrays: Arc::new(arrays) };
        assert(r@ =~= seq![(ArrayKind::Int32, seq![Datum::Int32(item)])]);
        r
    }

    /// Every column holds values of its own kind, or nulls.
    pub proof fn lemma_typed(&self)
        ensures
            forall|j: int| 0 <= j < self@.len() ==> column_typed(#[trigger] self@[j]),
    {
        assert forall|j: int| 0 <= j < self@.len() implies column_typed(#[trigger] self@[j]) by {
            self.arrays@[j].lemma_typed();
        }
    }

    /// The number of rows.
    pub fn cardinality(&self) -> (r: usize)
        requires
            self.wf(),
        ensures
            r == rows(self@),
    {
        self.arrays[0].len()
    }

    /// The columns, in order.
    pub fn arrays(&self) -> (r: &[ArrayImpl])
        ensures
            r@.map_values(|a: ArrayImpl| column_view(a)) == self@,
    {
        self.arrays.as_slice()
    }
}

/// The views of a sequence of chunks.
pub open spec fn chunk_views(chunks: Seq<DataChunk>) -> Seq<Seq<ColumnView>> {
    chunks.map_values(|c: DataChunk| c@)
}

/// Every chunk is well formed and shaped like the first.
pub open spec fn uniform(vs: Seq<Seq<ColumnView>>) -> bool {
    forall|k: int| 0 <= k < vs.len() ==> chunk_wf(#[trigger] vs[k]) && same_shape(vs[0], vs[k])
}

/// In uniform chunks, column `j` of the first `k` chunks holds as many values
/// as those chunks have rows.
proof fn lemma_column_prefix_len(vs: Seq<Seq<ColumnView>>, j: int, k: nat)
    requires
        uniform(vs),
        0 <= j < vs[0].len(),
        k <= vs.len(),
    ensures
        column_prefix(vs, j, k).len() == rows_prefix(vs, k),
    decreases k,
{
    if k > 0 {
        lemma_column_prefix_len(vs, j, (k - 1) as nat);
        assert(chunk_wf(vs[k - 1]));
        assert(same_shape(vs[0], vs[k - 1]));
        assert(vs[k - 1][j].1.len() == vs[k - 1][0].1.len());
    }
}

/// Taking more chunks never gives fewer rows.
proof fn lemma_rows_prefix_monotonic(vs: Seq<Seq<ColumnView>>, k1: nat, k2: nat)
    requires
        k1 <= k2,
    ensures
        rows_prefix(vs, k1) <= rows_prefix(vs, k2),
    decreases k2,
{
    if k1 < k2 {
        lemma_rows_prefix_monotonic(vs, k1, (k2 - 1) as nat);
    }
}

impl DataChunk {
    /// Stacks the rows of `chunks`, in order, into one chunk shaped like the
    /// first.  Fails when `chunks` is empty or when a chunk differs from the
    /// first in the number or kinds of its columns.
    pub fn concat(chunks: &[DataChunk]) -> (r: Result<DataChunk, ChunkError>)
        requires
            forall|k: int| 0 <= k < chunks@.len() ==> (#[trigger] chunks@[k]).wf(),
        ensures
            chunks@.len() == 0 ==> r == Err::<DataChunk, ChunkError>(ChunkError::NoChunks),
            chunks@.len() > 0 ==> (r is Ok <==> uniform(chunk_views(chunks@)) && rows_prefix(
                chunk_views(chunks@),
                chunks@.len(),
            ) <= usize::MAX),
            chunks@.len() > 0 && !uniform(chunk_views(chunks@)) ==> r == Err::<DataChunk, ChunkError>(
                ChunkError::ShapeMismatch,
            ),
            chunks@.len() > 0 && uniform(chunk_views(chunks@)) && r is Err ==> r == Err::<
                DataChunk,
                ChunkError,
            >(ChunkError::TooManyRows),
            r matches Ok(c) ==> c.wf() && c@ == concat_view(chunk_views(chunks@)),
    {
        let ghost vs = chunk_views(chunks@);
        let n = chunks.len();
        if n == 0 {
            return Err(ChunkError::NoChunks);
        }
        let first = chunks[0].arrays();
        let ncols = first.len();
        let mut k: usize = 0;
        while k < n
            invariant
                n == chunks@.len(),
                vs == chunk_views(chunks@),
                first@.map_values(|a: ArrayImpl| column_view(a)) == vs[0],
                ncols == first@.len(),
                k <= n,
                forall|i: int| 0 <= i < n ==> (#[trigger] chunks@[i]).wf(),
                forall|i: int| 0 <= i < k ==> chunk_wf(#[trigger] vs[i]) && same_shape(vs[0], vs[i]),
            decreases n - k,
        {
            let arrays = chunks[k].arrays();
            assert(vs[k as int] == chunks@[k as int]@);
            if arrays.len() != ncols {
                return Err(ChunkError::ShapeMismatch);
            }
            let mut j: usize = 0;
            while j < ncols
                invariant
                    n == chunks@.len(),
                    k < n,
                    vs == chunk_views(chunks@),
                    ncols == first@.len(),
                    ncols == arrays@.len(),
                    first@.map_values(|a: ArrayImpl| column_view(a)) == vs[0],
                    arrays@.map_values(|a: ArrayImpl| column_view(a)) == vs[k as int],
                    j <= ncols,
                    forall|i: int| 0 <= i < j ==> #[trigger] vs[0][i].0 == vs[k as int][i].0,
                decreases ncols - j,
            {
                if arrays[j].kind() != first[j].kind() {
                    assert(vs[0][j as int].0 != vs[k as int][j as int].0);
                    return Err(ChunkError::ShapeMismatch);
                }
                j += 1;
            }
            k += 1;
        }
        assert(uniform(vs));
        let mut total: usize = 0;
        let mut k: usize = 0;
        while k < n
            invariant
                n == chunks@.len(),
                vs == chunk_views(chunks@),
                uniform(vs),
                k <= n,
                total == rows_prefix(vs, k as nat),
                forall|i: int| 0 <= i < n ==> (#[trigger] chunks@[i]).wf(),
            decreases n - k,
        {
            assert(vs[k as int] == chunks@[k as int]@);
            let rows_k = chunks[k].cardinality();
            if rows_k > usize::MAX - total {
                proof {
                    lemma_rows_prefix_monotonic(vs, (k + 1) as nat, n as nat);
                }
                return Err(ChunkError::TooManyRows);
            }
            total = total + rows_k;
            k += 1;
        }
        let mut result: Vec<ArrayImpl> = Vec::new();
        let mut j: usize = 0;
        while j < ncols
            invariant
                n == chunks@.len(),
                n > 0,
                vs == chunk_views(chunks@),
                uniform(vs),
                rows_prefix(vs, n as nat) <= usize::MAX,
                first@.map_values(|a: ArrayImpl| column_view(a)) == vs[0],
                ncols == first@.len(),
                j <= ncols,
                result@.len() == j,
                forall|i: int| 0 <= i < j ==> column_view(#[trigger] result@[i]) == (
                    vs[0][i].0,
                    column_prefix(vs, i, n as nat),
                ),
            decreases ncols - j,
        {
            let mut builder = ArrayBuilderImpl::from_type_of_array(&first[j]);
            let mut k: usize = 0;
            while k < n
                invariant
                    n == chunks@.len(),
                    vs == chunk_views(chunks@),
                    uniform(vs),
                    rows_prefix(vs, n as nat) <= usize::MAX,
                    j < ncols,
                    ncols == vs[0].len(),
                    k <= n,
                    builder.kind_spec() == vs[0][j as int].0,
                    builder.datums() == column_prefix(vs, j as int, k as nat),
                decreases n - k,
            {
                let arrays = chunks[k].arrays();
                assert(vs[k as int] == chunks@[k as int]@);
                assert(chunk_wf(vs[k as int]) && same_shape(vs[0], vs[k as int]));
                assert(column_view(arrays@[j as int]) == vs[k as int][j as int]);
                proof {
                    lemma_column_prefix_len(vs, j as int, k as nat);
                    lemma_column_prefix_len(vs, j as int, (k + 1) as nat);
                    lemma_rows_prefix_monotonic(vs, (k + 1) as nat, n as nat);
                }
                let res = builder.append(&arrays[j]);
                assert(res is Ok);
                k += 1;
            }
            result.push(builder.finish());
            j += 1;
        }
        let r = DataChunk { arrays: Arc::new(result) };
        assert(r@ =~= concat_view(vs));
        proof {
            assert forall|i: int| 0 <= i < r@.len() implies #[trigger] r@[i].1.len() == r@[0].1.len() by {
                lemma_column_prefix_len(vs, i, n as nat);
                lemma_column_prefix_len(vs, 0, n as nat);
            }
        }
        Ok(r)
    }
}

/// Every array of a well-formed chunk has as many values as the chunk has
/// rows.
pub proof fn law_length_invariant(c: DataChunk)
    requires
        c.wf(),
    ensures
        forall|i: int| 0 <= i < c@.len() ==> (#[trigger] c@[i]).1.len() == rows(c@),
{
}

/// Concatenating a single well-formed chunk gives that chunk back, value by
/// value.
pub proof fn law_concat_single(v: Seq<ColumnView>)
    requires
        chunk_wf(v),
    ensures
        concat_view(seq![v]) == v,
{
    let vs = seq![v];
    assert forall|j: int| 0 <= j < v.len() implies column_prefix(vs, j, 1) == v[j].1 by {
        assert(column_prefix(vs, j, 0) == Seq::<Datum>::empty());
        assert(Seq::<Datum>::empty() + v[j].1 =~= v[j].1);
    }
    assert(concat_view(vs) =~= v);
}

} // verus!
