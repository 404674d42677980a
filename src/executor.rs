//! The part of query execution that rests on the storage core alone.
use vstd::prelude::*;

use crate::array::ArrayKind;
use crate::data_chunk::DataChunk;
use crate::storage::StorageError;
use crate::types::Datum;

verus! {

/// A failure while executing a plan.
#[derive(Debug, Clone, PartialEq)]
pub enum ExecuteError {
    /// A storage fault, passed on unchanged.
    Storage(StorageError),
}

/// The executor of a query that reads no table: it yields one row holding
/// the single value 0.
pub struct DummyExecutor;

impl DummyExecutor {
    pub fn execute(self) -> (r: Result<DataChunk, ExecuteError>)
        ensures
            r matches Ok(c) && c.wf() && c@ == seq![(ArrayKind::Int32, seq![Datum::Int32(0)])],
    {
        Ok(DataChunk::single(0))
    }
}

} // verus!
