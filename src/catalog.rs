//! Identifiers of tables and columns, and column descriptors.
use vstd::prelude::*;

use crate::types::DataType;

verus! {

pub type SchemaId = u32;

pub type TableId = u32;

pub type ColumnId = u32;

/// Identifies a table: the schema it lives in and its id there.
#[derive(Debug, Clone, Copy, PartialEq, Eq, Structural, Hash)]
pub struct TableRefId {
    pub schema_id: SchemaId,
    pub table_id: TableId,
}

impl TableRefId {
    pub fn new(schema_id: SchemaId, table_id: TableId) -> (r: TableRefId)
        ensures
            r.schema_id == schema_id,
            r.table_id == table_id,
    {
        TableRefId { schema_id, table_id }
    }
}

/// Identifies a column: its table and its id in that table.
#[derive(Debug, Clone, Copy, PartialEq, Eq, Structural, Hash)]
pub struct ColumnRefId {
    pub schema_id: SchemaId,
    pub table_id: TableId,
    pub column_id: ColumnId,
}

impl ColumnRefId {
    pub fn from_table(table: TableRefId, column_id: ColumnId) -> (r: ColumnRefId)
        ensures
            r.schema_id == table.schema_id,
            r.table_id == table.table_id,
            r.column_id == column_id,
    {
        ColumnRefId { schema_id: table.schema_id, table_id: table.table_id, column_id }
    }

    pub fn new(schema_id: SchemaId, table_id: TableId, column_id: ColumnId) -> (r: ColumnRefId)
        ensures
            r.schema_id == schema_id,
            r.table_id == table_id,
            r.column_id == column_id,
    {
        ColumnRefId { schema_id, table_id, column_id }
    }
}

/// Describes one column of a table: its id, name and type.
#[derive(Debug, Clone, PartialEq)]
pub struct ColumnDesc {
    pub id: ColumnId,
    pub name: String,
    pub datatype: DataType,
}

impl ColumnDesc {
    pub fn new(id: ColumnId, name: String, datatype: DataType) -> (r: ColumnDesc)
        ensures
            r.id == id,
            r.name@ == name@,
            r.datatype == datatype,
    {
        ColumnDesc { id, name, datatype }
    }

    /// A copy of this descriptor.
    pub fn duplicate(&self) -> (r: ColumnDesc)
        ensures
            r.id == self.id,
            r.name@ == self.name@,
            r.datatype == self.datatype,
    {
        ColumnDesc { id: self.id, name: self.name.clone(), datatype: self.datatype }
    }
}

/// A failed lookup or insertion in the catalog: the kind of object and its name.
#[derive(Debug, Clone, PartialEq)]
pub enum CatalogError {
    NotFound(String, String),
    Duplicated(String, String),
}

} // verus!
