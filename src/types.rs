//! Scalar values and their types.
use vstd::prelude::*;

verus! {

/// The primitive kind of a column.
#[derive(Debug, Clone, Copy, PartialEq, Eq, Structural, Hash)]
pub enum DataTypeKind {
    Boolean,
    Int,
    Float,
    Double,
    Char,
    Varchar,
    String,
}

/// A column type: a primitive kind and whether nulls are allowed.
#[derive(Debug, Clone, Copy, PartialEq, Eq, Structural, Hash)]
pub struct DataType {
    pub kind: DataTypeKind,
    pub nullable: bool,
}

impl DataType {
    pub fn new(kind: DataTypeKind, nullable: bool) -> (r: DataType)
        ensures
            r.kind == kind,
            r.nullable == nullable,
    {
        DataType { kind, nullable }
    }

    pub fn is_nullable(&self) -> (r: bool)
        ensures
            r == self.nullable,
    {
        self.nullable
    }

    pub fn kind(&self) -> (r: DataTypeKind)
        ensures
            r == self.kind,
    {
        self.kind
    }
}

/// Shorthands that attach a nullability to a kind.
pub trait DataTypeExt: Sized {
    spec fn as_kind(self) -> DataTypeKind;

    fn nullable(self) -> (r: DataType)
        ensures
            r.kind == self.as_kind(),
            r.nullable,
    ;

    fn not_null(self) -> (r: DataType)
        ensures
            r.kind == self.as_kind(),
            !r.nullable,
    ;
}

impl DataTypeExt for DataTypeKind {
    open spec fn as_kind(self) -> DataTypeKind {
        self
    }

    fn nullable(self) -> (r: DataType) {
        DataType::new(self, true)
    }

    fn not_null(self) -> (r: DataType) {
        DataType::new(self, false)
    }
}

/// A scalar value.  Variants are listed in the order in which values of
/// different variants compare: `Null` sorts below every concrete value.
///
/// A 64-bit float is held as its IEEE-754 binary64 bit pattern.
#[derive(Debug, Clone, PartialEq)]
pub enum DataValue {
    Null,
    Bool(bool),
    Int32(i32),
    Float64(u64),
    String(String),
}

/// The mathematical content of a scalar value.
pub enum Datum {
    Null,
    Bool(bool),
    Int32(i32),
    Float64(u64),
    Text(Seq<char>),
}

impl View for DataValue {
    type V = Datum;

    open spec fn view(&self) -> Datum {
        match self {
            DataValue::Null => Datum::Null,
            DataValue::Bool(b) => Datum::Bool(*b),
            DataValue::Int32(v) => Datum::Int32(*v),
            DataValue::Float64(v) => Datum::Float64(*v),
            DataValue::String(s) => Datum::Text(s@),
        }
    }
}

/// Position of a value's variant in the cross-variant order.
pub open spec fn datum_rank(d: Datum) -> nat {
    match d {
        Datum::Null => 0,
        Datum::Bool(_) => 1,
        Datum::Int32(_) => 2,
        Datum::Float64(_) => 3,
        Datum::Text(_) => 4,
    }
}

/// The non-nullable type of a concrete value; `Null` has none.
pub open spec fn datum_type(d: Datum) -> Option<DataType> {
    match d {
        Datum::Null => None,
        Datum::Bool(_) => Some(DataType { kind: DataTypeKind::Boolean, nullable: false }),
        Datum::Int32(_) => Some(DataType { kind: DataTypeKind::Int, nullable: false }),
        Datum::Float64(_) => Some(DataType { kind: DataTypeKind::Double, nullable: false }),
        Datum::Text(_) => Some(DataType { kind: DataTypeKind::Varchar, nullable: false }),
    }
}

impl DataValue {
    pub fn datatype(&self) -> (r: Option<DataType>)
        ensures
            r == datum_type(self@),
    {
        match self {
            DataValue::Bool(_) => Some(DataTypeKind::Boolean.not_null()),
            DataValue::Int32(_) => Some(DataTypeKind::Int.not_null()),
            DataValue::Float64(_) => Some(DataTypeKind::Double.not_null()),
            DataValue::String(_) => Some(DataTypeKind::Varchar.not_null()),
            DataValue::Null => None,
        }
    }

    /// Position of this value's variant in the cross-variant order
    /// (`Null < Bool < Int32 < Float64 < String`).
    pub fn rank(&self) -> (r: u8)
        ensures
            r as nat == datum_rank(self@),
    {
        match self {
            DataValue::Null => 0,
            DataValue::Bool(_) => 1,
            DataValue::Int32(_) => 2,
            DataValue::Float64(_) => 3,
            DataValue::String(_) => 4,
        }
    }

    pub fn is_null(&self) -> (r: bool)
        ensures
            r == (self@ == Datum::Null),
    {
        match self {
            DataValue::Null => true,
            _ => false,
        }
    }
}

} // verus!
