//! Arrays and array builders.
//!
//! An array is an immutable, fixed-length column of nullable slots of one
//! primitive kind.  A builder is its growable counterpart: values and nulls
//! are pushed onto it, whole arrays of its kind appended, and `finish` turns
//! it into an array.
use vstd::prelude::*;

use crate::types::{DataType, DataTypeKind, DataValue, Datum};

verus! {

/// The view of an optional borrowed item.
pub open spec fn opt_view<T: View>(o: Option<&T>) -> Option<T::V> {
    match o {
        Some(x) => Some(x@),
        None => None,
    }
}

/// The view of an optional owned item.
pub open spec fn slot_view<T: View>(o: Option<T>) -> Option<T::V> {
    match o {
        Some(x) => Some(x@),
        None => None,
    }
}

/// An immutable column of nullable items.
pub trait Array: Sized {
    type Item: View;

    /// The slots of the array, `None` where the slot is null.
    spec fn slots(&self) -> Seq<Option<<Self::Item as View>::V>>;

    fn get(&self, idx: usize) -> (r: Option<&Self::Item>)
        requires
            idx < self.slots().len(),
        ensures
            opt_view(r) == self.slots()[idx as int],
    ;

    fn len(&self) -> (r: usize)
        ensures
            r == self.slots().len(),
    ;

    fn is_empty(&self) -> (r: bool)
        ensures
            r == (self.slots().len() == 0),
    {
        self.len() == 0
    }
}

/// The growable counterpart of an [`Array`].
pub trait ArrayBuilder: Sized {
    type Array: Array;

    /// The slots pushed or appended so far.
    spec fn slots(&self) -> Seq<Option<<<Self::Array as Array>::Item as View>::V>>;

    fn with_capacity(capacity: usize) -> (r: Self)
        ensures
            r.slots() == Seq::<Option<<<Self::Array as Array>::Item as View>::V>>::empty(),
    ;

    fn push(&mut self, value: Option<&<Self::Array as Array>::Item>)
        requires
            old(self).slots().len() < usize::MAX,
        ensures
            final(self).slots() == old(self).slots().push(opt_view(value)),
    ;

    fn append(&mut self, other: &Self::Array)
        requires
            old(self).slots().len() + other.slots().len() <= usize::MAX,
        ensures
            final(self).slots() == old(self).slots() + other.slots(),
    ;

    fn finish(self) -> (r: Self::Array)
        ensures
            r.slots() == self.slots(),
    ;

    fn len(&self) -> (r: usize)
        ensures
            r == self.slots().len(),
    ;
}

/// An array of fixed-size plain items.
#[derive(Debug, Clone, PartialEq)]
pub struct PrimitiveArray<T> {
    data: Vec<Option<T>>,
}

/// The builder of a [`PrimitiveArray`].
pub struct PrimitiveArrayBuilder<T> {
    data: Vec<Option<T>>,
}

impl<T: Copy + View> PrimitiveArray<T> {
    /// The array whose slots are the given ones, in order.
    pub fn from_options(data: Vec<Option<T>>) -> (r: Self)
        ensures
            r.slots() == data@.map_values(|o: Option<T>| slot_view(o)),
    {
        PrimitiveArray { data }
    }
}

impl<T: Copy + View> Array for PrimitiveArray<T> {
    type Item = T;

    closed spec fn slots(&self) -> Seq<Option<T::V>> {
        self.data@.map_values(|o: Option<T>| slot_view(o))
    }

    fn get(&self, idx: usize) -> (r: Option<&T>) {
        self.data[idx].as_ref()
    }

    fn len(&self) -> (r: usize) {
        self.data.len()
    }
}

impl<T: Copy + View> ArrayBuilder for PrimitiveArrayBuilder<T> {
    type Array = PrimitiveArray<T>;

    closed spec fn slots(&self) -> Seq<Option<T::V>> {
        self.data@.map_values(|o: Option<T>| slot_view(o))
    }

    fn with_capacity(capacity: usize) -> (r: Self) {
        let r = PrimitiveArrayBuilder { data: Vec::with_capacity(capacity) };
        assert(r.slots() =~= Seq::<Option<T::V>>::empty());
        r
    }

    fn push(&mut self, value: Option<&T>) {
        let slot = match value {
            Some(v) => Some(*v),
            None => None,
        };
        self.data.push(slot);
        assert(self.slots() =~= old(self).slots().push(opt_view(value)));
    }

    fn append(&mut self, other: &PrimitiveArray<T>) {
        let n = other.data.len();
        let mut i: usize = 0;
        while i < n
            invariant
                n == other.data@.len(),
                i <= n,
                old(self).slots().len() + other.slots().len() <= usize::MAX,
                self.slots() =~= old(self).slots() + other.slots().subrange(0, i as int),
            decreases n - i,
        {
            let slot = other.data[i];
            let ghost prev = self.data@;
            self.data.push(slot);
            assert(self.data@ =~= prev.push(other.data@[i as int]));
            assert(self.slots() =~= prev.map_values(|o: Option<T>| slot_view(o)).push(
                other.slots()[i as int],
            ));
            i += 1;
            assert(self.slots() =~= old(self).slots() + other.slots().subrange(0, i as int));
        }
        assert(other.slots().subrange(0, n as int) =~= other.slots());
    }

    fn finish(self) -> (r: PrimitiveArray<T>) {
        PrimitiveArray { data: self.data }
    }

    fn len(&self) -> (r: usize) {
        self.data.len()
    }
}

/// An array of text items.
#[derive(Debug, Clone, PartialEq)]
pub struct Utf8Array {
    data: Vec<Option<String>>,
}

/// The builder of a [`Utf8Array`].
pub struct Utf8ArrayBuilder {
    data: Vec<Option<String>>,
}

impl Utf8Array {
    /// The array whose slots are the given ones, in order.
    pub fn from_options(data: Vec<Option<String>>) -> (r: Self)
        ensures
            r.slots() == data@.map_values(|o: Option<String>| slot_view(o)),
    {
        Utf8Array { data }
    }
}

impl Array for Utf8Array {
    type Item = String;

    closed spec fn slots(&self) -> Seq<Option<Seq<char>>> {
        self.data@.map_values(|o: Option<String>| slot_view(o))
    }

    fn get(&self, idx: usize) -> (r: Option<&String>) {
        self.data[idx].as_ref()
    }

    fn len(&self) -> (r: usize) {
        self.data.len()
    }
}

impl ArrayBuilder for Utf8ArrayBuilder {
    type Array = Utf8Array;

    closed spec fn slots(&self) -> Seq<Option<Seq<char>>> {
        self.data@.map_values(|o: Option<String>| slot_view(o))
    }

    fn with_capacity(capacity: usize) -> (r: Self) {
        let r = Utf8ArrayBuilder { data: Vec::with_capacity(capacity) };
        assert(r.slots() =~= Seq::<Option<Seq<char>>>::empty());
        r
    }

    fn push(&mut self, value: Option<&String>) {
        let slot = match value {
            Some(v) => Some(v.clone()),
            None => None,
        };
        self.data.push(slot);
        assert(self.slots() =~= old(self).slots().push(opt_view(value)));
    }

    fn append(&mut self, other: &Utf8Array) {
        let n = other.data.len();
        let mut i: usize = 0;
        while i < n
            invariant
                n == other.data@.len(),
                i <= n,
                old(self).slots().len() + other.slots().len() <= usize::MAX,
                self.slots() =~= old(self).slots() + other.slots().subrange(0, i as int),
            decreases n - i,
        {
            let slot = match &other.data[i] {
                Some(s) => Some(s.clone()),
                None => None,
            };
            let ghost prev = self.data@;
            self.data.push(slot);
            assert(self.slots() =~= prev.map_values(|o: Option<String>| slot_view(o)).push(
                other.slots()[i as int],
            ));
            i += 1;
            assert(self.slots() =~= old(self).slots() + other.slots().subrange(0, i as int));
        }
        assert(other.slots().subrange(0, n as int) =~= other.slots());
    }

    fn finish(self) -> (r: Utf8Array) {
        Utf8Array { data: self.data }
    }

    fn len(&self) -> (r: usize) {
        self.data.len()
    }
}

pub type BoolArray = PrimitiveArray<bool>;

pub type I32Array = PrimitiveArray<i32>;

/// Floats are held as their IEEE-754 binary64 bit patterns.
pub type F64Array = PrimitiveArray<u64>;

pub type BoolArrayBuilder = PrimitiveArrayBuilder<bool>;

pub type I32ArrayBuilder = PrimitiveArrayBuilder<i32>;

pub type F64ArrayBuilder = PrimitiveArrayBuilder<u64>;


/// The four primitive representations an array can have.
#[derive(Debug, Clone, Copy, PartialEq, Eq, Structural, Hash)]
pub enum ArrayKind {
    Bool,
    Int32,
    Float64,
    Utf8,
}

/// The representation that stores a column of the given kind.
pub open spec fn kind_of_type(k: DataTypeKind) -> ArrayKind {
    match k {
        DataTypeKind::Boolean => ArrayKind::Bool,
        DataTypeKind::Int => ArrayKind::Int32,
        DataTypeKind::Float => ArrayKind::Float64,
        DataTypeKind::Double => ArrayKind::Float64,
        DataTypeKind::Char => ArrayKind::Utf8,
        DataTypeKind::Varchar => ArrayKind::Utf8,
        DataTypeKind::String => ArrayKind::Utf8,
    }
}

/// The representation that stores a column of type `ty`.
pub fn kind_for(ty: &DataType) -> (r: ArrayKind)
    ensures
        r == kind_of_type(ty.kind),
{
    match ty.kind {
        DataTypeKind::Boolean => ArrayKind::Bool,
        DataTypeKind::Int => ArrayKind::Int32,
        DataTypeKind::Float | DataTypeKind::Double => ArrayKind::Float64,
        DataTypeKind::Char | DataTypeKind::Varchar | DataTypeKind::String => ArrayKind::Utf8,
    }
}

/// Whether a value can be stored in an array of the given kind: nulls go
/// anywhere, a concrete value only into the array of its own kind.
pub open spec fn accepts(kind: ArrayKind, d: Datum) -> bool {
    match d {
        Datum::Null => true,
        Datum::Bool(_) => kind == ArrayKind::Bool,
        Datum::Int32(_) => kind == ArrayKind::Int32,
        Datum::Float64(_) => kind == ArrayKind::Float64,
        Datum::Text(_) => kind == ArrayKind::Utf8,
    }
}

pub open spec fn bool_datum(o: Option<bool>) -> Datum {
    match o {
        Some(v) => Datum::Bool(v),
        None => Datum::Null,
    }
}

pub open spec fn int_datum(o: Option<i32>) -> Datum {
    match o {
        Some(v) => Datum::Int32(v),
        None => Datum::Null,
    }
}

pub open spec fn float_datum(o: Option<u64>) -> Datum {
    match o {
        Some(v) => Datum::Float64(v),
        None => Datum::Null,
    }
}

pub open spec fn text_datum(o: Option<Seq<char>>) -> Datum {
    match o {
        Some(v) => Datum::Text(v),
        None => Datum::Null,
    }
}

/// What a push does to the values of a builder of kind `kind`: an accepted
/// value is added at the end, any other leaves them as they were.
pub open spec fn push_effect(kind: ArrayKind, values: Seq<Datum>, v: Datum) -> Seq<Datum> {
    if accepts(kind, v) {
        values.push(v)
    } else {
        values
    }
}

/// What appending an array of kind `other_kind` holding `other` does to the
/// values of a builder of kind `kind`.
pub open spec fn append_effect(
    kind: ArrayKind,
    values: Seq<Datum>,
    other_kind: ArrayKind,
    other: Seq<Datum>,
) -> Seq<Datum> {
    if kind == other_kind {
        values + other
    } else {
        values
    }
}

/// The values of a builder of kind `kind`, first empty, after `pushed` were
/// pushed onto it in order.
pub open spec fn after_pushes(kind: ArrayKind, pushed: Seq<Datum>) -> Seq<Datum>
    decreases pushed.len(),
{
    if pushed.len() == 0 {
        Seq::empty()
    } else {
        push_effect(kind, after_pushes(kind, pushed.drop_last()), pushed.last())
    }
}

/// Values and nulls of one kind pushed in order onto an empty builder are,
/// once it is finished, read back in the same order, nulls where nulls were
/// pushed.
pub proof fn law_push_round_trip(kind: ArrayKind, pushed: Seq<Datum>)
    requires
        forall|i: int| 0 <= i < pushed.len() ==> accepts(kind, #[trigger] pushed[i]),
    ensures
        after_pushes(kind, pushed) == pushed,
    decreases pushed.len(),
{
    if pushed.len() > 0 {
        let init = pushed.drop_last();
        assert forall|i: int| 0 <= i < init.len() implies accepts(kind, #[trigger] init[i]) by {
            assert(init[i] == pushed[i]);
        }
        law_push_round_trip(kind, init);
        assert(accepts(kind, pushed[pushed.len() - 1]));
        assert(init.push(pushed.last()) =~= pushed);
    }
}

/// A value of another kind than the builder's is refused and leaves its
/// values untouched.
pub proof fn law_mismatched_push_keeps_values(kind: ArrayKind, values: Seq<Datum>, v: Datum)
    requires
        !accepts(kind, v),
    ensures
        push_effect(kind, values, v) == values,
{
}

/// Appending `b` then `c` onto a builder holding `a` gives `a ++ b ++ c`,
/// whichever way the three are grouped.
pub proof fn law_append_associative(kind: ArrayKind, a: Seq<Datum>, b: Seq<Datum>, c: Seq<Datum>)
    ensures
        append_effect(kind, append_effect(kind, a, kind, b), kind, c) == (a + b) + c,
        (a + b) + c == a + (b + c),
        append_effect(kind, a, kind, append_effect(kind, b, kind, c)) == a + (b + c),
{
    assert((a + b) + c =~= a + (b + c));
}

/// The error of a push or an append that mixes array kinds.
#[derive(Debug, Clone, Copy, PartialEq, Eq, Structural)]
pub struct TypeMismatch;

/// An array of any of the four kinds.
#[derive(Debug, Clone, PartialEq)]
pub enum ArrayImpl {
    Bool(BoolArray),
    Int32(I32Array),
    Float64(F64Array),
    Utf8(Utf8Array),
}

/// A builder of any of the four kinds.
pub enum ArrayBuilderImpl {
    Bool(BoolArrayBuilder),
    Int32(I32ArrayBuilder),
    Float64(F64ArrayBuilder),
    Utf8(Utf8ArrayBuilder),
}

impl ArrayImpl {
    pub open spec fn kind_spec(&self) -> ArrayKind {
        match self {
            ArrayImpl::Bool(_) => ArrayKind::Bool,
            ArrayImpl::Int32(_) => ArrayKind::Int32,
            ArrayImpl::Float64(_) => ArrayKind::Float64,
            ArrayImpl::Utf8(_) => ArrayKind::Utf8,
        }
    }

    /// The values of the array's slots, `Datum::Null` where a slot is null.
    pub open spec fn datums(&self) -> Seq<Datum> {
        match self {
            ArrayImpl::Bool(a) => a.slots().map_values(|o: Option<bool>| bool_datum(o)),
            ArrayImpl::Int32(a) => a.slots().map_values(|o: Option<i32>| int_datum(o)),
            ArrayImpl::Float64(a) => a.slots().map_values(|o: Option<u64>| float_datum(o)),
            ArrayImpl::Utf8(a) => a.slots().map_values(|o: Option<Seq<char>>| text_datum(o)),
        }
    }

    /// Every value of an array is of the array's kind, or null.
    pub proof fn lemma_typed(&self)
        ensures
            forall|i: int|
                0 <= i < self.datums().len() ==> accepts(self.kind_spec(), #[trigger] self.datums()[i]),
    {
    }

    pub fn kind(&self) -> (r: ArrayKind)
        ensures
            r == self.kind_spec(),
    {
        match self {
            ArrayImpl::Bool(_) => ArrayKind::Bool,
            ArrayImpl::Int32(_) => ArrayKind::Int32,
            ArrayImpl::Float64(_) => ArrayKind::Float64,
            ArrayImpl::Utf8(_) => ArrayKind::Utf8,
        }
    }

    /// The value in slot `idx`.
    pub fn get(&self, idx: usize) -> (r: DataValue)
        requires
            idx < self.datums().len(),
        ensures
            r@ == self.datums()[idx as int],
    {
        match self {
            ArrayImpl::Bool(a) => match a.get(idx) {
                Some(v) => DataValue::Bool(*v),
                None => DataValue::Null,
            },
            ArrayImpl::Int32(a) => match a.get(idx) {
                Some(v) => DataValue::Int32(*v),
                None => DataValue::Null,
            },
            ArrayImpl::Float64(a) => match a.get(idx) {
                Some(v) => DataValue::Float64(*v),
                None => DataValue::Null,
            },
            ArrayImpl::Utf8(a) => match a.get(idx) {
                Some(v) => DataValue::String(v.clone()),
                None => DataValue::Null,
            },
        }
    }

    pub fn len(&self) -> (r: usize)
        ensures
            r == self.datums().len(),
    {
        match self {
            ArrayImpl::Bool(a) => a.len(),
            ArrayImpl::Int32(a) => a.len(),
            ArrayImpl::Float64(a) => a.len(),
            ArrayImpl::Utf8(a) => a.len(),
        }
    }

    pub fn is_empty(&self) -> (r: bool)
        ensures
            r == (self.datums().len() == 0),
    {
        self.len() == 0
    }
}

impl ArrayBuilderImpl {
    pub open spec fn kind_spec(&self) -> ArrayKind {
        match self {
            ArrayBuilderImpl::Bool(_) => ArrayKind::Bool,
            ArrayBuilderImpl::Int32(_) => ArrayKind::Int32,
            ArrayBuilderImpl::Float64(_) => ArrayKind::Float64,
            ArrayBuilderImpl::Utf8(_) => ArrayKind::Utf8,
        }
    }

    /// The values pushed or appended so far.
    pub open spec fn datums(&self) -> Seq<Datum> {
        match self {
            ArrayBuilderImpl::Bool(b) => b.slots().map_values(|o: Option<bool>| bool_datum(o)),
            ArrayBuilderImpl::Int32(b) => b.slots().map_values(|o: Option<i32>| int_datum(o)),
            ArrayBuilderImpl::Float64(b) => b.slots().map_values(
                |o: Option<u64>| float_datum(o),
            ),
            ArrayBuilderImpl::Utf8(b) => b.slots().map_values(
                |o: Option<Seq<char>>| text_datum(o),
            ),
        }
    }

    /// An empty builder for columns of type `ty`.
    pub fn with_capacity(capacity: usize, ty: &DataType) -> (r: ArrayBuilderImpl)
        ensures
            r.kind_spec() == kind_of_type(ty.kind),
            r.datums() == Seq::<Datum>::empty(),
    {
        let r = match ty.kind() {
            DataTypeKind::Boolean => ArrayBuilderImpl::Bool(BoolArrayBuilder::with_capacity(capacity)),
            DataTypeKind::Int => ArrayBuilderImpl::Int32(I32ArrayBuilder::with_capacity(capacity)),
            DataTypeKind::Float | DataTypeKind::Double => ArrayBuilderImpl::Float64(
                F64ArrayBuilder::with_capacity(capacity),
            ),
            DataTypeKind::Char | DataTypeKind::Varchar | DataTypeKind::String => {
                ArrayBuilderImpl::Utf8(Utf8ArrayBuilder::with_capacity(capacity))
            },
        };
        assert(r.datums() =~= Seq::<Datum>::empty());
        r
    }

    /// An empty builder of the same kind as `array`.
    pub fn from_type_of_array(array: &ArrayImpl) -> (r: ArrayBuilderImpl)
        ensures
            r.kind_spec() == array.kind_spec(),
            r.datums() == Seq::<Datum>::empty(),
    {
        let r = match array {
            ArrayImpl::Bool(_) => ArrayBuilderImpl::Bool(BoolArrayBuilder::with_capacity(0)),
            ArrayImpl::Int32(_) => ArrayBuilderImpl::Int32(I32ArrayBuilder::with_capacity(0)),
            ArrayImpl::Float64(_) => ArrayBuilderImpl::Float64(F64ArrayBuilder::with_capacity(0)),
            ArrayImpl::Utf8(_) => ArrayBuilderImpl::Utf8(Utf8ArrayBuilder::with_capacity(0)),
        };
        assert(r.datums() =~= Seq::<Datum>::empty());
        r
    }

    pub fn kind(&self) -> (r: ArrayKind)
        ensures
            r == self.kind_spec(),
    {
        match self {
            ArrayBuilderImpl::Bool(_) => ArrayKind::Bool,
            ArrayBuilderImpl::Int32(_) => ArrayKind::Int32,
            ArrayBuilderImpl::Float64(_) => ArrayKind::Float64,
            ArrayBuilderImpl::Utf8(_) => ArrayKind::Utf8,
        }
    }

    /// Appends one value or null.  A concrete value of another kind than the
    /// builder's is refused, and the builder is left as it was.
    pub fn push(&mut self, v: &DataValue) -> (r: Result<(), TypeMismatch>)
        requires
            old(self).datums().len() < usize::MAX,
        ensures
            r is Ok <==> accepts(old(self).kind_spec(), v@),
            final(self).kind_spec() == old(self).kind_spec(),
            final(self).datums() == push_effect(old(self).kind_spec(), old(self).datums(), v@),
    {
        proof {
            self.lemma_len();
        }
        match self {
            ArrayBuilderImpl::Bool(b) => match v {
                DataValue::Bool(x) => {
                    b.push(Some(x));
                    Ok(())
                },
                DataValue::Null => {
                    b.push(None);
                    Ok(())
                },
                _ => Err(TypeMismatch),
            },
            ArrayBuilderImpl::Int32(b) => match v {
                DataValue::Int32(x) => {
                    b.push(Some(x));
                    Ok(())
                },
                DataValue::Null => {
                    b.push(None);
                    Ok(())
                },
                _ => Err(TypeMismatch),
            },
            ArrayBuilderImpl::Float64(b) => match v {
                DataValue::Float64(x) => {
                    b.push(Some(x));
                    Ok(())
                },
                DataValue::Null => {
                    b.push(None);
                    Ok(())
                },
                _ => Err(TypeMismatch),
            },
            ArrayBuilderImpl::Utf8(b) => match v {
                DataValue::String(x) => {
                    b.push(Some(x));
                    Ok(())
                },
                DataValue::Null => {
                    b.push(None);
                    Ok(())
                },
                _ => Err(TypeMismatch),
            },
        }
    }

    /// Appends every slot of `array`, nulls included, in order.  An array
    /// of another kind is refused, and the builder is left as it was.
    pub fn append(&mut self, array: &ArrayImpl) -> (r: Result<(), TypeMismatch>)
        requires
            old(self).datums().len() + array.datums().len() <= usize::MAX,
        ensures
            r is Ok <==> old(self).kind_spec() == array.kind_spec(),
            final(self).kind_spec() == old(self).kind_spec(),
            final(self).datums() == append_effect(
                old(self).kind_spec(),
                old(self).datums(),
                array.kind_spec(),
                array.datums(),
            ),
    {
        proof {
            self.lemma_len();
        }
        let r = match self {
            ArrayBuilderImpl::Bool(b) => match array {
                ArrayImpl::Bool(a) => {
                    b.append(a);
                    Ok(())
                },
                _ => Err(TypeMismatch),
            },
            ArrayBuilderImpl::Int32(b) => match array {
                ArrayImpl::Int32(a) => {
                    b.append(a);
                    Ok(())
                },
                _ => Err(TypeMismatch),
            },
            ArrayBuilderImpl::Float64(b) => match array {
                ArrayImpl::Float64(a) => {
                    b.append(a);
                    Ok(())
                },
                _ => Err(TypeMismatch),
            },
            ArrayBuilderImpl::Utf8(b) => match array {
                ArrayImpl::Utf8(a) => {
                    b.append(a);
                    Ok(())
                },
                _ => Err(TypeMismatch),
            },
        };
        proof {
            if r is Ok {
                assert(self.datums() =~= old(self).datums() + array.datums());
            }
        }
        r
    }

    /// Turns the builder into an array holding the same values.
    pub fn finish(self) -> (r: ArrayImpl)
        ensures
            r.kind_spec() == self.kind_spec(),
            r.datums() == self.datums(),
    {
        match self {
            ArrayBuilderImpl::Bool(b) => ArrayImpl::Bool(b.finish()),
            ArrayBuilderImpl::Int32(b) => ArrayImpl::Int32(b.finish()),
            ArrayBuilderImpl::Float64(b) => ArrayImpl::Float64(b.finish()),
            ArrayBuilderImpl::Utf8(b) => ArrayImpl::Utf8(b.finish()),
        }
    }

    pub fn len(&self) -> (r: usize)
        ensures
            r == self.datums().len(),
    {
        proof {
            self.lemma_len();
        }
        match self {
            ArrayBuilderImpl::Bool(b) => b.len(),
            ArrayBuilderImpl::Int32(b) => b.len(),
            ArrayBuilderImpl::Float64(b) => b.len(),
            ArrayBuilderImpl::Utf8(b) => b.len(),
        }
    }

    /// The number of values is the number of slots.
    proof fn lemma_len(&self)
        ensures
            self.datums().len() == match self {
                ArrayBuilderImpl::Bool(b) => b.slots().len(),
                ArrayBuilderImpl::Int32(b) => b.slots().len(),
                ArrayBuilderImpl::Float64(b) => b.slots().len(),
                ArrayBuilderImpl::Utf8(b) => b.slots().len(),
            },
    {
    }
}

} // verus!
