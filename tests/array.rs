use rldb::array::{
    Array, ArrayBuilder, ArrayBuilderImpl, ArrayImpl, ArrayKind, F64Array, I32Array,
    I32ArrayBuilder, TypeMismatch, Utf8Array,
};
use rldb::types::{DataType, DataTypeExt, DataTypeKind, DataValue};

fn values_of(array: &ArrayImpl) -> Vec<DataValue> {
    (0..array.len()).map(|i| array.get(i)).collect()
}

#[test]
fn push_then_finish_reads_back_values_and_nulls() {
    let pushed = vec![
        DataValue::Int32(7),
        DataValue::Null,
        DataValue::Int32(-3),
        DataValue::Null,
    ];
    let mut builder = ArrayBuilderImpl::with_capacity(4, &DataTypeKind::Int.nullable());
    for v in &pushed {
        builder.push(v).unwrap();
    }
    let array = builder.finish();
    assert_eq!(array.len(), 4);
    assert_eq!(values_of(&array), pushed);
}

#[test]
fn push_round_trip_for_text_and_bool_and_float() {
    let mut text = ArrayBuilderImpl::with_capacity(0, &DataTypeKind::Varchar.nullable());
    text.push(&DataValue::String("héllo".to_string())).unwrap();
    text.push(&DataValue::Null).unwrap();
    let text = text.finish();
    assert_eq!(text.get(0), DataValue::String("héllo".to_string()));
    assert_eq!(text.get(1), DataValue::Null);

    let mut flags = ArrayBuilderImpl::with_capacity(0, &DataTypeKind::Boolean.not_null());
    flags.push(&DataValue::Bool(true)).unwrap();
    flags.push(&DataValue::Bool(false)).unwrap();
    assert_eq!(values_of(&flags.finish()), vec![DataValue::Bool(true), DataValue::Bool(false)]);

    let mut floats = ArrayBuilderImpl::with_capacity(0, &DataTypeKind::Float.nullable());
    floats.push(&DataValue::Float64(2.5f64.to_bits())).unwrap();
    let floats = floats.finish();
    assert_eq!(floats.kind(), ArrayKind::Float64);
    assert_eq!(floats.get(0), DataValue::Float64(2.5f64.to_bits()));
}

#[test]
fn pushing_a_string_into_an_int_builder_fails_and_keeps_contents() {
    let mut builder = ArrayBuilderImpl::with_capacity(2, &DataTypeKind::Int.not_null());
    builder.push(&DataValue::Int32(1)).unwrap();
    builder.push(&DataValue::Int32(2)).unwrap();
    let res = builder.push(&DataValue::String("oops".to_string()));
    assert!(matches!(res, Err(TypeMismatch)));
    assert_eq!(builder.len(), 2);
    let array = builder.finish();
    assert_eq!(values_of(&array), vec![DataValue::Int32(1), DataValue::Int32(2)]);
}

#[test]
fn pushing_a_bool_into_a_text_builder_fails() {
    let mut builder = ArrayBuilderImpl::with_capacity(0, &DataTypeKind::String.nullable());
    assert!(builder.push(&DataValue::Bool(true)).is_err());
    assert_eq!(builder.len(), 0);
}

fn ints(values: &[Option<i32>]) -> ArrayImpl {
    ArrayImpl::Int32(I32Array::from_options(values.to_vec()))
}

#[test]
fn append_is_associative() {
    let a = ints(&[Some(1), None]);
    let b = ints(&[Some(2)]);
    let c = ints(&[None, Some(3)]);

    let mut left = ArrayBuilderImpl::from_type_of_array(&a);
    left.append(&a).unwrap();
    left.append(&b).unwrap();
    left.append(&c).unwrap();
    let left = left.finish();

    let mut bc = ArrayBuilderImpl::from_type_of_array(&b);
    bc.append(&b).unwrap();
    bc.append(&c).unwrap();
    let bc = bc.finish();
    let mut right = ArrayBuilderImpl::from_type_of_array(&a);
    right.append(&a).unwrap();
    right.append(&bc).unwrap();
    let right = right.finish();

    let expected = ints(&[Some(1), None, Some(2), None, Some(3)]);
    assert_eq!(left, expected);
    assert_eq!(right, expected);
}

#[test]
fn append_of_another_kind_fails_and_keeps_contents() {
    let a = ints(&[Some(1)]);
    let text = ArrayImpl::Utf8(Utf8Array::from_options(vec![Some("x".to_string())]));
    let mut builder = ArrayBuilderImpl::from_type_of_array(&a);
    builder.append(&a).unwrap();
    assert!(builder.append(&text).is_err());
    assert_eq!(builder.finish(), a);
}

#[test]
fn builder_kind_follows_the_column_type() {
    let cases = [
        (DataTypeKind::Boolean, ArrayKind::Bool),
        (DataTypeKind::Int, ArrayKind::Int32),
        (DataTypeKind::Float, ArrayKind::Float64),
        (DataTypeKind::Double, ArrayKind::Float64),
        (DataTypeKind::Char, ArrayKind::Utf8),
        (DataTypeKind::Varchar, ArrayKind::Utf8),
        (DataTypeKind::String, ArrayKind::Utf8),
    ];
    for (kind, expected) in cases {
        let builder = ArrayBuilderImpl::with_capacity(1, &DataType::new(kind, true));
        assert_eq!(builder.kind(), expected);
        assert_eq!(builder.len(), 0);
    }
    let floats = ArrayImpl::Float64(F64Array::from_options(vec![None]));
    assert_eq!(ArrayBuilderImpl::from_type_of_array(&floats).kind(), ArrayKind::Float64);
}

#[test]
fn typed_arrays_and_builders() {
    let mut builder = I32ArrayBuilder::with_capacity(3);
    builder.push(Some(&4));
    builder.push(None);
    builder.append(&I32Array::from_options(vec![Some(5)]));
    assert_eq!(ArrayBuilder::len(&builder), 3);
    let array = builder.finish();
    assert_eq!(array.len(), 3);
    assert!(!array.is_empty());
    assert_eq!(array.get(0), Some(&4));
    assert_eq!(array.get(1), None);
    assert_eq!(array.get(2), Some(&5));

    let text = Utf8Array::from_options(vec![None, Some("ab".to_string())]);
    assert_eq!(text.get(1).map(|s| s.as_str()), Some("ab"));
    assert!(ints(&[]).is_empty());
}

#[test]
fn datatype_of_values() {
    assert_eq!(DataValue::Null.datatype(), None);
    assert_eq!(DataValue::Bool(true).datatype(), Some(DataTypeKind::Boolean.not_null()));
    assert_eq!(DataValue::Int32(1).datatype(), Some(DataTypeKind::Int.not_null()));
    assert_eq!(DataValue::Float64(0).datatype(), Some(DataTypeKind::Double.not_null()));
    assert_eq!(
        DataValue::String(String::new()).datatype(),
        Some(DataTypeKind::Varchar.not_null())
    );
    let ty = DataType::new(DataTypeKind::Int, true);
    assert!(ty.is_nullable());
    assert_eq!(ty.kind(), DataTypeKind::Int);
    assert!(!DataTypeKind::Char.not_null().is_nullable());
}

#[test]
fn null_ranks_below_every_value() {
    let values = [
        DataValue::Null,
        DataValue::Bool(true),
        DataValue::Int32(i32::MIN),
        DataValue::Float64(0),
        DataValue::String(String::new()),
    ];
    for (i, v) in values.iter().enumerate() {
        assert_eq!(v.rank() as usize, i);
    }
    assert!(DataValue::Null.is_null());
    assert!(!DataValue::Int32(0).is_null());
}
