use rldb::array::{ArrayImpl, BoolArray, I32Array, Utf8Array};
use rldb::data_chunk::{ChunkError, DataChunk};
use rldb::types::DataValue;

fn ints(values: &[Option<i32>]) -> ArrayImpl {
    ArrayImpl::Int32(I32Array::from_options(values.to_vec()))
}

fn texts(values: &[Option<&str>]) -> ArrayImpl {
    ArrayImpl::Utf8(Utf8Array::from_options(
        values.iter().map(|v| v.map(|s| s.to_string())).collect(),
    ))
}

#[test]
fn chunk_length_is_the_arrays_length() {
    let chunk = DataChunk::from_arrays(vec![ints(&[Some(1), Some(2)]), texts(&[None, Some("b")])])
        .unwrap();
    assert_eq!(chunk.cardinality(), 2);
    for array in chunk.arrays() {
        assert_eq!(array.len(), chunk.cardinality());
    }
}

#[test]
fn arrays_of_unequal_length_do_not_form_a_chunk() {
    let res = DataChunk::from_arrays(vec![ints(&[Some(1), Some(2)]), ints(&[Some(3)])]);
    assert_eq!(res, Err(ChunkError::LengthMismatch));
}

#[test]
fn no_arrays_do_not_form_a_chunk() {
    assert_eq!(DataChunk::from_arrays(vec![]), Err(ChunkError::NoArrays));
}

#[test]
fn single_holds_one_int() {
    let chunk = DataChunk::single(42);
    assert_eq!(chunk.cardinality(), 1);
    assert_eq!(chunk.arrays().len(), 1);
    assert_eq!(chunk.arrays()[0].get(0), DataValue::Int32(42));
}

#[test]
fn concat_of_one_chunk_is_that_chunk() {
    let chunk = DataChunk::from_arrays(vec![
        ints(&[Some(1), None, Some(3)]),
        texts(&[Some("x"), None, Some("z")]),
    ])
    .unwrap();
    let merged = DataChunk::concat(&[chunk.clone()]).unwrap();
    assert_eq!(merged, chunk);
}

#[test]
fn concat_stacks_rows_in_order() {
    let first = DataChunk::from_arrays(vec![ints(&[Some(1)]), texts(&[Some("a")])]).unwrap();
    let second =
        DataChunk::from_arrays(vec![ints(&[None, Some(3)]), texts(&[Some("b"), None])]).unwrap();
    let merged = DataChunk::concat(&[first, second]).unwrap();
    let expected = DataChunk::from_arrays(vec![
        ints(&[Some(1), None, Some(3)]),
        texts(&[Some("a"), Some("b"), None]),
    ])
    .unwrap();
    assert_eq!(merged.cardinality(), 3);
    assert_eq!(merged, expected);
}

#[test]
fn concat_refuses_chunks_of_other_shapes() {
    let first = DataChunk::from_arrays(vec![ints(&[Some(1)])]).unwrap();
    let kinds = DataChunk::from_arrays(vec![ArrayImpl::Bool(BoolArray::from_options(vec![
        Some(true),
    ]))])
    .unwrap();
    let wider = DataChunk::from_arrays(vec![ints(&[Some(1)]), ints(&[Some(2)])]).unwrap();
    assert_eq!(
        DataChunk::concat(&[first.clone(), kinds]),
        Err(ChunkError::ShapeMismatch)
    );
    assert_eq!(DataChunk::concat(&[first, wider]), Err(ChunkError::ShapeMismatch));
}

#[test]
fn concat_of_nothing_fails() {
    assert_eq!(DataChunk::concat(&[]), Err(ChunkError::NoChunks));
}

#[test]
fn dummy_executor_yields_one_zero() {
    let chunk = rldb::executor::DummyExecutor.execute().unwrap();
    assert_eq!(chunk, DataChunk::single(0));
}
