use std::collections::HashMap;

use rldb::array::{ArrayImpl, BoolArray, F64Array, I32Array, Utf8Array};
use rldb::catalog::{ColumnDesc, ColumnRefId, TableRefId};
use rldb::data_chunk::DataChunk;
use rldb::encoding::{decode_chunk, encode_chunk};
use rldb::storage::{err, DiskStorage, DiskTransaction, StorageError, StorageOptions};
use rldb::types::{DataTypeExt, DataTypeKind};

fn ints(values: &[Option<i32>]) -> ArrayImpl {
    ArrayImpl::Int32(I32Array::from_options(values.to_vec()))
}

fn texts(values: &[Option<&str>]) -> ArrayImpl {
    ArrayImpl::Utf8(Utf8Array::from_options(
        values.iter().map(|v| v.map(|s| s.to_string())).collect(),
    ))
}

fn storage() -> DiskStorage {
    DiskStorage::new(StorageOptions { base_path: "risinglight.db".to_string() })
}

fn columns() -> Vec<ColumnDesc> {
    vec![
        ColumnDesc::new(0, "a".to_string(), DataTypeKind::Int.not_null()),
        ColumnDesc::new(1, "b".to_string(), DataTypeKind::Varchar.nullable()),
    ]
}

fn sample() -> DataChunk {
    DataChunk::from_arrays(vec![
        ints(&[Some(1), Some(2), Some(3)]),
        texts(&[Some("x"), None, Some("z")]),
    ])
    .unwrap()
}

/// Commits `txn`, stores the new segment's bytes in `disk` and publishes it.
fn commit_and_store(
    storage: &mut DiskStorage,
    disk: &mut HashMap<String, Vec<u8>>,
    txn: DiskTransaction,
) -> Option<u32> {
    let table = txn.table_id();
    let pending = storage.commit(txn).unwrap()?;
    let id = pending.rowset().rowset_id();
    disk.insert(pending.rowset().path().clone(), pending.bytes().to_vec());
    storage.publish(table, pending).unwrap();
    Some(id)
}

fn read_all(txn: &DiskTransaction, disk: &HashMap<String, Vec<u8>>) -> Vec<DataChunk> {
    let contents: Vec<Vec<u8>> = txn.rowset_paths().iter().map(|p| disk[p].clone()).collect();
    txn.all_chunks(&contents).unwrap()
}

#[test]
fn round_trip_through_disk() {
    let mut storage = storage();
    let id = TableRefId::new(0, 1);
    storage.add_table(id, &columns()).unwrap();
    let mut disk = HashMap::new();

    let mut txn = storage.get_table(id).unwrap().write();
    txn.append(sample()).unwrap();
    commit_and_store(&mut storage, &mut disk, txn).unwrap();

    let read = storage.get_table(id).unwrap().read();
    let chunks = read_all(&read, &disk);
    assert_eq!(chunks.len(), 1);
    assert_eq!(chunks[0], sample());
}

#[test]
fn appended_chunks_are_stacked_into_one_segment() {
    let mut storage = storage();
    let id = TableRefId::new(0, 1);
    storage.add_table(id, &columns()).unwrap();
    let mut disk = HashMap::new();

    let mut txn = storage.get_table(id).unwrap().write();
    txn.append(sample()).unwrap();
    txn.append(DataChunk::from_arrays(vec![ints(&[Some(4)]), texts(&[None])]).unwrap())
        .unwrap();
    commit_and_store(&mut storage, &mut disk, txn).unwrap();

    let read = storage.get_table(id).unwrap().read();
    let expected = DataChunk::from_arrays(vec![
        ints(&[Some(1), Some(2), Some(3), Some(4)]),
        texts(&[Some("x"), None, Some("z"), None]),
    ])
    .unwrap();
    assert_eq!(read_all(&read, &disk), vec![expected]);
}

#[test]
fn empty_commit_adds_no_segment() {
    let mut storage = storage();
    let id = TableRefId::new(0, 1);
    storage.add_table(id, &columns()).unwrap();
    let txn = storage.get_table(id).unwrap().write();
    assert!(storage.commit(txn).unwrap().is_none());
    assert_eq!(storage.get_table(id).unwrap().rowsets().len(), 0);
}

#[test]
fn commits_take_increasing_ids() {
    let mut storage = storage();
    let id = TableRefId::new(0, 1);
    storage.add_table(id, &columns()).unwrap();
    let mut disk = HashMap::new();
    let mut ids = vec![];
    for _ in 0..3 {
        let mut txn = storage.get_table(id).unwrap().write();
        txn.append(sample()).unwrap();
        ids.push(commit_and_store(&mut storage, &mut disk, txn).unwrap());
    }
    assert_eq!(ids, vec![0, 1, 2]);
    let listed: Vec<u32> =
        storage.get_table(id).unwrap().rowsets().iter().map(|r| r.rowset_id()).collect();
    assert_eq!(listed, vec![0, 1, 2]);
}

#[test]
fn out_of_order_publish_is_refused() {
    let mut storage = storage();
    let id = TableRefId::new(0, 1);
    storage.add_table(id, &columns()).unwrap();
    let mut first = storage.get_table(id).unwrap().write();
    first.append(sample()).unwrap();
    let mut second = storage.get_table(id).unwrap().write();
    second.append(sample()).unwrap();
    let early = storage.commit(first).unwrap().unwrap();
    let late = storage.commit(second).unwrap().unwrap();
    assert_eq!(early.rowset().rowset_id(), 0);
    assert_eq!(late.rowset().rowset_id(), 1);
    storage.publish(id, late).unwrap();
    assert_eq!(storage.publish(id, early), Err(StorageError::OutOfOrder));
    assert_eq!(storage.get_table(id).unwrap().rowsets().len(), 1);
}

#[test]
fn read_opened_before_a_commit_does_not_see_it() {
    let mut storage = storage();
    let id = TableRefId::new(0, 1);
    storage.add_table(id, &columns()).unwrap();
    let mut disk = HashMap::new();

    let read = storage.get_table(id).unwrap().read();
    let mut txn = storage.get_table(id).unwrap().write();
    txn.append(sample()).unwrap();
    commit_and_store(&mut storage, &mut disk, txn).unwrap();

    assert!(read_all(&read, &disk).is_empty());
    let later = storage.get_table(id).unwrap().read();
    assert_eq!(read_all(&later, &disk).len(), 1);
}

#[test]
fn duplicate_table_is_refused_and_first_is_kept() {
    let mut storage = storage();
    let id = TableRefId::new(1, 2);
    storage.add_table(id, &columns()).unwrap();
    let mut disk = HashMap::new();
    let mut txn = storage.get_table(id).unwrap().write();
    txn.append(sample()).unwrap();
    commit_and_store(&mut storage, &mut disk, txn).unwrap();

    let other = vec![ColumnDesc::new(0, "c".to_string(), DataTypeKind::Boolean.nullable())];
    assert_eq!(storage.add_table(id, &other), Err(StorageError::AlreadyExists(id)));
    let table = storage.get_table(id).unwrap();
    assert_eq!(table.column_descs().len(), 2);
    assert_eq!(table.rowsets().len(), 1);
    assert_eq!(read_all(&table.read(), &disk), vec![sample()]);
}

#[test]
fn missing_table_is_not_found() {
    let storage = storage();
    let id = TableRefId::new(0, 9);
    assert!(matches!(storage.get_table(id), Err(StorageError::NotFound(missing)) if missing == id));
}

#[test]
fn read_only_transaction_refuses_appends() {
    let mut storage = storage();
    let id = TableRefId::new(0, 1);
    storage.add_table(id, &columns()).unwrap();
    let mut read = storage.get_table(id).unwrap().read();
    assert!(read.read_only());
    assert_eq!(read.append(sample()), Err(StorageError::ReadOnly));
    assert!(storage.commit(read).unwrap().is_none());
}

#[test]
fn chunk_of_other_columns_is_refused() {
    let mut storage = storage();
    let id = TableRefId::new(0, 1);
    storage.add_table(id, &columns()).unwrap();
    let mut txn = storage.get_table(id).unwrap().write();
    let wrong = DataChunk::from_arrays(vec![ints(&[Some(1)]), ints(&[Some(2)])]).unwrap();
    assert_eq!(txn.append(wrong), Err(StorageError::SchemaMismatch));
    assert!(storage.commit(txn).unwrap().is_none());
}

#[test]
fn unreadable_segment_is_corrupted() {
    let mut storage = storage();
    let id = TableRefId::new(0, 1);
    storage.add_table(id, &columns()).unwrap();
    let mut disk = HashMap::new();
    let mut txn = storage.get_table(id).unwrap().write();
    txn.append(sample()).unwrap();
    commit_and_store(&mut storage, &mut disk, txn).unwrap();
    let read = storage.get_table(id).unwrap().read();
    assert_eq!(read.all_chunks(&vec![vec![1, 2, 3]]), Err(StorageError::Corrupted));
    let other_columns = encode_chunk(&DataChunk::single(1));
    assert_eq!(read.all_chunks(&vec![other_columns]), Err(StorageError::Corrupted));
}

#[test]
fn paths_follow_table_and_rowset_ids() {
    let mut storage = storage();
    let id = TableRefId::new(0, 3);
    storage.add_table(id, &columns()).unwrap();
    let table = storage.get_table(id).unwrap();
    assert_eq!(table.table_path(), "risinglight.db/3");
    assert_eq!(table.rowset_path_of(12), "risinglight.db/3/12");
    assert_eq!(table.rowset_path_of(4294967295), "risinglight.db/3/4294967295");

    let mut slashed = DiskStorage::new(StorageOptions { base_path: "data/".to_string() });
    slashed.add_table(TableRefId::new(0, 0), &columns()).unwrap();
    let table = slashed.get_table(TableRefId::new(0, 0)).unwrap();
    assert_eq!(table.rowset_path_of(0), "data/0/0");
}

#[test]
fn committed_segment_lies_at_its_rowset_path() {
    let mut storage = storage();
    let id = TableRefId::new(0, 7);
    storage.add_table(id, &columns()).unwrap();
    let mut txn = storage.get_table(id).unwrap().write();
    txn.append(sample()).unwrap();
    let pending = storage.commit(txn).unwrap().unwrap();
    assert_eq!(pending.rowset().path(), "risinglight.db/7/0");
}

#[test]
fn encoded_chunk_decodes_to_itself() {
    let chunk = DataChunk::from_arrays(vec![
        ArrayImpl::Bool(BoolArray::from_options(vec![Some(true), None, Some(false)])),
        ints(&[Some(i32::MIN), Some(-1), None]),
        ArrayImpl::Float64(F64Array::from_options(vec![
            Some((-0.5f64).to_bits()),
            None,
            Some(f64::MAX.to_bits()),
        ])),
        texts(&[Some("ünïcødé ✓"), Some(""), None]),
    ])
    .unwrap();
    let bytes = encode_chunk(&chunk);
    assert_eq!(decode_chunk(&bytes), Some(chunk));
}

#[test]
fn encoded_layout_is_exact() {
    let bytes = encode_chunk(&DataChunk::single(258));
    let mut expected = vec![1, 0, 0, 0, 0, 0, 0, 0, 1, 0, 0, 0, 0, 0, 0, 0];
    expected.extend_from_slice(&[1, 1, 2, 1, 0, 0]);
    assert_eq!(bytes, expected);
}

#[test]
fn invalid_bytes_do_not_decode() {
    assert_eq!(decode_chunk(&[]), None);
    let mut bytes = encode_chunk(
        &DataChunk::from_arrays(vec![texts(&[Some("ab")])]).unwrap(),
    );
    let n = bytes.len();
    bytes[n - 1] = 0xff;
    assert_eq!(decode_chunk(&bytes), None);
    let mut longer = encode_chunk(&DataChunk::single(1));
    longer.push(0);
    assert_eq!(decode_chunk(&longer), None);
}

#[test]
fn environment_faults_are_wrapped() {
    assert_eq!(err("disk full".to_string()), StorageError::Other("disk full".to_string()));
}

#[test]
fn column_ids_carry_their_table() {
    let table = TableRefId::new(2, 5);
    let column = ColumnRefId::from_table(table, 9);
    assert_eq!(column, ColumnRefId::new(2, 5, 9));
    assert_eq!(column.schema_id, 2);
    assert_eq!(column.table_id, 5);
    assert_eq!(column.column_id, 9);
}
