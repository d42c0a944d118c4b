use std::sync::Arc;

use compactor::catalog::{
    materialize_created, upgrade_files, with_public_ids, SavedParquetFileState,
};
use compactor::file::{
    clone_files, CompactionLevel, ParquetFile, ParquetFileParams, ParquetFilePath, PartitionId,
    PartitionInfo,
};

const L0: CompactionLevel = CompactionLevel::Initial;
const L1: CompactionLevel = CompactionLevel::FileNonOverlapped;

fn file(id: i64, level: CompactionLevel) -> ParquetFile {
    ParquetFile {
        id,
        partition_id: PartitionId::new(1),
        object_store_id: id as u128 + 1000,
        compaction_level: level,
        min_time: id * 10,
        max_time: id * 10 + 5,
        file_size_bytes: 100 + id,
        row_count: 7 + id,
        column_set: Arc::new(vec![1, 2, id]),
        max_sequence_number: id,
        created_at: 99,
    }
}

fn params(object_store_id: u128) -> ParquetFileParams {
    ParquetFileParams {
        partition_id: PartitionId::new(1),
        object_store_id,
        compaction_level: L1,
        min_time: 3,
        max_time: 10,
        file_size_bytes: 11,
        row_count: 12,
        column_set: Arc::new(vec![1, 2]),
        max_sequence_number: 13,
        created_at: 14,
    }
}

#[test]
fn upgrade_preserves_identity() {
    let before = clone_files(&vec![file(1, L0), file(2, L0)]);
    let after = upgrade_files(vec![file(1, L0), file(2, L0)], L1);
    assert_eq!(after.len(), 2);
    for (old, new) in before.iter().zip(after.iter()) {
        assert_eq!(new.compaction_level, L1);
        assert_eq!(new.id, old.id);
        assert_eq!(new.object_store_id, old.object_store_id);
        assert_eq!(new.min_time, old.min_time);
        assert_eq!(new.max_time, old.max_time);
        assert_eq!(new.row_count, old.row_count);
        assert_eq!(new.file_size_bytes, old.file_size_bytes);
        assert_eq!(new.partition_id, old.partition_id);
        assert_eq!(new.column_set, old.column_set);
        assert_eq!(new.max_sequence_number, old.max_sequence_number);
        assert_eq!(new.created_at, old.created_at);
    }
    assert_eq!(upgrade_files(vec![file(3, L1)], L1), vec![file(3, L1)]);
    assert!(upgrade_files(vec![], L1).is_empty());
}

#[test]
fn created_files_get_their_ids_in_order() {
    let files = materialize_created(vec![params(70), params(71)], &vec![500, 501]);
    assert_eq!(files.len(), 2);
    assert_eq!(files[0], ParquetFile::from_params(params(70), 500));
    assert_eq!(files[1], ParquetFile::from_params(params(71), 501));
    assert_eq!(files[1].id, 501);
    assert_eq!(files[1].object_store_id, 71);
    assert_eq!(files[1].compaction_level, L1);
    assert_eq!(files[1].min_time, 3);
    assert_eq!(files[1].max_time, 10);
    assert_eq!(files[1].file_size_bytes, 11);
    assert_eq!(files[1].row_count, 12);
    assert_eq!(files[1].max_sequence_number, 13);
    assert_eq!(files[1].created_at, 14);
}

#[test]
fn what_has_no_partner_is_left_out() {
    assert_eq!(materialize_created(vec![params(70), params(71)], &vec![500]).len(), 1);
    assert_eq!(materialize_created(vec![params(70)], &vec![500, 501]).len(), 1);
    assert!(materialize_created(vec![], &vec![500]).is_empty());
    assert_eq!(with_public_ids(vec![params(70), params(71)], &vec![9]).len(), 1);
    assert_eq!(with_public_ids(vec![params(70)], &vec![9, 10]).len(), 1);
}

#[test]
fn published_files_take_on_their_public_ids() {
    let got = with_public_ids(vec![params(70), params(71)], &vec![900, 901]);
    assert_eq!(got, vec![params(900), params(901)]);
}

#[test]
fn fingerprint_notices_files_that_went_missing() {
    let saved = SavedParquetFileState::from_files(&vec![file(1, L0), file(2, L0)]);
    assert!(saved.contains((1, 1001)));
    assert!(!saved.contains((1, 1002)));
    assert!(!saved.contains((3, 1003)));

    let more = SavedParquetFileState::from_files(&vec![file(3, L1), file(2, L0), file(1, L0)]);
    assert!(saved.still_in(&more));
    assert!(!more.still_in(&saved));

    // the level of a file is no part of its identity
    let upgraded = SavedParquetFileState::from_files(&vec![file(2, L1), file(1, L1), file(1, L1)]);
    assert!(saved.still_in(&upgraded));
    assert!(upgraded.still_in(&saved));

    // the same id under another object is another file
    let mut moved = file(2, L0);
    moved.object_store_id = 5;
    let replaced = SavedParquetFileState::from_files(&vec![file(1, L0), moved]);
    assert!(!saved.still_in(&replaced));

    let none = SavedParquetFileState::from_files(&vec![]);
    assert!(none.still_in(&saved));
    assert!(none.still_in(&none));
}

#[test]
fn files_overlap_when_they_share_an_instant() {
    let a = file(1, L0); // [10, 15]
    let b = file(2, L0); // [20, 25]
    assert!(!a.overlaps_with(&b));
    assert!(!b.overlaps_with(&a));
    assert!(a.overlaps_with(&a));
    let mut c = file(3, L0);
    c.min_time = 15;
    c.max_time = 20;
    assert!(a.overlaps_with(&c));
    assert!(c.overlaps_with(&b));
}

#[test]
fn paths_name_namespace_table_partition_and_object() {
    let info = PartitionInfo {
        partition_id: PartitionId::new(1),
        namespace_id: 2,
        table_id: 3,
        sort_key: Some(Arc::new(vec![4])),
        column_count: 20,
        partition_key: String::from("2023-01-01"),
    };
    assert_eq!(info.column_count(), 20);
    let want = ParquetFilePath {
        namespace_id: 2,
        table_id: 3,
        partition_id: PartitionId::new(1),
        object_store_id: 1004,
    };
    assert_eq!(ParquetFilePath::for_file(&info, &file(4, L0)), want);
    assert_eq!(ParquetFilePath::for_params(&info, &params(1004)), want);
    assert_eq!(PartitionId::new(6).get(), 6);
}
