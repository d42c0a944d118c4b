use std::sync::Arc;

use compactor::file::{CompactionLevel, ParquetFile, PartitionId, PartitionInfo};
use compactor::round::{
    divide_initial, level_present, level_totals, round_split, sort_by_min_time, RoundInfo,
    RoundInfoSource,
};

fn file(id: i64, level: CompactionLevel, min_time: i64, max_time: i64, size: i64) -> ParquetFile {
    ParquetFile {
        id,
        partition_id: PartitionId::new(1),
        object_store_id: id as u128 + 1000,
        compaction_level: level,
        min_time,
        max_time,
        file_size_bytes: size,
        row_count: 10,
        column_set: Arc::new(vec![1, 2]),
        max_sequence_number: id,
        created_at: 0,
    }
}

fn info() -> PartitionInfo {
    PartitionInfo {
        partition_id: PartitionId::new(1),
        namespace_id: 2,
        table_id: 3,
        sort_key: None,
        column_count: 20,
        partition_key: String::from("2023-01-01"),
    }
}

fn round(max_files_per_plan: usize) -> RoundInfo {
    RoundInfo {
        start_level: CompactionLevel::Initial,
        target_level: CompactionLevel::FileNonOverlapped,
        max_files_per_plan,
        size_budget: 1000,
    }
}

fn ids(branches: &[Vec<ParquetFile>]) -> Vec<Vec<i64>> {
    branches
        .iter()
        .map(|b| b.iter().map(|f| f.id).collect())
        .collect()
}

#[test]
fn branches_do_not_overlap() {
    let l0 = CompactionLevel::Initial;
    let files = vec![
        file(1, l0, 0, 10, 1),
        file(2, l0, 5, 20, 1),
        file(3, l0, 25, 30, 1),
        file(4, l0, 40, 50, 1),
    ];
    let branches = divide_initial(files, round(10));
    assert_eq!(ids(&branches), vec![vec![1, 2], vec![3], vec![4]]);
}

#[test]
fn branches_do_not_depend_on_the_order_of_the_files() {
    let l0 = CompactionLevel::Initial;
    let files = vec![
        file(4, l0, 40, 50, 1),
        file(2, l0, 5, 20, 1),
        file(3, l0, 25, 30, 1),
        file(1, l0, 0, 10, 1),
    ];
    let branches = divide_initial(files, round(10));
    assert_eq!(ids(&branches), vec![vec![1, 2], vec![3], vec![4]]);
}

#[test]
fn files_that_share_an_instant_share_a_branch() {
    let l0 = CompactionLevel::Initial;
    let touching = vec![file(1, l0, 0, 10, 1), file(2, l0, 10, 20, 1)];
    assert_eq!(ids(&divide_initial(touching, round(10))), vec![vec![1, 2]]);
    let apart = vec![file(1, l0, 0, 10, 1), file(2, l0, 11, 20, 1)];
    assert_eq!(ids(&divide_initial(apart, round(10))), vec![vec![1], vec![2]]);
}

#[test]
fn a_long_file_holds_its_branch_together() {
    let l0 = CompactionLevel::Initial;
    let l1 = CompactionLevel::FileNonOverlapped;
    let files = vec![
        file(1, l1, 10, 20, 1),
        file(2, l0, 0, 100, 1),
        file(3, l1, 50, 60, 1),
        file(4, l0, 101, 110, 1),
        file(5, l0, 105, 130, 1),
        file(6, l1, 120, 125, 1),
    ];
    let branches = divide_initial(files, round(10));
    assert_eq!(ids(&branches), vec![vec![2, 1, 3], vec![4, 5, 6]]);
}

#[test]
fn no_files_no_branches() {
    assert!(divide_initial(vec![], round(10)).is_empty());
    let one = divide_initial(vec![file(7, CompactionLevel::Final, 3, 4, 1)], round(10));
    assert_eq!(ids(&one), vec![vec![7]]);
}

#[test]
fn sort_keeps_the_order_of_files_that_start_together() {
    let l0 = CompactionLevel::Initial;
    let files = vec![
        file(1, l0, 5, 6, 1),
        file(2, l0, 3, 9, 1),
        file(3, l0, 5, 5, 1),
        file(4, l0, 3, 4, 1),
        file(5, l0, -7, 4, 1),
    ];
    let sorted = sort_by_min_time(files);
    let got: Vec<i64> = sorted.iter().map(|f| f.id).collect();
    assert_eq!(got, vec![5, 2, 4, 1, 3]);
}

#[test]
fn round_split_takes_the_first_files_now() {
    let l0 = CompactionLevel::Initial;
    let files: Vec<ParquetFile> = (1..=5).map(|i| file(i, l0, i, i, 1)).collect();
    let (now, later) = round_split(files.clone(), round(3));
    assert_eq!(now, files[..3].to_vec());
    assert_eq!(later, files[3..].to_vec());

    let (now, later) = round_split(files.clone(), round(5));
    assert_eq!(now, files);
    assert!(later.is_empty());

    let (now, later) = round_split(files.clone(), round(0));
    assert!(now.is_empty());
    assert_eq!(later, files);
}

#[test]
fn round_starts_at_the_lowest_level_that_has_files() {
    let l0 = CompactionLevel::Initial;
    let l1 = CompactionLevel::FileNonOverlapped;
    let l2 = CompactionLevel::Final;
    let source = RoundInfoSource { max_files_per_plan: 10, size_budget: 1000 };

    let files = vec![file(1, l2, 0, 1, 5), file(2, l1, 0, 1, 5), file(3, l0, 0, 1, 5)];
    assert_eq!(
        source.calculate(&info(), &files),
        Some(RoundInfo {
            start_level: l0,
            target_level: l1,
            max_files_per_plan: 10,
            size_budget: 1000,
        })
    );

    let files = vec![file(1, l2, 0, 1, 5), file(2, l1, 0, 1, 5)];
    assert_eq!(
        source.calculate(&info(), &files),
        Some(RoundInfo {
            start_level: l1,
            target_level: l2,
            max_files_per_plan: 10,
            size_budget: 1000,
        })
    );

    let files = vec![file(1, l2, 0, 1, 5)];
    assert_eq!(source.calculate(&info(), &files), None);
    assert_eq!(source.calculate(&info(), &vec![]), None);
}

#[test]
fn many_small_files_are_compacted_within_their_level() {
    let l0 = CompactionLevel::Initial;
    let l1 = CompactionLevel::FileNonOverlapped;
    let files = vec![
        file(1, l0, 0, 1, 100),
        file(2, l0, 0, 1, 100),
        file(3, l0, 0, 1, 100),
        file(4, l1, 0, 1, 5000),
    ];
    // more files than a plan takes, fewer bytes than the budget
    let crowded = RoundInfoSource { max_files_per_plan: 2, size_budget: 301 };
    assert_eq!(crowded.calculate(&info(), &files).unwrap().target_level, l0);
    // the bytes reach the budget
    let heavy = RoundInfoSource { max_files_per_plan: 2, size_budget: 300 };
    assert_eq!(heavy.calculate(&info(), &files).unwrap().target_level, l1);
    // a plan takes them all
    let roomy = RoundInfoSource { max_files_per_plan: 3, size_budget: 301 };
    assert_eq!(roomy.calculate(&info(), &files).unwrap().target_level, l1);
}

#[test]
fn level_totals_count_files_and_bytes_of_one_level() {
    let l0 = CompactionLevel::Initial;
    let l1 = CompactionLevel::FileNonOverlapped;
    let files = vec![file(1, l0, 0, 1, 7), file(2, l1, 0, 1, 11), file(3, l0, 0, 1, 13)];
    assert_eq!(level_totals(&files, l0), (2, 20));
    assert_eq!(level_totals(&files, l1), (1, 11));
    assert_eq!(level_totals(&files, CompactionLevel::Final), (0, 0));
    assert!(level_present(&files, l1));
    assert!(!level_present(&files, CompactionLevel::Final));
}

#[test]
fn levels_are_numbered_and_only_go_up() {
    assert_eq!(CompactionLevel::Initial.number(), 0);
    assert_eq!(CompactionLevel::FileNonOverlapped.number(), 1);
    assert_eq!(CompactionLevel::Final.number(), 2);
    assert_eq!(CompactionLevel::Initial.next(), CompactionLevel::FileNonOverlapped);
    assert_eq!(CompactionLevel::FileNonOverlapped.next(), CompactionLevel::Final);
    assert_eq!(CompactionLevel::Final.next(), CompactionLevel::Final);
}
