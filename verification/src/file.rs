//! The data model: partitions, compaction levels and parquet files.

use std::sync::Arc;
use vstd::prelude::*;

verus! {

/// Identity of a partition. Nothing is read from the number but its equality.
#[derive(Clone, Copy, Debug, PartialEq, Eq, Structural, Hash)]
pub struct PartitionId {
    pub id: i64,
}

impl PartitionId {
    pub fn new(id: i64) -> (res: Self)
        ensures
            res.id == id,
    {
        PartitionId { id }
    }

    pub fn get(&self) -> (id: i64)
        ensures
            id == self.id,
    {
        self.id
    }
}

/// How consolidated a file is. Levels only ever go up.
#[derive(Clone, Copy, Debug, PartialEq, Eq, Structural, Hash)]
pub enum CompactionLevel {
    /// Freshly ingested, may overlap anything (L0).
    Initial,
    /// Does not overlap other files of its level (L1).
    FileNonOverlapped,
    /// Fully compacted (L2).
    Final,
}

impl CompactionLevel {
    /// The level as a number: 0, 1 or 2.
    pub open spec fn rank(self) -> int {
        match self {
            CompactionLevel::Initial => 0,
            CompactionLevel::FileNonOverlapped => 1,
            CompactionLevel::Final => 2,
        }
    }

    /// The level after this one; the last level is its own successor.
    pub open spec fn spec_next(self) -> CompactionLevel {
        match self {
            CompactionLevel::Initial => CompactionLevel::FileNonOverlapped,
            CompactionLevel::FileNonOverlapped => CompactionLevel::Final,
            CompactionLevel::Final => CompactionLevel::Final,
        }
    }

    pub fn number(self) -> (n: u8)
        ensures
            n == self.rank(),
    {
        match self {
            CompactionLevel::Initial => 0,
            CompactionLevel::FileNonOverlapped => 1,
            CompactionLevel::Final => 2,
        }
    }

    pub fn next(self) -> (res: CompactionLevel)
        ensures
            res == self.spec_next(),
            res.rank() >= self.rank(),
    {
        match self {
            CompactionLevel::Initial => CompactionLevel::FileNonOverlapped,
            CompactionLevel::FileNonOverlapped => CompactionLevel::Final,
            CompactionLevel::Final => CompactionLevel::Final,
        }
    }
}

/// A parquet file as the catalog records it.
///
/// A file never changes once created, but for its compaction level (and its
/// deletion, which the catalog tracks).
#[derive(Debug, PartialEq, Eq)]
pub struct ParquetFile {
    pub id: i64,
    pub partition_id: PartitionId,
    pub object_store_id: u128,
    pub compaction_level: CompactionLevel,
    pub min_time: i64,
    pub max_time: i64,
    pub file_size_bytes: i64,
    pub row_count: i64,
    pub column_set: Arc<Vec<i64>>,
    pub max_sequence_number: i64,
    pub created_at: i64,
}

/// A parquet file before the catalog has given it an id.
#[derive(Debug, PartialEq, Eq)]
pub struct ParquetFileParams {
    pub partition_id: PartitionId,
    pub object_store_id: u128,
    pub compaction_level: CompactionLevel,
    pub min_time: i64,
    pub max_time: i64,
    pub file_size_bytes: i64,
    pub row_count: i64,
    pub column_set: Arc<Vec<i64>>,
    pub max_sequence_number: i64,
    pub created_at: i64,
}

impl Clone for ParquetFile {
    fn clone(&self) -> (res: Self)
        ensures
            res == *self,
    {
        ParquetFile {
            id: self.id,
            partition_id: self.partition_id,
            object_store_id: self.object_store_id,
            compaction_level: self.compaction_level,
            min_time: self.min_time,
            max_time: self.max_time,
            file_size_bytes: self.file_size_bytes,
            row_count: self.row_count,
            column_set: self.column_set.clone(),
            max_sequence_number: self.max_sequence_number,
            created_at: self.created_at,
        }
    }
}

impl Clone for ParquetFileParams {
    fn clone(&self) -> (res: Self)
        ensures
            res == *self,
    {
        ParquetFileParams {
            partition_id: self.partition_id,
            object_store_id: self.object_store_id,
            compaction_level: self.compaction_level,
            min_time: self.min_time,
            max_time: self.max_time,
            file_size_bytes: self.file_size_bytes,
            row_count: self.row_count,
            column_set: self.column_set.clone(),
            max_sequence_number: self.max_sequence_number,
            created_at: self.created_at,
        }
    }
}

/// The file that `params` describes, under the catalog id `id`.
pub open spec fn file_from_params(params: ParquetFileParams, id: i64) -> ParquetFile {
    ParquetFile {
        id,
        partition_id: params.partition_id,
        object_store_id: params.object_store_id,
        compaction_level: params.compaction_level,
        min_time: params.min_time,
        max_time: params.max_time,
        file_size_bytes: params.file_size_bytes,
        row_count: params.row_count,
        column_set: params.column_set,
        max_sequence_number: params.max_sequence_number,
        created_at: params.created_at,
    }
}

/// Two files overlap in time when their closed time ranges share an instant.
pub open spec fn overlaps(a: ParquetFile, b: ParquetFile) -> bool {
    a.min_time <= b.max_time && b.min_time <= a.max_time
}

impl ParquetFile {
    /// Materialises a file from its parameters and the id the catalog assigned.
    pub fn from_params(params: ParquetFileParams, id: i64) -> (file: ParquetFile)
        ensures
            file == file_from_params(params, id),
    {
        ParquetFile {
            id,
            partition_id: params.partition_id,
            object_store_id: params.object_store_id,
            compaction_level: params.compaction_level,
            min_time: params.min_time,
            max_time: params.max_time,
            file_size_bytes: params.file_size_bytes,
            row_count: params.row_count,
            column_set: params.column_set,
            max_sequence_number: params.max_sequence_number,
            created_at: params.created_at,
        }
    }

    /// Whether this file's time range shares an instant with `other`'s.
    pub fn overlaps_with(&self, other: &ParquetFile) -> (res: bool)
        ensures
            res == overlaps(*self, *other),
    {
        self.min_time <= other.max_time && other.min_time <= self.max_time
    }
}

/// Clones a list of files, one by one.
pub fn clone_files(files: &Vec<ParquetFile>) -> (res: Vec<ParquetFile>)
    ensures
        res@ == files@,
{
    let mut res: Vec<ParquetFile> = Vec::new();
    let mut i: usize = 0;
    while i < files.len()
        invariant
            i <= files.len(),
            res@ == files@.take(i as int),
        decreases files.len() - i,
    {
        res.push(files[i].clone());
        i += 1;
    }
    res
}

/// What is known of a partition for the length of one compaction attempt.
#[derive(Debug, PartialEq, Eq)]
pub struct PartitionInfo {
    pub partition_id: PartitionId,
    pub namespace_id: i64,
    pub table_id: i64,
    /// The columns of the sort key, if one has been chosen yet.
    pub sort_key: Option<Arc<Vec<i64>>>,
    pub column_count: usize,
    pub partition_key: String,
}

impl PartitionInfo {
    pub fn column_count(&self) -> (n: usize)
        ensures
            n == self.column_count,
    {
        self.column_count
    }
}

/// Where a parquet file lives in an object store:
/// `{namespace}/{table}/{partition}/{uuid}.parquet`.
#[derive(Clone, Copy, Debug, PartialEq, Eq, Structural, Hash)]
pub struct ParquetFilePath {
    pub namespace_id: i64,
    pub table_id: i64,
    pub partition_id: PartitionId,
    pub object_store_id: u128,
}

impl ParquetFilePath {
    pub open spec fn spec_for_file(info: PartitionInfo, file: ParquetFile) -> ParquetFilePath {
        ParquetFilePath {
            namespace_id: info.namespace_id,
            table_id: info.table_id,
            partition_id: file.partition_id,
            object_store_id: file.object_store_id,
        }
    }

    pub open spec fn spec_for_params(
        info: PartitionInfo,
        params: ParquetFileParams,
    ) -> ParquetFilePath {
        ParquetFilePath {
            namespace_id: info.namespace_id,
            table_id: info.table_id,
            partition_id: params.partition_id,
            object_store_id: params.object_store_id,
        }
    }

    /// The path of a file that the catalog knows.
    pub fn for_file(info: &PartitionInfo, file: &ParquetFile) -> (path: ParquetFilePath)
        ensures
            path == Self::spec_for_file(*info, *file),
    {
        ParquetFilePath {
            namespace_id: info.namespace_id,
            table_id: info.table_id,
            partition_id: file.partition_id,
            object_store_id: file.object_store_id,
        }
    }

    /// The path of a file that has been written but not committed.
    pub fn for_params(info: &PartitionInfo, params: &ParquetFileParams) -> (path: ParquetFilePath)
        ensures
            path == Self::spec_for_params(*info, *params),
    {
        ParquetFilePath {
            namespace_id: info.namespace_id,
            table_id: info.table_id,
            partition_id: params.partition_id,
            object_store_id: params.object_store_id,
        }
    }
}

} // verus!
