//! The ledger of partitions that compaction gave up on.

use vstd::prelude::*;
use crate::file::PartitionId;

verus! {

/// One entry of the ledger: a partition and why it was parked.
#[derive(Debug, PartialEq, Eq)]
pub struct SkippedCompaction {
    pub partition_id: PartitionId,
    pub reason: String,
    pub skipped_at: i64,
}

/// Looks partitions up in the ledger of skipped compactions.
pub trait SkippedCompactionsSource {
    /// How the source describes itself.
    fn name(&self) -> String;

    /// Get the skipped-compaction record of a partition, if it has one.
    fn fetch(&self, partition: PartitionId) -> Option<SkippedCompaction>;
}

} // verus!
