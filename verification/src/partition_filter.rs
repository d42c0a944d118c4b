//! Filters that judge a partition by its id alone.

use std::collections::HashSet;
use vstd::prelude::*;
use vstd::std_specs::hash::*;
use crate::file::PartitionId;

verus! {

/// Lets through the partitions whose id is in a given set.
#[derive(Debug)]
pub struct ByIdPartitionFilter {
    pub ids: HashSet<i64>,
}

impl ByIdPartitionFilter {
    pub fn new(ids: HashSet<i64>) -> (filter: Self)
        ensures
            filter.ids == ids,
    {
        ByIdPartitionFilter { ids }
    }

    /// How the filter describes itself.
    pub fn name(&self) -> (name: String)
        ensures
            name@ == "by_id"@,
    {
        "by_id".to_owned()
    }

    /// Whether the partition is one of those asked for.
    pub fn apply(&self, partition_id: PartitionId) -> (pass: bool)
        ensures
            pass == self.ids@.contains(partition_id.id),
    {
        broadcast use group_hash_axioms;

        self.ids.contains(&partition_id.id)
    }
}

} // verus!
