//! Where the ids of the partitions to look at come from.

use vstd::prelude::*;
use crate::file::PartitionId;

verus! {

/// A source of partition ids for partitions that may need compacting.
///
/// A source filters cheaply, if at all: it does not look at the files of a
/// partition.
pub trait PartitionsSource {
    /// How the source describes itself.
    fn name(&self) -> String;

    /// Get partition ids.
    fn fetch(&self) -> Vec<PartitionId>;
}

/// A source that hands out the ids it was given.
#[derive(Debug)]
pub struct MockPartitionsSource {
    pub partitions: Vec<PartitionId>,
}

impl MockPartitionsSource {
    pub fn new(partitions: Vec<PartitionId>) -> (source: Self)
        ensures
            source.partitions == partitions,
    {
        MockPartitionsSource { partitions }
    }

    /// Replaces the ids to hand out.
    pub fn set(&mut self, partitions: Vec<PartitionId>)
        ensures
            final(self).partitions == partitions,
    {
        self.partitions = partitions;
    }

    /// The ids held, in their order.
    pub fn partitions(&self) -> (ids: Vec<PartitionId>)
        ensures
            ids@ == self.partitions@,
    {
        let mut ids: Vec<PartitionId> = Vec::new();
        let mut i: usize = 0;
        while i < self.partitions.len()
            invariant
                i <= self.partitions.len(),
                ids@ == self.partitions@.take(i as int),
            decreases self.partitions.len() - i,
        {
            ids.push(self.partitions[i]);
            i += 1;
        }
        ids
    }
}

impl PartitionsSource for MockPartitionsSource {
    fn name(&self) -> (name: String)
        ensures
            name@ == "mock"@,
    {
        "mock".to_owned()
    }

    fn fetch(&self) -> (ids: Vec<PartitionId>)
        ensures
            ids@ == self.partitions@,
    {
        self.partitions()
    }
}

} // verus!
