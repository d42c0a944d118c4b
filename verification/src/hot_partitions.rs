//! When a partition that was just written to is due for persistence.

use vstd::prelude::*;

verus! {

/// Triggers persistence of a partition when the estimated cost of
/// persisting it reaches a limit set in advance.
#[derive(Debug, PartialEq, Eq)]
pub struct HotPartitionPersister {
    pub max_estimated_persist_cost: usize,
    /// How many partitions were sent off as hot.
    pub persist_count: u64,
}

impl HotPartitionPersister {
    pub fn new(max_estimated_persist_cost: usize) -> (persister: Self)
        ensures
            persister.max_estimated_persist_cost == max_estimated_persist_cost,
            persister.persist_count == 0,
    {
        HotPartitionPersister { max_estimated_persist_cost, persist_count: 0 }
    }

    /// Looks at a partition right after a write, by its new cost estimate,
    /// and says whether it is to be marked as persisting and enqueued. If
    /// so, it is counted.
    ///
    /// After a write a partition holds data, so its estimate is not zero.
    pub fn observe(&mut self, cost_estimate: usize) -> (persist: bool)
        requires
            cost_estimate > 0,
        ensures
            persist == (cost_estimate >= old(self).max_estimated_persist_cost),
            final(self).max_estimated_persist_cost == old(self).max_estimated_persist_cost,
            final(self).persist_count == if !persist {
                old(self).persist_count
            } else if old(self).persist_count == u64::MAX {
                0
            } else {
                (old(self).persist_count + 1) as u64
            },
    {
        if cost_estimate >= self.max_estimated_persist_cost {
            self.persist_count = if self.persist_count == u64::MAX {
                0
            } else {
                self.persist_count + 1
            };
            true
        } else {
            false
        }
    }
}

} // verus!
