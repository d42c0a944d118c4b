//! Where the outcome of each partition ends up, and the counters kept of it.

use std::collections::HashMap;
use vstd::prelude::*;
use vstd::std_specs::hash::*;
use vstd::string::*;
use crate::error::{DynError, ErrorKind};
use crate::file::PartitionId;
use crate::timeout::{partition_result, reports, spec_partition_kind, TimeoutWithProgress};

verus! {

/// Records that a partition is done, successfully or not.
pub trait PartitionDoneSink {
    /// Everything recorded so far, oldest first.
    spec fn records(&self) -> Seq<(PartitionId, Result<(), DynError>)>;

    /// How the sink describes itself.
    spec fn spec_name(&self) -> Seq<char>;

    /// How the sink describes itself.
    fn name(&self) -> (name: String)
        ensures
            name@ == self.spec_name(),
    ;

    /// Records the outcome of one partition.
    fn record(&mut self, partition: PartitionId, res: Result<(), DynError>)
        ensures
            final(self).records() == old(self).records().push((partition, res)),
            final(self).spec_name() == old(self).spec_name(),
    ;
}

/// A sink that only remembers what it was told.
#[derive(Debug, PartialEq, Eq)]
pub struct MockPartitionDoneSink {
    pub log: Vec<(PartitionId, Result<(), DynError>)>,
}

/// What an outcome looks like from outside: the text of the error, if
/// there was one.
pub open spec fn outcome_text(res: Result<(), DynError>) -> Result<(), Seq<char>> {
    match res {
        Ok(_) => Ok(()),
        Err(e) => Err(e.spec_message()),
    }
}

/// The same for an outcome whose error is its text already.
pub open spec fn result_text(res: Result<(), String>) -> Result<(), Seq<char>> {
    match res {
        Ok(_) => Ok(()),
        Err(text) => Err(text@),
    }
}

/// The outcomes of a map, each by its text.
pub open spec fn outcome_texts(results: Map<i64, Result<(), String>>) -> Map<
    i64,
    Result<(), Seq<char>>,
> {
    results.map_values(|r: Result<(), String>| result_text(r))
}

/// For each partition that occurs in the records, its last outcome.
pub open spec fn last_outcomes(records: Seq<(PartitionId, Result<(), DynError>)>) -> Map<
    i64,
    Result<(), Seq<char>>,
>
    decreases records.len(),
{
    if records.len() == 0 {
        Map::empty()
    } else {
        last_outcomes(records.drop_last()).insert(
            records.last().0.id,
            outcome_text(records.last().1),
        )
    }
}

impl MockPartitionDoneSink {
    pub fn new() -> (sink: Self)
        ensures
            sink.log@.len() == 0,
            sink.records().len() == 0,
    {
        MockPartitionDoneSink { log: Vec::new() }
    }

    /// The last outcome recorded for each partition, by the partition's id,
    /// errors by their text.
    pub fn results(&self) -> (res: HashMap<i64, Result<(), String>>)
        ensures
            outcome_texts(res@) == last_outcomes(self.records()),
    {
        broadcast use group_hash_axioms;

        let mut res: HashMap<i64, Result<(), String>> = HashMap::new();
        let mut i: usize = 0;
        assert(self.log@.take(0) =~= Seq::empty());
        assert(outcome_texts(res@) =~= last_outcomes(self.log@.take(0)));
        while i < self.log.len()
            invariant
                i <= self.log.len(),
                outcome_texts(res@) == last_outcomes(self.log@.take(i as int)),
            decreases self.log.len() - i,
        {
            let ghost before = res@;
            let entry = &self.log[i];
            let outcome: Result<(), String> = match &entry.1 {
                Ok(_) => Ok(()),
                Err(e) => Err(e.message()),
            };
            res.insert(entry.0.id, outcome);
            proof {
                let seen = self.log@.take(i + 1);
                assert(seen.drop_last() =~= self.log@.take(i as int));
                assert(seen.last() == self.log@[i as int]);
                assert(result_text(outcome) == outcome_text(entry.1));
                assert(outcome_texts(res@) =~= outcome_texts(before).insert(
                    entry.0.id,
                    result_text(outcome),
                ));
            }
            i += 1;
        }
        assert(self.log@.take(self.log@.len() as int) =~= self.log@);
        res
    }
}

impl PartitionDoneSink for MockPartitionDoneSink {
    open spec fn records(&self) -> Seq<(PartitionId, Result<(), DynError>)> {
        self.log@
    }

    open spec fn spec_name(&self) -> Seq<char> {
        "mock"@
    }

    fn name(&self) -> (name: String) {
        "mock".to_owned()
    }

    fn record(&mut self, partition: PartitionId, res: Result<(), DynError>) {
        self.log.push((partition, res));
    }
}

/// A counter after one more event. It starts over past `u64::MAX`.
pub open spec fn bump(count: u64) -> u64 {
    if count == u64::MAX {
        0
    } else {
        (count + 1) as u64
    }
}

/// Counts of finished partitions: one for successes, and one for each kind
/// of error, held under the kind's index.
#[derive(Debug, PartialEq, Eq)]
pub struct PartitionDoneMetrics {
    ok_counter: u64,
    error_counter: HashMap<usize, u64>,
}

impl PartitionDoneMetrics {
    /// Successes counted so far.
    pub closed spec fn spec_ok_count(self) -> u64 {
        self.ok_counter
    }

    /// Errors of `kind` counted so far. A kind that has no counter has
    /// none counted.
    pub closed spec fn spec_error_count(self, kind: ErrorKind) -> u64 {
        if self.error_counter@.contains_key(kind.spec_index() as usize) {
            self.error_counter@[kind.spec_index() as usize]
        } else {
            0
        }
    }

    /// Whether a counter was made for `kind`.
    pub closed spec fn has_counter(self, kind: ErrorKind) -> bool {
        self.error_counter@.contains_key(kind.spec_index() as usize)
    }

    /// The counts after one more outcome of kind `outcome` (`None`: a
    /// success): exactly one counter moves, by one.
    pub open spec fn counted(self, before: Self, outcome: Option<ErrorKind>) -> bool {
        &&& self.spec_ok_count() == if outcome is None {
            bump(before.spec_ok_count())
        } else {
            before.spec_ok_count()
        }
        &&& forall|kind: ErrorKind|
            #[trigger] self.spec_error_count(kind) == if outcome == Some(kind) {
                bump(before.spec_error_count(kind))
            } else {
                before.spec_error_count(kind)
            }
        &&& forall|kind: ErrorKind| before.has_counter(kind) ==> #[trigger] self.has_counter(kind)
    }

    /// All counters at zero, one made for each kind of error.
    pub fn new() -> (metrics: Self)
        ensures
            metrics.spec_ok_count() == 0,
            forall|kind: ErrorKind| #[trigger] metrics.spec_error_count(kind) == 0,
            forall|kind: ErrorKind| #[trigger] metrics.has_counter(kind),
    {
        broadcast use group_hash_axioms;

        let kinds = ErrorKind::variants();
        let mut error_counter: HashMap<usize, u64> = HashMap::new();
        let mut i: usize = 0;
        while i < kinds.len()
            invariant
                kinds@ == ErrorKind::spec_variants(),
                forall|kind: ErrorKind| #[trigger] kinds@[kind.spec_index()] == kind,
                i <= kinds.len(),
                forall|k: usize| #[trigger] error_counter@.contains_key(k) <==> k < i,
                forall|k: usize| #[trigger] error_counter@.contains_key(k) ==> error_counter@[k] == 0,
            decreases kinds.len() - i,
        {
            let kind = kinds[i];
            assert(kinds@[kind.spec_index()] == kind);
            error_counter.insert(kind.index(), 0);
            i += 1;
        }
        PartitionDoneMetrics { ok_counter: 0, error_counter }
    }

    /// Counts one outcome: a success, or an error under its kind.
    pub fn observe(&mut self, res: &Result<(), DynError>)
        ensures
            final(self).counted(
                *old(self),
                match *res {
                    Ok(_) => None,
                    Err(e) => Some(e.spec_classify()),
                },
            ),
    {
        broadcast use group_hash_axioms;

        match res {
            Ok(_) => {
                self.ok_counter = if self.ok_counter == u64::MAX {
                    0
                } else {
                    self.ok_counter + 1
                };
            },
            Err(e) => {
                let kind = e.classify();
                let count = self.error_count(kind);
                let next: u64 = if count == u64::MAX {
                    0
                } else {
                    count + 1
                };
                self.error_counter.insert(kind.index(), next);
                assert forall|other: ErrorKind| other.spec_index() == kind.spec_index() implies other
                    == kind by {}
            },
        }
    }

    /// Successes counted so far.
    pub fn ok_count(&self) -> (count: u64)
        ensures
            count == self.spec_ok_count(),
    {
        self.ok_counter
    }

    /// Errors of `kind` counted so far.
    pub fn error_count(&self, kind: ErrorKind) -> (count: u64)
        ensures
            count == self.spec_error_count(kind),
    {
        broadcast use group_hash_axioms;

        let index = kind.index();
        match self.error_counter.get(&index) {
            Some(count) => *count,
            None => 0,
        }
    }
}

/// A sink that counts each outcome and then hands it on to another sink.
#[derive(Debug, PartialEq, Eq)]
pub struct MetricsPartitionDoneSinkWrapper<T: PartitionDoneSink> {
    pub metrics: PartitionDoneMetrics,
    pub inner: T,
}

impl<T: PartitionDoneSink> MetricsPartitionDoneSinkWrapper<T> {
    pub fn new(inner: T) -> (sink: Self)
        ensures
            sink.inner == inner,
            sink.metrics.spec_ok_count() == 0,
            forall|kind: ErrorKind| #[trigger] sink.metrics.spec_error_count(kind) == 0,
            forall|kind: ErrorKind| #[trigger] sink.metrics.has_counter(kind),
    {
        MetricsPartitionDoneSinkWrapper { metrics: PartitionDoneMetrics::new(), inner }
    }

    /// Counts `res`, then records it with the inner sink.
    pub fn record_counted(&mut self, partition: PartitionId, res: Result<(), DynError>)
        ensures
            final(self).metrics.counted(
                old(self).metrics,
                match res {
                    Ok(_) => None,
                    Err(e) => Some(e.spec_classify()),
                },
            ),
            final(self).inner.records() == old(self).inner.records().push((partition, res)),
            final(self).inner.spec_name() == old(self).inner.spec_name(),
    {
        self.metrics.observe(&res);
        self.inner.record(partition, res);
    }
}

impl<T: PartitionDoneSink> PartitionDoneSink for MetricsPartitionDoneSinkWrapper<T> {
    open spec fn records(&self) -> Seq<(PartitionId, Result<(), DynError>)> {
        self.inner.records()
    }

    open spec fn spec_name(&self) -> Seq<char> {
        "metrics("@ + self.inner.spec_name() + ")"@
    }

    fn name(&self) -> (name: String) {
        let mut name = "metrics(".to_owned();
        let inner = self.inner.name();
        name.append(inner.as_str());
        name.append(")");
        name
    }

    /// Counts the outcome: a success under the ok counter, an error under
    /// the counter of its kind, no other counter moving. Then the inner sink
    /// gets the outcome as it came.
    fn record(&mut self, partition: PartitionId, res: Result<(), DynError>)
        ensures
            final(self).metrics.counted(
                old(self).metrics,
                match res {
                    Ok(_) => None,
                    Err(e) => Some(e.spec_classify()),
                },
            ),
            final(self).inner.records() == old(self).inner.records().push((partition, res)),
            final(self).inner.spec_name() == old(self).inner.spec_name(),
    {
        self.record_counted(partition, res);
    }
}

/// Reports the end of one attempt on a partition: the sink gets exactly one
/// new record, for this partition, and nothing it held before changes.
pub fn record_outcome<S: PartitionDoneSink>(
    sink: &mut S,
    partition: PartitionId,
    outcome: TimeoutWithProgress<Result<(), DynError>>,
)
    ensures
        final(sink).records().len() == old(sink).records().len() + 1,
        final(sink).records().drop_last() == old(sink).records(),
        final(sink).records().last().0 == partition,
        final(sink).records().last().1 is Ok <==> spec_partition_kind(outcome) is None,
        final(sink).records().last().1 matches Err(e) ==> spec_partition_kind(outcome) == Some(
            e.spec_classify(),
        ),
        reports(final(sink).records().last().1, outcome),
{
    let res = partition_result(outcome);
    sink.record(partition, res);
    assert(sink.records().drop_last() =~= old(sink).records());
}

} // verus!
