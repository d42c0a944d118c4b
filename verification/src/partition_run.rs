//! One attempt on one partition, from the start of its compaction to the
//! cleaning of its scratchpad.

use vstd::prelude::*;
use crate::error::DynError;
use crate::file::PartitionId;
use crate::timeout::{partition_result, reports, TimeoutWithProgress};

verus! {

/// Where an attempt stands.
#[derive(Clone, Copy, Debug, PartialEq, Eq, Structural)]
pub enum RunPhase {
    /// The partition is being compacted, under its deadline.
    Compacting,
    /// The outcome is being recorded with the done sink.
    Recording,
    /// The scratchpad is being emptied.
    Cleaning,
    /// Nothing is left to do.
    Done,
}

/// What happened outside.
#[derive(Debug, PartialEq, Eq)]
pub enum RunEvent {
    /// The compaction ended, or its deadline passed.
    AttemptEnded(TimeoutWithProgress<Result<(), DynError>>),
    /// The done sink has the outcome.
    Recorded,
    /// The scratchpad is empty.
    ScratchpadCleaned,
}

/// What to do outside.
#[derive(Debug, PartialEq, Eq)]
pub enum RunAction {
    /// Tell the done sink how the partition ended.
    Record { partition: PartitionId, result: Result<(), DynError> },
    /// Empty the scratchpad, whatever the outcome was.
    CleanScratchpad,
    /// The attempt is over.
    Done,
    /// The event does not belong to this phase; nothing changed.
    Ignore,
}

/// One attempt on one partition.
#[derive(Clone, Copy, Debug, PartialEq, Eq, Structural)]
pub struct PartitionRun {
    pub partition_id: PartitionId,
    pub phase: RunPhase,
}

/// The phase that follows when `event` arrives in `phase`.
pub open spec fn next_phase(phase: RunPhase, event: RunEvent) -> RunPhase {
    match (phase, event) {
        (RunPhase::Compacting, RunEvent::AttemptEnded(_)) => RunPhase::Recording,
        (RunPhase::Recording, RunEvent::Recorded) => RunPhase::Cleaning,
        (RunPhase::Cleaning, RunEvent::ScratchpadCleaned) => RunPhase::Done,
        _ => phase,
    }
}

/// Whether `event`, arriving in `phase`, makes the attempt record an
/// outcome.
pub open spec fn records(phase: RunPhase, event: RunEvent) -> bool {
    phase == RunPhase::Compacting && event is AttemptEnded
}

/// `result` is what the attempt records when `event` ends its compaction.
pub open spec fn recorded_for(event: RunEvent, result: Result<(), DynError>) -> bool {
    match event {
        RunEvent::AttemptEnded(outcome) => reports(result, outcome),
        _ => false,
    }
}

/// The phase that an attempt is in after all of `events`, starting from
/// `phase`.
pub open spec fn phase_after(phase: RunPhase, events: Seq<RunEvent>) -> RunPhase
    decreases events.len(),
{
    if events.len() == 0 {
        phase
    } else {
        next_phase(phase_after(phase, events.drop_last()), events.last())
    }
}

/// How many outcomes an attempt records over all of `events`, starting from
/// `phase`.
pub open spec fn records_made(phase: RunPhase, events: Seq<RunEvent>) -> nat
    decreases events.len(),
{
    if events.len() == 0 {
        0
    } else {
        records_made(phase, events.drop_last()) + if records(
            phase_after(phase, events.drop_last()),
            events.last(),
        ) {
            1nat
        } else {
            0nat
        }
    }
}

impl PartitionRun {
    /// Begins an attempt on a partition: its compaction is to be started.
    pub fn new(partition_id: PartitionId) -> (run: PartitionRun)
        ensures
            run.partition_id == partition_id,
            run.phase == RunPhase::Compacting,
    {
        PartitionRun { partition_id, phase: RunPhase::Compacting }
    }

    /// Takes one event and says what to do next.
    ///
    /// The end of the compaction is recorded, then the scratchpad is
    /// emptied, then the attempt is over.
    pub fn step(self, event: RunEvent) -> (res: (PartitionRun, RunAction))
        ensures
            res.0.partition_id == self.partition_id,
            res.0.phase == next_phase(self.phase, event),
            res.1 is Record <==> records(self.phase, event),
            res.1 matches RunAction::Record { partition, result } ==> partition == self.partition_id
                && recorded_for(event, result),
            res.1 is CleanScratchpad <==> (self.phase == RunPhase::Recording && event is Recorded),
            res.1 is Done <==> (self.phase == RunPhase::Cleaning && event is ScratchpadCleaned),
            res.1 is Ignore <==> res.0.phase == self.phase,
    {
        let PartitionRun { partition_id, phase } = self;
        match (phase, event) {
            (RunPhase::Compacting, RunEvent::AttemptEnded(outcome)) => (
                PartitionRun { partition_id, phase: RunPhase::Recording },
                RunAction::Record { partition: partition_id, result: partition_result(outcome) },
            ),
            (RunPhase::Recording, RunEvent::Recorded) => (
                PartitionRun { partition_id, phase: RunPhase::Cleaning },
                RunAction::CleanScratchpad,
            ),
            (RunPhase::Cleaning, RunEvent::ScratchpadCleaned) => (
                PartitionRun { partition_id, phase: RunPhase::Done },
                RunAction::Done,
            ),
            (phase, _) => (PartitionRun { partition_id, phase }, RunAction::Ignore),
        }
    }
}

/// Whatever happens, an attempt records at most one outcome; and once its
/// compaction has ended, it has recorded exactly one.
pub proof fn lemma_one_record_per_attempt(events: Seq<RunEvent>)
    ensures
        records_made(RunPhase::Compacting, events) <= 1,
        phase_after(RunPhase::Compacting, events) != RunPhase::Compacting ==> records_made(
            RunPhase::Compacting,
            events,
        ) == 1,
        phase_after(RunPhase::Compacting, events) == RunPhase::Compacting ==> records_made(
            RunPhase::Compacting,
            events,
        ) == 0,
    decreases events.len(),
{
    if events.len() > 0 {
        lemma_one_record_per_attempt(events.drop_last());
    }
}

/// An attempt that is over has emptied its scratchpad after recording its
/// outcome: it went through every phase before.
pub proof fn lemma_done_went_through_cleaning(events: Seq<RunEvent>)
    requires
        phase_after(RunPhase::Compacting, events) == RunPhase::Done,
    ensures
        exists|n: int|
            0 < n < events.len() && phase_after(RunPhase::Compacting, #[trigger] events.take(n))
                == RunPhase::Cleaning,
        records_made(RunPhase::Compacting, events) == 1,
    decreases events.len(),
{
    lemma_one_record_per_attempt(events);
    let shorter = events.drop_last();
    assert(events.len() > 0);
    assert(shorter =~= events.take(events.len() - 1));
    if phase_after(RunPhase::Compacting, shorter) == RunPhase::Done {
        lemma_done_went_through_cleaning(shorter);
        let n = choose|n: int|
            0 < n < shorter.len() && phase_after(RunPhase::Compacting, #[trigger] shorter.take(n))
                == RunPhase::Cleaning;
        assert(events.take(n) =~= shorter.take(n));
    } else {
        assert(phase_after(RunPhase::Compacting, shorter) == RunPhase::Cleaning);
        assert(shorter.len() > 0);
    }
}

} // verus!
