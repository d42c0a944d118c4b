//! Abstract plans for rewriting files, and the steps of running one under
//! the job semaphore.

use vstd::prelude::*;
use crate::classify::{FileToSplit, FilesToSplitOrCompact};
use crate::error::DynError;
use crate::file::{CompactionLevel, ParquetFile, ParquetFileParams, PartitionInfo};
use crate::permits::{compute_permits, spec_compute_permits};

verus! {

/// An input of a plan: the file, and the id under which its data was staged
/// in the scratchpad.
#[derive(Debug, PartialEq, Eq)]
pub struct PlanFile {
    pub file: ParquetFile,
    pub staged_id: u128,
}

/// What to do with some files, before any query plan exists for it.
#[derive(Debug, PartialEq, Eq)]
pub enum PlanIR {
    /// Merge the files into one stream of output at `target_level`.
    Compact { files: Vec<PlanFile>, target_level: CompactionLevel },
    /// Cut one file after each of `split_times`.
    Split { file: PlanFile, split_times: Vec<i64>, target_level: CompactionLevel },
    /// Nothing to do.
    Empty { reason: String },
}

impl PlanIR {
    /// How many files the plan writes: none for an empty plan, one for a
    /// compaction, one more than there are cuts for a split.
    pub open spec fn spec_n_output_files(self) -> nat {
        match self {
            PlanIR::Compact { .. } => 1,
            PlanIR::Split { split_times, .. } => split_times@.len() + 1,
            PlanIR::Empty { .. } => 0,
        }
    }

    /// How many files the plan writes, as far as `usize` can say.
    pub fn n_output_files(&self) -> (n: usize)
        ensures
            n == if self.spec_n_output_files() > usize::MAX {
                usize::MAX as nat
            } else {
                self.spec_n_output_files()
            },
            !(self is Empty) ==> n >= 1,
    {
        match self {
            PlanIR::Compact { .. } => 1,
            PlanIR::Split { split_times, .. } => split_times.len().saturating_add(1),
            PlanIR::Empty { .. } => 0,
        }
    }

    /// Whether there is nothing to do.
    pub fn is_none(&self) -> (none: bool)
        ensures
            none == (self is Empty),
    {
        match self {
            PlanIR::Empty { .. } => true,
            _ => false,
        }
    }

    /// The level of the files that the plan writes.
    pub fn target_level(&self) -> (level: Option<CompactionLevel>)
        ensures
            level == match *self {
                PlanIR::Compact { target_level, .. } => Some(target_level),
                PlanIR::Split { target_level, .. } => Some(target_level),
                PlanIR::Empty { .. } => None,
            },
    {
        match self {
            PlanIR::Compact { target_level, .. } => Some(*target_level),
            PlanIR::Split { target_level, .. } => Some(*target_level),
            PlanIR::Empty { .. } => None,
        }
    }
}

/// The plan that cuts `entry`, staged under `staged_id`.
pub open spec fn is_split_plan(
    plan: PlanIR,
    entry: FileToSplit,
    staged_id: u128,
    level: CompactionLevel,
) -> bool {
    plan matches PlanIR::Split { file, split_times, target_level } && file.file == entry.file
        && file.staged_id == staged_id && split_times == entry.split_times && target_level == level
}

/// The plan that merges `files`, staged under `staged_ids`; the empty plan
/// where there is no file to merge.
pub open spec fn is_compact_plan(
    plan: PlanIR,
    files: Seq<ParquetFile>,
    staged_ids: Seq<u128>,
    level: CompactionLevel,
) -> bool {
    if files.len() == 0 {
        plan is Empty
    } else {
        plan matches PlanIR::Compact { files: inputs, target_level } && target_level == level
            && inputs@.len() == files.len() && forall|k: int|
            0 <= k < files.len() ==> (#[trigger] inputs@[k]).file == files[k] && inputs@[k].staged_id
                == staged_ids[k]
    }
}

/// The plans for rewriting the files of a branch: one split for each file
/// to cut, in their order, then one compaction of the files to merge.
pub open spec fn are_plans(
    plans: Seq<PlanIR>,
    work: FilesToSplitOrCompact,
    staged_ids: Seq<u128>,
    level: CompactionLevel,
) -> bool {
    &&& plans.len() == work.split@.len() + 1
    &&& forall|k: int|
        0 <= k < work.split@.len() ==> is_split_plan(#[trigger] plans[k], work.split@[k], staged_ids[k], level)
    &&& is_compact_plan(
        plans[work.split@.len() as int],
        work.compact@,
        staged_ids.skip(work.split@.len() as int),
        level,
    )
}

/// Turns the files to rewrite into plans. `input_uuids_inpad` holds, file by
/// file in the order of `split_or_compact`'s files, the ids under which the
/// scratchpad staged them; with any other number of ids no plan is made.
pub fn create_plans(
    partition_info: &PartitionInfo,
    target_level: CompactionLevel,
    split_or_compact: FilesToSplitOrCompact,
    input_uuids_inpad: Vec<u128>,
) -> (res: Result<Vec<PlanIR>, DynError>)
    ensures
        res is Ok <==> input_uuids_inpad@.len() == split_or_compact.spec_files().len(),
        res matches Ok(plans) ==> are_plans(plans@, split_or_compact, input_uuids_inpad@, target_level),
        res matches Err(e) ==> e is Planner,
{
    let FilesToSplitOrCompact { split, compact } = split_or_compact;
    if split.len() > input_uuids_inpad.len() || input_uuids_inpad.len() - split.len() != compact.len() {
        return Err(DynError::Planner("one staged object is needed for each input file".to_owned()));
    }
    let ghost entries = split@;
    let ghost merged = compact@;
    let n_split = split.len();
    let n_ids = input_uuids_inpad.len();
    let mut plans: Vec<PlanIR> = Vec::new();
    for entry in it: split
        invariant
            it.seq() == entries,
            n_split == entries.len(),
            n_split + merged.len() == input_uuids_inpad@.len(),
            plans@.len() == it.index(),
            forall|k: int|
                0 <= k < it.index() ==> is_split_plan(
                    #[trigger] plans@[k],
                    entries[k],
                    input_uuids_inpad@[k],
                    target_level,
                ),
    {
        let FileToSplit { file, split_times } = entry;
        let staged_id = input_uuids_inpad[plans.len()];
        plans.push(PlanIR::Split { file: PlanFile { file, staged_id }, split_times, target_level });
    }
    if compact.len() == 0 {
        plans.push(PlanIR::Empty { reason: "no files to compact".to_owned() });
    } else {
        let mut inputs: Vec<PlanFile> = Vec::new();
        for file in it: compact
            invariant
                it.seq() == merged,
                n_ids == input_uuids_inpad@.len(),
                n_split + merged.len() == input_uuids_inpad@.len(),
                inputs@.len() == it.index(),
                forall|k: int|
                    0 <= k < it.index() ==> (#[trigger] inputs@[k]).file == merged[k] && inputs@[k].staged_id
                        == input_uuids_inpad@[n_split + k],
        {
            assert(it.index() < merged.len());
            let staged_id = input_uuids_inpad[n_split + inputs.len()];
            inputs.push(PlanFile { file, staged_id });
        }
        plans.push(PlanIR::Compact { files: inputs, target_level });
    }
    Ok(plans)
}

/// How many files the first `n` plans write together.
pub open spec fn output_files(plans: Seq<PlanIR>, n: int) -> nat
    decreases n,
{
    if n <= 0 {
        0
    } else {
        output_files(plans, n - 1) + plans[n - 1].spec_n_output_files()
    }
}

/// How many files the plans write together, as far as `usize` can say; it
/// is the room to make for what they return.
pub fn total_output_files(plans: &Vec<PlanIR>) -> (total: usize)
    ensures
        total == if output_files(plans@, plans@.len() as int) > usize::MAX {
            usize::MAX as nat
        } else {
            output_files(plans@, plans@.len() as int)
        },
{
    let mut total: usize = 0;
    let mut i: usize = 0;
    while i < plans.len()
        invariant
            i <= plans.len(),
            total == if output_files(plans@, i as int) > usize::MAX {
                usize::MAX as nat
            } else {
                output_files(plans@, i as int)
            },
        decreases plans.len() - i,
    {
        total = total.saturating_add(plans[i].n_output_files());
        i += 1;
    }
    total
}

/// The plans that have something to do, in their order.
pub open spec fn spec_runnable(plans: Seq<PlanIR>) -> Seq<PlanIR> {
    plans.filter(|plan: PlanIR| !(plan is Empty))
}

/// Drops the empty plans: they contribute nothing.
pub fn runnable_plans(plans: Vec<PlanIR>) -> (runnable: Vec<PlanIR>)
    ensures
        runnable@ == spec_runnable(plans@),
        forall|k: int| 0 <= k < runnable@.len() ==> !((#[trigger] runnable@[k]) is Empty),
{
    let ghost all = plans@;
    let mut runnable: Vec<PlanIR> = Vec::new();
    proof {
        reveal(Seq::filter);
        assert(all.take(0) =~= Seq::<PlanIR>::empty());
    }
    for plan in it: plans
        invariant
            it.seq() == all,
            runnable@ == spec_runnable(all.take(it.index() as int)),
            forall|k: int| 0 <= k < runnable@.len() ==> !((#[trigger] runnable@[k]) is Empty),
    {
        proof {
            reveal(Seq::filter);
            let grown = all.take(it.index() + 1);
            assert(grown.drop_last() =~= all.take(it.index() as int));
            assert(grown.last() == plan);
        }
        if !plan.is_none() {
            runnable.push(plan);
        }
    }
    assert(all.take(all.len() as int) =~= all);
    runnable
}

/// Where the running of one plan stands.
#[derive(Clone, Copy, Debug, PartialEq, Eq, Structural)]
pub enum JobPhase {
    /// Waiting for the permits it asked for.
    AwaitingPermits,
    /// Holding permits; the query plan is being made.
    Planning,
    /// Holding permits; the plan runs and writes its files to the scratchpad.
    Running,
    /// The work has ended; the permits are being given back.
    Releasing,
    /// The permits are back; the result has been handed out.
    Done,
}

/// What the executor is told about the outside world.
#[derive(Debug, PartialEq, Eq)]
pub enum JobEvent {
    /// The semaphore granted the permits.
    PermitsAcquired,
    /// The query planner answered.
    Planned(Result<(), DynError>),
    /// The plan ran to its end.
    Finished(Result<Vec<ParquetFileParams>, DynError>),
    /// The permits are back with the semaphore.
    PermitsReleased,
}

/// What the executor asks of the outside world.
#[derive(Debug, PartialEq, Eq)]
pub enum JobAction {
    /// Draw this many permits from the job semaphore.
    AcquirePermits(u32),
    /// Make the query plan; it may allocate, so it runs under the permits.
    CreatePlan,
    /// Run the plan and stream its output into files.
    RunPlan,
    /// Give the permits back, before any further I/O.
    ReleasePermits(u32),
    /// The job is over, with this result.
    Return(Result<Vec<ParquetFileParams>, DynError>),
    /// The event does not belong to this phase; nothing changed.
    Ignore,
}

/// The running of one plan: acquire permits, plan, run, release, return.
#[derive(Debug, PartialEq, Eq)]
pub struct PlanExecution {
    pub phase: JobPhase,
    pub permits: u32,
    pub outcome: Option<Result<Vec<ParquetFileParams>, DynError>>,
}

impl PlanExecution {
    /// Whether the job holds its permits in this phase.
    pub open spec fn holds_permits(self) -> bool {
        self.phase == JobPhase::Planning || self.phase == JobPhase::Running || self.phase
            == JobPhase::Releasing
    }

    /// The phase that follows when `event` arrives in `phase`; `None` where
    /// the event does not belong there.
    pub open spec fn spec_next_phase(phase: JobPhase, event: JobEvent) -> Option<JobPhase> {
        match (phase, event) {
            (JobPhase::AwaitingPermits, JobEvent::PermitsAcquired) => Some(JobPhase::Planning),
            (JobPhase::Planning, JobEvent::Planned(Ok(_))) => Some(JobPhase::Running),
            (JobPhase::Planning, JobEvent::Planned(Err(_))) => Some(JobPhase::Releasing),
            (JobPhase::Running, JobEvent::Finished(_)) => Some(JobPhase::Releasing),
            (JobPhase::Releasing, JobEvent::PermitsReleased) => Some(JobPhase::Done),
            _ => None,
        }
    }

    /// The result that the job holds after `event`: that of the planner if
    /// it failed, that of the run once it ended.
    pub open spec fn spec_next_outcome(self, event: JobEvent) -> Option<
        Result<Vec<ParquetFileParams>, DynError>,
    > {
        match (self.phase, event) {
            (JobPhase::Planning, JobEvent::Planned(Err(e))) => Some(Err(e)),
            (JobPhase::Running, JobEvent::Finished(res)) => Some(res),
            (JobPhase::Releasing, JobEvent::PermitsReleased) => None,
            _ => self.outcome,
        }
    }

    /// Begins the job: asks for the permits that a partition with
    /// `column_count` columns needs out of `total_permits`.
    pub fn start(total_permits: usize, column_count: usize) -> (res: (PlanExecution, JobAction))
        ensures
            res.0.phase == JobPhase::AwaitingPermits,
            res.0.permits == spec_compute_permits(total_permits, column_count),
            res.0.outcome is None,
            res.1 matches JobAction::AcquirePermits(n) && n == res.0.permits,
    {
        let permits = compute_permits(total_permits, column_count);
        (
            PlanExecution { phase: JobPhase::AwaitingPermits, permits, outcome: None },
            JobAction::AcquirePermits(permits),
        )
    }

    /// Takes one event and says what to do next.
    ///
    /// The plan is made and run only while the permits are held; they are
    /// given back whether the work failed or not, and the result is handed
    /// out only after that.
    pub fn step(self, event: JobEvent) -> (res: (PlanExecution, JobAction))
        ensures
            res.0.permits == self.permits,
            Self::spec_next_phase(self.phase, event) matches Some(phase) ==> res.0.phase == phase
                && res.0.outcome == self.spec_next_outcome(event),
            Self::spec_next_phase(self.phase, event) is None ==> res.0 == self && res.1 is Ignore,
            res.1 is CreatePlan <==> (self.phase == JobPhase::AwaitingPermits && event is PermitsAcquired),
            res.1 is RunPlan <==> (self.phase == JobPhase::Planning && event matches JobEvent::Planned(
                Ok(_),
            )),
            res.1 matches JobAction::ReleasePermits(n) ==> n == self.permits && res.0.phase
                == JobPhase::Releasing,
            res.0.phase == JobPhase::Releasing && self.phase != JobPhase::Releasing ==> res.1
                is ReleasePermits,
            res.1 matches JobAction::Return(result) ==> self.phase == JobPhase::Releasing && event
                is PermitsReleased && res.0.phase == JobPhase::Done && self.outcome == Some(result),
            res.0.phase == JobPhase::Done && self.phase != JobPhase::Done && self.outcome is Some
                ==> res.1 is Return,
            !(res.1 is AcquirePermits),
            (res.1 is CreatePlan || res.1 is RunPlan) ==> res.0.holds_permits(),
    {
        let PlanExecution { phase, permits, outcome } = self;
        match (phase, event) {
            (JobPhase::AwaitingPermits, JobEvent::PermitsAcquired) => (
                PlanExecution { phase: JobPhase::Planning, permits, outcome },
                JobAction::CreatePlan,
            ),
            (JobPhase::Planning, JobEvent::Planned(Ok(_))) => (
                PlanExecution { phase: JobPhase::Running, permits, outcome },
                JobAction::RunPlan,
            ),
            (JobPhase::Planning, JobEvent::Planned(Err(e))) => (
                PlanExecution { phase: JobPhase::Releasing, permits, outcome: Some(Err(e)) },
                JobAction::ReleasePermits(permits),
            ),
            (JobPhase::Running, JobEvent::Finished(res)) => (
                PlanExecution { phase: JobPhase::Releasing, permits, outcome: Some(res) },
                JobAction::ReleasePermits(permits),
            ),
            (JobPhase::Releasing, JobEvent::PermitsReleased) => {
                let action = match outcome {
                    Some(result) => JobAction::Return(result),
                    None => JobAction::Ignore,
                };
                (PlanExecution { phase: JobPhase::Done, permits, outcome: None }, action)
            },
            (phase, _) => (PlanExecution { phase, permits, outcome }, JobAction::Ignore),
        }
    }
}

} // verus!
