//! The compaction of one partition, as a machine that is told what happened
//! outside and answers what to do next.
//!
//! A partition is compacted in rounds. Each round takes up some of the
//! files, divides them into branches that do not overlap in time, and works
//! through the branches one by one: classify, rewrite what needs rewriting,
//! publish, commit, signal progress. Everything that touches the catalog,
//! an object store or the query engine happens outside: the machine hands
//! out an [`Action`], and is told the outcome as an [`Event`].

use vstd::prelude::*;
use crate::catalog::{
    fingerprint,
    materialize_created,
    published,
    upgrade_files,
    upgraded,
    with_public_ids,
    CommitRequest,
    SavedParquetFileState,
};
use crate::classify::{
    are_split_times,
    lemma_kept_files_are_above_start,
    of_class,
    split_files,
    FileClass,
    FileClassification,
    FileClassifier,
    FilesForProgress,
    FilesToSplitOrCompact,
};
use crate::error::DynError;
use crate::file::{
    clone_files,
    file_from_params,
    CompactionLevel,
    ParquetFile,
    ParquetFileParams,
    ParquetFilePath,
    PartitionInfo,
};
use crate::plan::{
    are_plans,
    create_plans,
    runnable_plans,
    spec_runnable,
    total_output_files,
    PlanIR,
};
use crate::round::{
    divide_initial,
    is_division,
    round_split,
    RoundInfo,
    RoundInfoSource,
};

verus! {

/// What the compaction of a partition is set up with.
#[derive(Clone, Copy, Debug, PartialEq, Eq, Structural)]
pub struct CompactionConfig {
    pub round_info_source: RoundInfoSource,
    pub classifier: FileClassifier,
}

/// Where the compaction of a partition stands.
#[derive(Clone, Copy, Debug, PartialEq, Eq, Structural)]
pub enum Phase {
    /// The partition filter is deciding whether another round is due.
    PartitionFilter,
    /// The post-classification filter is deciding whether the branch has
    /// work that can be done.
    PostClassificationFilter,
    /// The inputs of the branch are being staged in the scratchpad.
    Staging,
    /// A plan is being run.
    RunningPlan,
    /// The files written are being copied to the durable object store.
    Publishing,
    /// The staged inputs are being removed from the scratchpad.
    Cleaning,
    /// The files of the partition are being read from the catalog again.
    FetchingCatalogState,
    /// The catalog is recording the outcome of the branch.
    Committing,
    /// Progress is being signalled to whoever watches the deadline.
    SignallingProgress,
    /// The partition is done, for better or worse.
    Finished,
}

/// What happened outside.
#[derive(Debug, PartialEq, Eq)]
pub enum Event {
    /// A filter gave its verdict, or failed.
    FilterVerdict(Result<bool, DynError>),
    /// The inputs are staged, under these ids, in the order of their paths.
    Staged(Vec<u128>),
    /// The plan handed out last ended.
    PlanFinished(Result<Vec<ParquetFileParams>, DynError>),
    /// The outputs are public, under these ids, in the order of their paths.
    Published(Vec<u128>),
    /// The staged inputs are gone from the scratchpad.
    Cleaned,
    /// These are the files the catalog holds for the partition now.
    CatalogState(Vec<ParquetFile>),
    /// The commit went through; the files created got these ids, in order.
    Committed(Vec<i64>),
    /// The progress signal was sent, or could not be.
    ProgressSent(bool),
}

/// What to do outside.
#[derive(Debug, PartialEq, Eq)]
pub enum Action {
    /// Ask the partition filter about the files of the round.
    ApplyPartitionFilter,
    /// Ask the post-classification filter about the files to make progress
    /// on.
    ApplyPostClassificationFilter,
    /// Copy these objects into the scratchpad.
    LoadToScratchpad { paths: Vec<ParquetFilePath> },
    /// Run this plan under the job semaphore.
    ExecutePlan { plan: PlanIR },
    /// Copy these objects from the scratchpad to the durable store.
    MakePublic { paths: Vec<ParquetFilePath> },
    /// Remove these objects from the scratchpad.
    CleanFromScratchpad { paths: Vec<ParquetFilePath> },
    /// Read the files of the partition from the catalog.
    FetchCatalogState,
    /// Commit this change. `catalog_changed` says that a file the branch
    /// started from is gone from the catalog: some other writer was at work.
    Commit { request: CommitRequest, catalog_changed: bool },
    /// Tell the watcher of the deadline that work was committed.
    SignalProgress,
    /// Stop: the partition is done, with this result.
    Finish(Result<(), DynError>),
    /// The event does not belong to this phase; nothing changed.
    Ignore,
}

/// The branch in work: what it started from and what has come of it so far.
#[derive(Debug, PartialEq, Eq)]
pub struct BranchWork {
    /// The files of the branch.
    pub input: Vec<ParquetFile>,
    /// Their identities when the branch was taken up.
    pub saved_state: SavedParquetFileState,
    /// Where they lie in the object store.
    pub input_paths: Vec<ParquetFilePath>,
    pub target_level: CompactionLevel,
    pub files_to_keep: Vec<ParquetFile>,
    pub upgrade: Vec<ParquetFile>,
    /// The files to rewrite, until plans are made of them.
    pub split_or_compact: FilesToSplitOrCompact,
    /// The files to rewrite, which the commit deletes.
    pub files_to_delete: Vec<ParquetFile>,
    /// The plans still to run.
    pub plans: Vec<PlanIR>,
    /// What the plans run so far have written.
    pub created: Vec<ParquetFileParams>,
}

/// The compaction of one partition.
#[derive(Debug, PartialEq, Eq)]
pub struct PartitionCompaction {
    pub config: CompactionConfig,
    pub partition_info: PartitionInfo,
    pub phase: Phase,
    /// The round in work.
    pub round_info: Option<RoundInfo>,
    /// The files of the partition at the start of the round, while the
    /// partition filter looks at them.
    pub files: Vec<ParquetFile>,
    /// The branches of the round that are still to do.
    pub branches: Vec<Vec<ParquetFile>>,
    /// The files that the next round starts from, as far as known.
    pub files_next: Vec<ParquetFile>,
    /// The branch in work.
    pub work: BranchWork,
}

/// The object store paths of `files`, in order.
pub open spec fn spec_paths_of(
    info: PartitionInfo,
    files: Seq<ParquetFile>,
) -> Seq<ParquetFilePath> {
    files.map_values(|file: ParquetFile| ParquetFilePath::spec_for_file(info, file))
}

/// The object store paths of files written but not committed, in order.
pub open spec fn spec_paths_of_params(
    info: PartitionInfo,
    params: Seq<ParquetFileParams>,
) -> Seq<ParquetFilePath> {
    params.map_values(|p: ParquetFileParams| ParquetFilePath::spec_for_params(info, p))
}

/// The object store paths of `files`, in order.
pub fn paths_of(info: &PartitionInfo, files: &Vec<ParquetFile>) -> (paths: Vec<ParquetFilePath>)
    ensures
        paths@ == spec_paths_of(*info, files@),
{
    let mut paths: Vec<ParquetFilePath> = Vec::new();
    let mut i: usize = 0;
    while i < files.len()
        invariant
            i <= files.len(),
            paths@ == spec_paths_of(*info, files@.take(i as int)),
        decreases files.len() - i,
    {
        paths.push(ParquetFilePath::for_file(info, &files[i]));
        assert(paths@ =~= spec_paths_of(*info, files@.take(i + 1)));
        i += 1;
    }
    assert(files@.take(files@.len() as int) =~= files@);
    paths
}

/// The object store paths of files written but not committed, in order.
pub fn paths_of_params(info: &PartitionInfo, params: &Vec<ParquetFileParams>) -> (paths: Vec<
    ParquetFilePath,
>)
    ensures
        paths@ == spec_paths_of_params(*info, params@),
{
    let mut paths: Vec<ParquetFilePath> = Vec::new();
    let mut i: usize = 0;
    while i < params.len()
        invariant
            i <= params.len(),
            paths@ == spec_paths_of_params(*info, params@.take(i as int)),
        decreases params.len() - i,
    {
        paths.push(ParquetFilePath::for_params(info, &params[i]));
        assert(paths@ =~= spec_paths_of_params(*info, params@.take(i + 1)));
        i += 1;
    }
    assert(params@.take(params@.len() as int) =~= params@);
    paths
}

/// Clones a list of file parameters, one by one.
pub fn clone_params(params: &Vec<ParquetFileParams>) -> (res: Vec<ParquetFileParams>)
    ensures
        res@ == params@,
{
    let mut res: Vec<ParquetFileParams> = Vec::new();
    let mut i: usize = 0;
    while i < params.len()
        invariant
            i <= params.len(),
            res@ == params@.take(i as int),
        decreases params.len() - i,
    {
        res.push(params[i].clone());
        i += 1;
    }
    res
}

impl BranchWork {
    /// No branch in work: nothing of an earlier branch is left over.
    pub fn idle() -> (work: BranchWork)
        ensures
            work.is_idle(),
    {
        let ids: Vec<(i64, u128)> = Vec::new();
        assert(ids@.to_set() =~= Set::<(i64, u128)>::empty());
        BranchWork {
            input: Vec::new(),
            saved_state: SavedParquetFileState { ids },
            input_paths: Vec::new(),
            target_level: CompactionLevel::Initial,
            files_to_keep: Vec::new(),
            upgrade: Vec::new(),
            split_or_compact: FilesToSplitOrCompact { split: Vec::new(), compact: Vec::new() },
            files_to_delete: Vec::new(),
            plans: Vec::new(),
            created: Vec::new(),
        }
    }

    /// No branch in work: all lists are empty, no identity is saved, and
    /// the level is the initial one.
    pub open spec fn is_idle(self) -> bool {
        &&& self.input@.len() == 0
        &&& self.saved_state.ids@.len() == 0
        &&& self.saved_state@ == Set::<(i64, u128)>::empty()
        &&& self.target_level == CompactionLevel::Initial
        &&& self.input_paths@.len() == 0
        &&& self.files_to_keep@.len() == 0
        &&& self.upgrade@.len() == 0
        &&& self.split_or_compact.spec_files().len() == 0
        &&& self.files_to_delete@.len() == 0
        &&& self.plans@.len() == 0
        &&& self.created@.len() == 0
    }

    /// The files that the work keeps, upgrades and deletes are those that
    /// the classification of `branch` keeps, upgrades and rewrites.
    pub open spec fn begun_classes(
        self,
        round: RoundInfo,
        classifier: FileClassifier,
        branch: Seq<ParquetFile>,
    ) -> bool {
        let large = classifier.max_desired_file_size_bytes;
        &&& self.target_level == round.target_level
        &&& self.files_to_keep@ == of_class(branch, round, large, FileClass::Keep)
        &&& self.upgrade@ == of_class(branch, round, large, FileClass::Upgrade)
        &&& self.files_to_delete@ == of_class(branch, round, large, FileClass::Split) + of_class(
            branch,
            round,
            large,
            FileClass::Compact,
        )
    }

    /// The work on `branch` as it stands right after classification: the
    /// identities and paths of the branch are noted, each of its files is in
    /// the list of its class, and nothing has been planned or written.
    pub open spec fn begun(
        self,
        info: PartitionInfo,
        round: RoundInfo,
        classifier: FileClassifier,
        branch: Seq<ParquetFile>,
    ) -> bool {
        let large = classifier.max_desired_file_size_bytes;
        &&& self.begun_classes(round, classifier, branch)
        &&& self.input@ == branch
        &&& self.saved_state@ == fingerprint(branch)
        &&& self.input_paths@ == spec_paths_of(info, branch)
        &&& split_files(self.split_or_compact.split@) == of_class(branch, round, large, FileClass::Split)
        &&& self.split_or_compact.compact@ == of_class(branch, round, large, FileClass::Compact)
        &&& forall|k: int|
            0 <= k < self.split_or_compact.split@.len() ==> are_split_times(
                (#[trigger] self.split_or_compact.split@[k]).split_times@,
                branch,
                self.split_or_compact.split@[k].file,
                round.target_level,
            )
        &&& self.files_to_delete@ == self.split_or_compact.spec_files()
        &&& self.plans@.len() == 0
        &&& self.created@.len() == 0
    }

    /// Takes up a branch: notes what it looks like and classifies its files.
    pub fn begin(
        info: &PartitionInfo,
        round: &RoundInfo,
        classifier: &FileClassifier,
        branch: Vec<ParquetFile>,
    ) -> (work: BranchWork)
        ensures
            work.begun(*info, *round, *classifier, branch@),
            work.input == branch,
    {
        // The state of the branch now is what the catalog is held against
        // before the commit.
        let saved_state = SavedParquetFileState::from_files(&branch);
        let input_paths = paths_of(info, &branch);
        let FileClassification { target_level, files_to_make_progress_on, files_to_keep } =
            classifier.classify(info, round, clone_files(&branch));
        let FilesForProgress { upgrade, split_or_compact } = files_to_make_progress_on;
        let mut files_to_delete: Vec<ParquetFile> = Vec::new();
        let mut i: usize = 0;
        while i < split_or_compact.split.len()
            invariant
                i <= split_or_compact.split.len(),
                files_to_delete@ == split_files(split_or_compact.split@.take(i as int)),
            decreases split_or_compact.split.len() - i,
        {
            files_to_delete.push(split_or_compact.split[i].file.clone());
            assert(files_to_delete@ =~= split_files(split_or_compact.split@.take(i + 1)));
            i += 1;
        }
        assert(split_or_compact.split@.take(split_or_compact.split@.len() as int)
            =~= split_or_compact.split@);
        let mut merged = clone_files(&split_or_compact.compact);
        files_to_delete.append(&mut merged);
        BranchWork {
            input: branch,
            saved_state,
            input_paths,
            target_level,
            files_to_keep,
            upgrade,
            split_or_compact,
            files_to_delete,
            plans: Vec::new(),
            created: Vec::new(),
        }
    }
}

impl PartitionCompaction {
    /// The partition is done with `result`, and `action` says so.
    pub open spec fn ends_with(self, action: Action, result: Result<(), DynError>) -> bool {
        self.phase == Phase::Finished && action == Action::Finish(result)
    }

    /// The state at the start of a round over `files`: the round that the
    /// files call for is worked out, if they call for one, and the partition
    /// filter is asked whether to go on. It is asked in every round, also
    /// where no file is below the final level.
    pub open spec fn round_begun(self, action: Action, files: Seq<ParquetFile>) -> bool {
        &&& self.phase == Phase::PartitionFilter
        &&& self.round_info == self.config.round_info_source.spec_calculate(files)
        &&& self.files@ == files
        &&& self.branches@.len() == 0
        &&& self.files_next@.len() == 0
        &&& self.work.is_idle()
        &&& action is ApplyPartitionFilter
    }

    /// The state right after `branch` was taken up, with `rest` left to do
    /// in the round and `files_next` collected for the next.
    pub open spec fn branch_begun(
        self,
        action: Action,
        round: RoundInfo,
        branch: Vec<ParquetFile>,
        rest: Seq<Vec<ParquetFile>>,
        files_next: Seq<ParquetFile>,
    ) -> bool {
        &&& self.phase == Phase::PostClassificationFilter
        &&& self.round_info == Some(round)
        &&& self.branches@ == rest
        &&& self.files_next@ == files_next
        &&& self.work.input == branch
        &&& self.work.begun(self.partition_info, round, self.config.classifier, branch@)
        &&& action is ApplyPostClassificationFilter
    }

    /// The state when the next plan is handed out, or, with none left, when
    /// the files written so far go public.
    pub open spec fn plan_handed_out(
        self,
        action: Action,
        plans: Seq<PlanIR>,
        created: Seq<ParquetFileParams>,
    ) -> bool {
        &&& self.work.created@ == created
        &&& if plans.len() == 0 {
            &&& self.phase == Phase::Publishing
            &&& self.work.plans@.len() == 0
            &&& action matches Action::MakePublic { paths }
            &&& paths@ == spec_paths_of_params(self.partition_info, created)
        } else {
            &&& self.phase == Phase::RunningPlan
            &&& self.work.plans@ == plans.drop_first()
            &&& action matches Action::ExecutePlan { plan }
            &&& plan == plans[0]
        }
    }

    /// Everything about the branch in work but its plans and what they
    /// wrote is as in `before`.
    pub open spec fn same_branch(self, before: Self) -> bool {
        &&& self.same_round(before)
        &&& self.files_next == before.files_next
        &&& self.work.input == before.work.input
        &&& self.work.saved_state == before.work.saved_state
        &&& self.work.input_paths == before.work.input_paths
        &&& self.work.target_level == before.work.target_level
        &&& self.work.files_to_keep == before.work.files_to_keep
        &&& self.work.upgrade == before.work.upgrade
        &&& self.work.files_to_delete == before.work.files_to_delete
    }

    /// The round in work and what is left of it are as in `before`.
    pub open spec fn same_round(self, before: Self) -> bool {
        &&& self.config == before.config
        &&& self.partition_info == before.partition_info
        &&& self.round_info == before.round_info
        &&& self.branches == before.branches
    }

    /// How the machine moves: the state `self` and the `action` that follow
    /// when `event` arrives in the state `before`.
    pub open spec fn follows(self, action: Action, before: Self, event: Event) -> bool {
        &&& self.config == before.config
        &&& self.partition_info == before.partition_info
        &&& match (before.phase, event) {
            // The partition filter ends the loop over the rounds, or the
            // round's files are split and divided and the first branch is
            // taken up.
            (Phase::PartitionFilter, Event::FilterVerdict(Err(e))) => self.ends_with(action, Err(e)),
            (Phase::PartitionFilter, Event::FilterVerdict(Ok(false))) => self.ends_with(action, Ok(())),
            (Phase::PartitionFilter, Event::FilterVerdict(Ok(true))) => match before.round_info {
                // no file is below the final level: there is no round to run
                None => self.ends_with(action, Ok(())),
                Some(round) => {
                    let cap = if before.files@.len() <= round.max_files_per_plan {
                        before.files@.len() as int
                    } else {
                        round.max_files_per_plan as int
                    };
                    let now = before.files@.take(cap);
                    let later = before.files@.skip(cap);
                    if now.len() == 0 {
                        self.round_begun(action, later)
                    } else {
                        &&& is_division(seq![self.work.input] + self.branches@, now)
                        &&& self.branch_begun(action, round, self.work.input, self.branches@, later)
                    }
                },
            },
            // The post-classification filter ends the partition where the
            // branch has nothing that can be done, or the inputs get staged.
            (Phase::PostClassificationFilter, Event::FilterVerdict(Err(e))) => self.ends_with(
                action,
                Err(e),
            ),
            (Phase::PostClassificationFilter, Event::FilterVerdict(Ok(false))) => self.ends_with(
                action,
                Ok(()),
            ),
            (Phase::PostClassificationFilter, Event::FilterVerdict(Ok(true))) => {
                &&& self.phase == Phase::Staging
                &&& self.same_branch(before)
                &&& self.work.split_or_compact == before.work.split_or_compact
                &&& self.work.plans == before.work.plans
                &&& self.work.created == before.work.created
                &&& action matches Action::LoadToScratchpad { paths }
                &&& paths@ == spec_paths_of(self.partition_info, before.work.split_or_compact.spec_files())
            },
            // Staged inputs become plans; the empty ones are dropped and the
            // first of the others is handed out.
            (Phase::Staging, Event::Staged(staged_ids)) => {
                if staged_ids@.len() != before.work.split_or_compact.spec_files().len() {
                    &&& self.phase == Phase::Finished
                    &&& action matches Action::Finish(Err(err))
                    &&& err is Planner
                } else {
                    &&& self.same_branch(before)
                    &&& self.work.split_or_compact.spec_files().len() == 0
                    &&& exists|plans: Seq<PlanIR>|
                        #![trigger spec_runnable(plans)]
                        are_plans(
                            plans,
                            before.work.split_or_compact,
                            staged_ids@,
                            before.work.target_level,
                        ) && self.plan_handed_out(action, spec_runnable(plans), Seq::empty())
                }
            },
            // What a plan wrote is added to what the branch created; its
            // failure is the failure of the partition.
            (Phase::RunningPlan, Event::PlanFinished(Err(e))) => self.ends_with(action, Err(e)),
            (Phase::RunningPlan, Event::PlanFinished(Ok(params))) => {
                &&& self.same_branch(before)
                &&& self.work.split_or_compact == before.work.split_or_compact
                &&& self.plan_handed_out(action, before.work.plans@, before.work.created@ + params@)
            },
            // The files written take on their public ids; the staged inputs
            // can go.
            (Phase::Publishing, Event::Published(public_ids)) => {
                &&& self.phase == Phase::Cleaning
                &&& self.same_branch(before)
                &&& self.work.split_or_compact == before.work.split_or_compact
                &&& self.work.plans == before.work.plans
                &&& self.work.created@.len() == if before.work.created@.len() <= public_ids@.len() {
                    before.work.created@.len()
                } else {
                    public_ids@.len()
                }
                &&& forall|k: int|
                    0 <= k < self.work.created@.len() ==> #[trigger] self.work.created@[k] == published(
                        before.work.created@[k],
                        public_ids@[k],
                    )
                &&& action matches Action::CleanFromScratchpad { paths }
                &&& paths@ == before.work.input_paths@
            },
            (Phase::Cleaning, Event::Cleaned) => {
                &&& self.phase == Phase::FetchingCatalogState
                &&& self.same_branch(before)
                &&& self.work.split_or_compact == before.work.split_or_compact
                &&& self.work.plans == before.work.plans
                &&& self.work.created == before.work.created
                &&& action is FetchCatalogState
            },
            // The catalog is held against what the branch started from; the
            // commit goes ahead either way.
            (Phase::FetchingCatalogState, Event::CatalogState(catalog_files)) => {
                &&& self.phase == Phase::Committing
                &&& self.same_branch(before)
                &&& self.work.split_or_compact == before.work.split_or_compact
                &&& self.work.plans == before.work.plans
                &&& self.work.created == before.work.created
                &&& action matches Action::Commit { request, catalog_changed }
                &&& request.partition_id == self.partition_info.partition_id
                &&& request.delete@ == before.work.files_to_delete@
                &&& request.upgrade@ == before.work.upgrade@
                &&& request.create@ == before.work.created@
                &&& request.target_level == before.work.target_level
                &&& catalog_changed == !before.work.saved_state@.subset_of(fingerprint(catalog_files@))
            },
            // What the branch leaves behind goes to the next round: the
            // files created, the files upgraded, the files kept.
            (Phase::Committing, Event::Committed(created_ids)) => {
                let n_created = if before.work.created@.len() <= created_ids@.len() {
                    before.work.created@.len() as int
                } else {
                    created_ids@.len() as int
                };
                &&& self.phase == Phase::SignallingProgress
                &&& self.same_round(before)
                &&& self.files_next@ == before.files_next@ + Seq::new(
                    n_created as nat,
                    |k: int| file_from_params(before.work.created@[k], created_ids@[k]),
                ) + Seq::new(
                    before.work.upgrade@.len(),
                    |k: int| upgraded(before.work.upgrade@[k], before.work.target_level),
                ) + before.work.files_to_keep@
                &&& self.work.is_idle()
                &&& action is SignalProgress
            },
            // With the signal sent the next branch is taken up, or the next
            // round begins. A signal that cannot be sent is fatal.
            (Phase::SignallingProgress, Event::ProgressSent(false)) => {
                &&& self.phase == Phase::Finished
                &&& action matches Action::Finish(Err(err))
                &&& err is Message
            },
            (Phase::SignallingProgress, Event::ProgressSent(true)) => match before.round_info {
                None => self.ends_with(action, Ok(())),
                Some(round) => if before.branches@.len() == 0 {
                    self.round_begun(action, before.files_next@)
                } else {
                    self.branch_begun(
                        action,
                        round,
                        before.branches@[0],
                        before.branches@.drop_first(),
                        before.files_next@,
                    )
                },
            },
            _ => self == before && action is Ignore,
        }
    }

    /// Starts the compaction of a partition that holds `files`.
    pub fn new(
        config: CompactionConfig,
        partition_info: PartitionInfo,
        files: Vec<ParquetFile>,
    ) -> (res: (PartitionCompaction, Action))
        ensures
            res.0.config == config,
            res.0.partition_info == partition_info,
            res.0.round_begun(res.1, files@),
    {
        Self::begin_round(config, partition_info, files)
    }

    /// Whether the partition is done.
    pub fn is_finished(&self) -> (done: bool)
        ensures
            done == (self.phase == Phase::Finished),
    {
        match self.phase {
            Phase::Finished => true,
            _ => false,
        }
    }

    fn finished(
        config: CompactionConfig,
        partition_info: PartitionInfo,
        result: Result<(), DynError>,
    ) -> (res: (PartitionCompaction, Action))
        ensures
            res.0.config == config,
            res.0.partition_info == partition_info,
            res.0.ends_with(res.1, result),
    {
        (
            PartitionCompaction {
                config,
                partition_info,
                phase: Phase::Finished,
                round_info: None,
                files: Vec::new(),
                branches: Vec::new(),
                files_next: Vec::new(),
                work: BranchWork::idle(),
            },
            Action::Finish(result),
        )
    }

    fn begin_round(
        config: CompactionConfig,
        partition_info: PartitionInfo,
        files: Vec<ParquetFile>,
    ) -> (res: (PartitionCompaction, Action))
        ensures
            res.0.config == config,
            res.0.partition_info == partition_info,
            res.0.round_begun(res.1, files@),
    {
        let round_info = config.round_info_source.calculate(&partition_info, &files);
        (
            PartitionCompaction {
                config,
                partition_info,
                phase: Phase::PartitionFilter,
                round_info,
                files,
                branches: Vec::new(),
                files_next: Vec::new(),
                work: BranchWork::idle(),
            },
            Action::ApplyPartitionFilter,
        )
    }

    fn begin_branch(
        config: CompactionConfig,
        partition_info: PartitionInfo,
        round: RoundInfo,
        branches: Vec<Vec<ParquetFile>>,
        files_next: Vec<ParquetFile>,
    ) -> (res: (PartitionCompaction, Action))
        requires
            branches@.len() > 0,
        ensures
            res.0.config == config,
            res.0.partition_info == partition_info,
            res.0.branch_begun(res.1, round, branches@[0], branches@.drop_first(), files_next@),
    {
        let ghost all = branches@;
        let mut branches = branches;
        let branch = branches.remove(0);
        assert(branches@ =~= all.drop_first()) by {
            assert(all.remove(0) =~= all.drop_first());
        }
        let work = BranchWork::begin(&partition_info, &round, &config.classifier, branch);
        (
            PartitionCompaction {
                config,
                partition_info,
                phase: Phase::PostClassificationFilter,
                round_info: Some(round),
                files: Vec::new(),
                branches,
                files_next,
                work,
            },
            Action::ApplyPostClassificationFilter,
        )
    }

    fn hand_out_plan(self) -> (res: (PartitionCompaction, Action))
        ensures
            res.0.same_branch(self),
            res.0.work.split_or_compact == self.work.split_or_compact,
            res.0.plan_handed_out(res.1, self.work.plans@, self.work.created@),
    {
        let PartitionCompaction {
            config,
            partition_info,
            phase,
            round_info,
            files,
            branches,
            files_next,
            work,
        } = self;
        let mut work = work;
        if work.plans.len() == 0 {
            let paths = paths_of_params(&partition_info, &work.created);
            (
                PartitionCompaction {
                    config,
                    partition_info,
                    phase: Phase::Publishing,
                    round_info,
                    files,
                    branches,
                    files_next,
                    work,
                },
                Action::MakePublic { paths },
            )
        } else {
            let ghost queued = work.plans@;
            let plan = work.plans.remove(0);
            assert(work.plans@ =~= queued.drop_first()) by {
                assert(queued.remove(0) =~= queued.drop_first());
            }
            (
                PartitionCompaction {
                    config,
                    partition_info,
                    phase: Phase::RunningPlan,
                    round_info,
                    files,
                    branches,
                    files_next,
                    work,
                },
                Action::ExecutePlan { plan },
            )
        }
    }

    /// Takes one event and says what to do next.
    pub fn step(self, event: Event) -> (res: (PartitionCompaction, Action))
        ensures
            res.0.follows(res.1, self, event),
            res.1 is Finish <==> (res.0.phase == Phase::Finished && self.phase != Phase::Finished && !(
            res.1 is Ignore)),
    {
        let PartitionCompaction {
            config,
            partition_info,
            phase,
            round_info,
            files,
            branches,
            files_next,
            work,
        } = self;
        match (phase, event) {
            (Phase::PartitionFilter, Event::FilterVerdict(Err(e))) => Self::finished(
                config,
                partition_info,
                Err(e),
            ),
            (Phase::PartitionFilter, Event::FilterVerdict(Ok(false))) => Self::finished(
                config,
                partition_info,
                Ok(()),
            ),
            (Phase::PartitionFilter, Event::FilterVerdict(Ok(true))) => {
                match round_info {
                    None => Self::finished(config, partition_info, Ok(())),
                    Some(round) => {
                        let ghost all = files@;
                        let (files_now, files_later) = round_split(files, round);
                        let ghost now = files_now@;
                        proof {
                            assert(now =~= all.take(now.len() as int));
                            assert(files_later@ =~= all.skip(now.len() as int));
                        }
                        // Each branch must not overlap with each other
                        let branches = divide_initial(files_now, round);
                        if branches.len() == 0 {
                            Self::begin_round(config, partition_info, files_later)
                        } else {
                            let ghost division = branches@;
                            let res = Self::begin_branch(
                                config,
                                partition_info,
                                round,
                                branches,
                                files_later,
                            );
                            proof {
                                assert(seq![res.0.work.input] + res.0.branches@ =~= division);
                            }
                            res
                        }
                    },
                }
            },
            (Phase::PostClassificationFilter, Event::FilterVerdict(Err(e))) => Self::finished(
                config,
                partition_info,
                Err(e),
            ),
            (Phase::PostClassificationFilter, Event::FilterVerdict(Ok(false))) => Self::finished(
                config,
                partition_info,
                Ok(()),
            ),
            (Phase::PostClassificationFilter, Event::FilterVerdict(Ok(true))) => {
                let paths = work.split_or_compact.file_input_paths(&partition_info);
                assert(paths@ =~= spec_paths_of(partition_info, work.split_or_compact.spec_files()));
                (
                    PartitionCompaction {
                        config,
                        partition_info,
                        phase: Phase::Staging,
                        round_info,
                        files,
                        branches,
                        files_next,
                        work,
                    },
                    Action::LoadToScratchpad { paths },
                )
            },
            (Phase::Staging, Event::Staged(staged_ids)) => {
                let BranchWork {
                    input,
                    saved_state,
                    input_paths,
                    target_level,
                    files_to_keep,
                    upgrade,
                    split_or_compact,
                    files_to_delete,
                    plans,
                    created,
                } = work;
                match create_plans(&partition_info, target_level, split_or_compact, staged_ids) {
                    Err(e) => Self::finished(config, partition_info, Err(e)),
                    Ok(all_plans) => {
                        let ghost planned = all_plans@;
                        let created: Vec<ParquetFileParams> = Vec::with_capacity(
                            total_output_files(&all_plans),
                        );
                        let plans = runnable_plans(all_plans);
                        let next = PartitionCompaction {
                            config,
                            partition_info,
                            phase: Phase::Staging,
                            round_info,
                            files,
                            branches,
                            files_next,
                            work: BranchWork {
                                input,
                                saved_state,
                                input_paths,
                                target_level,
                                files_to_keep,
                                upgrade,
                                split_or_compact: FilesToSplitOrCompact {
                                    split: Vec::new(),
                                    compact: Vec::new(),
                                },
                                files_to_delete,
                                plans,
                                created,
                            },
                        };
                        let res = next.hand_out_plan();
                        proof {
                            assert(next.work.created@ =~= Seq::<ParquetFileParams>::empty());
                            assert(res.0.plan_handed_out(res.1, spec_runnable(planned), Seq::empty()));
                        }
                        res
                    },
                }
            },
            (Phase::RunningPlan, Event::PlanFinished(Err(e))) => Self::finished(
                config,
                partition_info,
                Err(e),
            ),
            (Phase::RunningPlan, Event::PlanFinished(Ok(params))) => {
                let mut work = work;
                let mut params = params;
                work.created.append(&mut params);
                let next = PartitionCompaction {
                    config,
                    partition_info,
                    phase: Phase::RunningPlan,
                    round_info,
                    files,
                    branches,
                    files_next,
                    work,
                };
                next.hand_out_plan()
            },
            (Phase::Publishing, Event::Published(public_ids)) => {
                let BranchWork {
                    input,
                    saved_state,
                    input_paths,
                    target_level,
                    files_to_keep,
                    upgrade,
                    split_or_compact,
                    files_to_delete,
                    plans,
                    created,
                } = work;
                // Update file params with the object store id of the public copy
                let created = with_public_ids(created, &public_ids);
                let mut paths: Vec<ParquetFilePath> = Vec::new();
                let mut i: usize = 0;
                while i < input_paths.len()
                    invariant
                        i <= input_paths.len(),
                        paths@ == input_paths@.take(i as int),
                    decreases input_paths.len() - i,
                {
                    paths.push(input_paths[i]);
                    i += 1;
                }
                assert(input_paths@.take(input_paths@.len() as int) =~= input_paths@);
                (
                    PartitionCompaction {
                        config,
                        partition_info,
                        phase: Phase::Cleaning,
                        round_info,
                        files,
                        branches,
                        files_next,
                        work: BranchWork {
                            input,
                            saved_state,
                            input_paths,
                            target_level,
                            files_to_keep,
                            upgrade,
                            split_or_compact,
                            files_to_delete,
                            plans,
                            created,
                        },
                    },
                    Action::CleanFromScratchpad { paths },
                )
            },
            (Phase::Cleaning, Event::Cleaned) => (
                PartitionCompaction {
                    config,
                    partition_info,
                    phase: Phase::FetchingCatalogState,
                    round_info,
                    files,
                    branches,
                    files_next,
                    work,
                },
                Action::FetchCatalogState,
            ),
            (Phase::FetchingCatalogState, Event::CatalogState(catalog_files)) => {
                let current = SavedParquetFileState::from_files(&catalog_files);
                // Right now this is only reported; the commit goes ahead.
                let catalog_changed = !work.saved_state.still_in(&current);
                let request = CommitRequest {
                    partition_id: partition_info.partition_id,
                    delete: clone_files(&work.files_to_delete),
                    upgrade: clone_files(&work.upgrade),
                    create: clone_params(&work.created),
                    target_level: work.target_level,
                };
                (
                    PartitionCompaction {
                        config,
                        partition_info,
                        phase: Phase::Committing,
                        round_info,
                        files,
                        branches,
                        files_next,
                        work,
                    },
                    Action::Commit { request, catalog_changed },
                )
            },
            (Phase::Committing, Event::Committed(created_ids)) => {
                let BranchWork {
                    input,
                    saved_state,
                    input_paths,
                    target_level,
                    files_to_keep,
                    upgrade,
                    split_or_compact,
                    files_to_delete,
                    plans,
                    created,
                } = work;
                let ghost before_next = files_next@;
                // Update created ids to their corresponding file params
                let mut created_files = materialize_created(created, &created_ids);
                // Update compaction_level for the files to upgrade
                let mut upgraded_files = upgrade_files(upgrade, target_level);
                let mut files_to_keep = files_to_keep;
                let mut files_next = files_next;
                let ghost created_seq = created_files@;
                let ghost upgraded_seq = upgraded_files@;
                // Extend created files, upgraded files and files to keep to files_next
                files_next.append(&mut created_files);
                files_next.append(&mut upgraded_files);
                files_next.append(&mut files_to_keep);
                proof {
                    let n_created = if created@.len() <= created_ids@.len() {
                        created@.len() as int
                    } else {
                        created_ids@.len() as int
                    };
                    assert(created_seq =~= Seq::new(
                        n_created as nat,
                        |k: int| file_from_params(created@[k], created_ids@[k]),
                    ));
                    assert(upgraded_seq =~= Seq::new(
                        upgrade@.len(),
                        |k: int| upgraded(upgrade@[k], target_level),
                    ));
                }
                (
                    PartitionCompaction {
                        config,
                        partition_info,
                        phase: Phase::SignallingProgress,
                        round_info,
                        files,
                        branches,
                        files_next,
                        work: BranchWork::idle(),
                    },
                    Action::SignalProgress,
                )
            },
            (Phase::SignallingProgress, Event::ProgressSent(false)) => Self::finished(
                config,
                partition_info,
                Err(DynError::from_message("progress signal could not be sent")),
            ),
            (Phase::SignallingProgress, Event::ProgressSent(true)) => {
                match round_info {
                    None => Self::finished(config, partition_info, Ok(())),
                    Some(round) => {
                        if branches.len() == 0 {
                            Self::begin_round(config, partition_info, files_next)
                        } else {
                            Self::begin_branch(config, partition_info, round, branches, files_next)
                        }
                    },
                }
            },
            (phase, _) => (
                PartitionCompaction {
                    config,
                    partition_info,
                    phase,
                    round_info,
                    files,
                    branches,
                    files_next,
                    work,
                },
                Action::Ignore,
            ),
        }
    }
}

/// While a branch is in work, what it keeps, upgrades and deletes stays as
/// it was classified, whatever happens outside.
pub proof fn lemma_classes_persist(
    before: PartitionCompaction,
    event: Event,
    after: PartitionCompaction,
    action: Action,
    round: RoundInfo,
    branch: Seq<ParquetFile>,
)
    requires
        after.follows(action, before, event),
        before.work.begun_classes(round, before.config.classifier, branch),
        before.phase != Phase::PartitionFilter,
        before.phase != Phase::Committing,
        before.phase != Phase::SignallingProgress,
        after.phase != Phase::Finished,
    ensures
        after.work.begun_classes(round, after.config.classifier, branch),
{
}

/// What a branch hands to the next round, in a round that moves files up a
/// level: if the files written are at the target level, none of what the
/// commit adds to the files of the next round is at the start level. So a
/// round uses up every start-level file that its branches take up.
pub proof fn lemma_branch_uses_up_start_level(
    before: PartitionCompaction,
    created_ids: Vec<i64>,
    after: PartitionCompaction,
    action: Action,
    round: RoundInfo,
    branch: Seq<ParquetFile>,
    k: int,
)
    requires
        before.phase == Phase::Committing,
        after.follows(action, before, Event::Committed(created_ids)),
        before.work.begun_classes(round, before.config.classifier, branch),
        round.start_level.rank() < round.target_level.rank(),
        forall|c: int|
            0 <= c < before.work.created@.len() ==> (#[trigger] before.work.created@[c]).compaction_level
                == round.target_level,
        before.files_next@.len() <= k < after.files_next@.len(),
    ensures
        after.files_next@[k].compaction_level != round.start_level,
{
    let large = before.config.classifier.max_desired_file_size_bytes;
    let n_created = if before.work.created@.len() <= created_ids@.len() {
        before.work.created@.len()
    } else {
        created_ids@.len()
    };
    let at = k - before.files_next@.len();
    if at < n_created {
        assert(before.work.created@[at].compaction_level == round.target_level);
    } else if at < n_created + before.work.upgrade@.len() {
    } else {
        let kept = at - n_created - before.work.upgrade@.len();
        lemma_kept_files_are_above_start(branch, round, large, kept);
    }
}

/// Every file is at `level` or above it.
pub open spec fn all_at_least(files: Seq<ParquetFile>, level: CompactionLevel) -> bool {
    forall|k: int| 0 <= k < files.len() ==> (#[trigger] files[k]).compaction_level.rank() >= level.rank()
}

/// What a plan wrote is at the target level of the branch in work.
pub open spec fn writes_at_target(state: PartitionCompaction, event: Event) -> bool {
    event matches Event::PlanFinished(Ok(params)) ==> forall|c: int|
        0 <= c < params@.len() ==> (#[trigger] params@[c]).compaction_level == state.work.target_level
}

/// A run of the machine: each state follows from the one before it, by the
/// event and with the action of its place.
pub open spec fn is_run(states: Seq<PartitionCompaction>, events: Seq<Event>, actions: Seq<Action>) -> bool {
    &&& states.len() == events.len() + 1
    &&& actions.len() == events.len()
    &&& forall|i: int|
        0 <= i < events.len() ==> states[i + 1].follows(#[trigger] actions[i], states[i], events[i])
}

/// Where a round that moves files up to `round.target_level` stands while
/// it goes on or once it is over: whatever it hands to the next round is at
/// the target level or above it.
pub open spec fn moving_up(state: PartitionCompaction, round: RoundInfo) -> bool {
    match state.phase {
        Phase::Finished => true,
        // the round is over: the next one has begun
        Phase::PartitionFilter => {
            &&& all_at_least(state.files@, round.target_level)
            &&& state.round_info == state.config.round_info_source.spec_calculate(state.files@)
        },
        Phase::SignallingProgress => {
            &&& state.round_info == Some(round)
            &&& all_at_least(state.files_next@, round.target_level)
        },
        _ => {
            &&& state.round_info == Some(round)
            &&& all_at_least(state.files_next@, round.target_level)
            &&& state.work.target_level == round.target_level
            &&& all_at_least(state.work.files_to_keep@, round.target_level)
            &&& forall|c: int|
                0 <= c < state.work.created@.len() ==> (#[trigger] state.work.created@[c]).compaction_level
                    == round.target_level
        },
    }
}

proof fn lemma_branch_begun_moving_up(
    after: PartitionCompaction,
    action: Action,
    round: RoundInfo,
    branch: Vec<ParquetFile>,
    rest: Seq<Vec<ParquetFile>>,
    files_next: Seq<ParquetFile>,
)
    requires
        after.branch_begun(action, round, branch, rest, files_next),
        round.start_level.rank() < round.target_level.rank(),
        all_at_least(files_next, round.target_level),
    ensures
        moving_up(after, round),
{
    let large = after.config.classifier.max_desired_file_size_bytes;
    assert forall|k: int| 0 <= k < after.work.files_to_keep@.len() implies (
    #[trigger] after.work.files_to_keep@[k]).compaction_level.rank() >= round.target_level.rank() by {
        lemma_kept_files_are_above_start(branch@, round, large, k);
    }
}

proof fn lemma_round_begins_moving_up(
    before: PartitionCompaction,
    event: Event,
    after: PartitionCompaction,
    action: Action,
    round: RoundInfo,
)
    requires
        before.phase == Phase::PartitionFilter,
        before.round_info == Some(round),
        round.start_level.rank() < round.target_level.rank(),
        before.files@.len() <= round.max_files_per_plan,
        event == Event::FilterVerdict(Ok(true)),
        after.follows(action, before, event),
    ensures
        moving_up(after, round),
{
    let now = before.files@.take(before.files@.len() as int);
    let later = before.files@.skip(before.files@.len() as int);
    assert(later =~= Seq::<ParquetFile>::empty());
    if now.len() != 0 {
        lemma_branch_begun_moving_up(after, action, round, after.work.input, after.branches@, later);
    }
}

proof fn lemma_step_keeps_moving_up(
    before: PartitionCompaction,
    event: Event,
    after: PartitionCompaction,
    action: Action,
    round: RoundInfo,
)
    requires
        moving_up(before, round),
        before.phase != Phase::PartitionFilter,
        round.start_level.rank() < round.target_level.rank(),
        after.follows(action, before, event),
        writes_at_target(before, event),
    ensures
        moving_up(after, round),
{
    match (before.phase, event) {
        (Phase::PostClassificationFilter, Event::FilterVerdict(_)) => {},
        (Phase::Staging, Event::Staged(staged_ids)) => {
            if staged_ids@.len() == before.work.split_or_compact.spec_files().len() {
                let plans = choose|plans: Seq<PlanIR>|
                    #![trigger spec_runnable(plans)]
                    are_plans(
                        plans,
                        before.work.split_or_compact,
                        staged_ids@,
                        before.work.target_level,
                    ) && after.plan_handed_out(action, spec_runnable(plans), Seq::empty());
                assert(after.work.created@ =~= Seq::<ParquetFileParams>::empty());
            }
        },
        (Phase::RunningPlan, Event::PlanFinished(Ok(params))) => {
            assert forall|c: int| 0 <= c < after.work.created@.len() implies (
            #[trigger] after.work.created@[c]).compaction_level == round.target_level by {
                if c < before.work.created@.len() {
                    assert(after.work.created@[c] == before.work.created@[c]);
                } else {
                    assert(after.work.created@[c] == params@[c - before.work.created@.len()]);
                }
            }
        },
        (Phase::RunningPlan, Event::PlanFinished(Err(_))) => {},
        (Phase::Publishing, Event::Published(public_ids)) => {
            assert forall|c: int| 0 <= c < after.work.created@.len() implies (
            #[trigger] after.work.created@[c]).compaction_level == round.target_level by {
                assert(after.work.created@[c] == published(before.work.created@[c], public_ids@[c]));
            }
        },
        (Phase::Cleaning, Event::Cleaned) => {},
        (Phase::FetchingCatalogState, Event::CatalogState(_)) => {},
        (Phase::Committing, Event::Committed(created_ids)) => {
            let n_created = if before.work.created@.len() <= created_ids@.len() {
                before.work.created@.len() as int
            } else {
                created_ids@.len() as int
            };
            let n_upgraded = before.work.upgrade@.len() as int;
            let old_len = before.files_next@.len() as int;
            assert forall|k: int| 0 <= k < after.files_next@.len() implies (
            #[trigger] after.files_next@[k]).compaction_level.rank() >= round.target_level.rank() by {
                if k < old_len {
                    assert(after.files_next@[k] == before.files_next@[k]);
                } else if k < old_len + n_created {
                    assert(before.work.created@[k - old_len].compaction_level == round.target_level);
                } else if k < old_len + n_created + n_upgraded {
                } else {
                    assert(after.files_next@[k] == before.work.files_to_keep@[k - old_len - n_created
                        - n_upgraded]);
                }
            }
        },
        (Phase::SignallingProgress, Event::ProgressSent(true)) => {
            if before.branches@.len() != 0 {
                lemma_branch_begun_moving_up(
                    after,
                    action,
                    round,
                    before.branches@[0],
                    before.branches@.drop_first(),
                    before.files_next@,
                );
            }
        },
        (Phase::SignallingProgress, Event::ProgressSent(false)) => {},
        _ => {},
    }
}

proof fn lemma_run_keeps_moving_up(
    states: Seq<PartitionCompaction>,
    events: Seq<Event>,
    actions: Seq<Action>,
    round: RoundInfo,
    n: int,
)
    requires
        is_run(states, events, actions),
        1 <= n <= events.len(),
        states[0].phase == Phase::PartitionFilter,
        states[0].round_info == Some(round),
        round.start_level.rank() < round.target_level.rank(),
        states[0].files@.len() <= round.max_files_per_plan,
        events[0] == Event::FilterVerdict(Ok(true)),
        forall|i: int| 0 <= i < events.len() ==> writes_at_target(states[i], #[trigger] events[i]),
        forall|i: int| 1 <= i < events.len() ==> (#[trigger] states[i]).phase != Phase::PartitionFilter,
    ensures
        moving_up(states[n], round),
    decreases n,
{
    assert(states[n].follows(actions[n - 1], states[n - 1], events[n - 1]));
    assert(writes_at_target(states[n - 1], events[n - 1]));
    if n == 1 {
        lemma_round_begins_moving_up(states[0], events[0], states[1], actions[0], round);
    } else {
        lemma_run_keeps_moving_up(states, events, actions, round, n - 1);
        lemma_step_keeps_moving_up(states[n - 1], events[n - 1], states[n], actions[n - 1], round);
    }
}

/// A round that moves files up a level and takes up all files of the
/// partition leaves nothing at its start level or below: if what its plans
/// write is at the target level, then, however the round goes, the files
/// that the next round begins with are all at the target level or above
/// it, and the next round, if one is due, starts above the start level of
/// this one.
pub proof fn lemma_moving_up_round_clears_start_level(
    states: Seq<PartitionCompaction>,
    events: Seq<Event>,
    actions: Seq<Action>,
    round: RoundInfo,
)
    requires
        is_run(states, events, actions),
        events.len() >= 1,
        // the round: it moves files up a level, takes up all files, and the
        // partition filter lets it go ahead
        states[0].phase == Phase::PartitionFilter,
        states[0].round_info == Some(round),
        round.start_level.rank() < round.target_level.rank(),
        states[0].files@.len() <= round.max_files_per_plan,
        events[0] == Event::FilterVerdict(Ok(true)),
        // what plans write is at the target level of their branch
        forall|i: int| 0 <= i < events.len() ==> writes_at_target(states[i], #[trigger] events[i]),
        // the run ends where the next round begins, and not before
        forall|i: int| 1 <= i < events.len() ==> (#[trigger] states[i]).phase != Phase::PartitionFilter,
        states.last().phase == Phase::PartitionFilter,
    ensures
        all_at_least(states.last().files@, round.target_level),
        states.last().round_info matches Some(next) ==> next.start_level.rank()
            > round.start_level.rank(),
        // after the second such round none is due: there are two at most
        round.start_level != CompactionLevel::Initial ==> states.last().round_info is None,
{
    lemma_run_keeps_moving_up(states, events, actions, round, events.len() as int);
    let last = states.last();
    assert(last == states[events.len() as int]);
    if let Some(next) = last.round_info {
        let at = choose|at: int|
            0 <= at < last.files@.len() && (#[trigger] last.files@[at]).compaction_level
                == next.start_level;
        assert(last.files@[at].compaction_level.rank() >= round.target_level.rank());
    }
}

} // verus!
