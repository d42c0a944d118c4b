use std::sync::Arc;

use compactor::catalog::CommitRequest;
use compactor::classify::FileClassifier;
use compactor::driver::{
    clone_params, paths_of, paths_of_params, Action, BranchWork, CompactionConfig, Event,
    PartitionCompaction, Phase,
};
use compactor::error::{DynError, ErrorKind};
use compactor::file::{
    CompactionLevel, ParquetFile, ParquetFileParams, ParquetFilePath, PartitionId, PartitionInfo,
};
use compactor::partition_run::{PartitionRun, RunAction, RunEvent, RunPhase};
use compactor::plan::{PlanFile, PlanIR};
use compactor::round::{RoundInfo, RoundInfoSource};
use compactor::timeout::TimeoutWithProgress;

const L0: CompactionLevel = CompactionLevel::Initial;
const L1: CompactionLevel = CompactionLevel::FileNonOverlapped;
const L2: CompactionLevel = CompactionLevel::Final;

fn file(id: i64, level: CompactionLevel, min_time: i64, max_time: i64, size: i64) -> ParquetFile {
    ParquetFile {
        id,
        partition_id: PartitionId::new(1),
        object_store_id: id as u128 + 1000,
        compaction_level: level,
        min_time,
        max_time,
        file_size_bytes: size,
        row_count: 10,
        column_set: Arc::new(vec![1, 2]),
        max_sequence_number: id,
        created_at: 0,
    }
}

fn params(object_store_id: u128, min_time: i64, max_time: i64) -> ParquetFileParams {
    ParquetFileParams {
        partition_id: PartitionId::new(1),
        object_store_id,
        compaction_level: L1,
        min_time,
        max_time,
        file_size_bytes: 20,
        row_count: 20,
        column_set: Arc::new(vec![1, 2]),
        max_sequence_number: 2,
        created_at: 5,
    }
}

fn info() -> PartitionInfo {
    PartitionInfo {
        partition_id: PartitionId::new(1),
        namespace_id: 2,
        table_id: 3,
        sort_key: None,
        column_count: 20,
        partition_key: String::from("2023-01-01"),
    }
}

fn path(object_store_id: u128) -> ParquetFilePath {
    ParquetFilePath {
        namespace_id: 2,
        table_id: 3,
        partition_id: PartitionId::new(1),
        object_store_id,
    }
}

fn config() -> CompactionConfig {
    CompactionConfig {
        round_info_source: RoundInfoSource { max_files_per_plan: 10, size_budget: 1000 },
        classifier: FileClassifier::new(100),
    }
}

fn partition_files() -> Vec<ParquetFile> {
    vec![
        file(4, L1, 1000, 1100, 10),
        file(3, L0, 100, 200, 500),
        file(2, L0, 5, 20, 10),
        file(1, L0, 0, 10, 10),
    ]
}

fn ids(files: &[ParquetFile]) -> Vec<i64> {
    files.iter().map(|f| f.id).collect()
}

/// Runs the machine up to the commit of the first branch.
fn up_to_first_commit() -> (PartitionCompaction, Action) {
    let (machine, _) = PartitionCompaction::new(config(), info(), partition_files());
    let (machine, _) = machine.step(Event::FilterVerdict(Ok(true)));
    let (machine, _) = machine.step(Event::FilterVerdict(Ok(true)));
    let (machine, _) = machine.step(Event::Staged(vec![71, 72]));
    let (machine, _) = machine.step(Event::PlanFinished(Ok(vec![params(80, 0, 20)])));
    let (machine, _) = machine.step(Event::Published(vec![900]));
    let (machine, _) = machine.step(Event::Cleaned);
    machine.step(Event::CatalogState(partition_files()))
}

#[test]
fn the_partition_filter_is_asked_even_where_no_round_is_due() {
    // nothing below the final level: no round, but the filter is asked
    for files in [vec![], vec![file(1, L2, 0, 1, 1)]] {
        let (machine, action) = PartitionCompaction::new(config(), info(), files.clone());
        assert_eq!(action, Action::ApplyPartitionFilter);
        assert_eq!(machine.phase, Phase::PartitionFilter);
        assert_eq!(machine.round_info, None);
        assert_eq!(machine.files, files);
        assert!(!machine.is_finished());

        // whatever the filter says, there is nothing to do
        let (machine, action) = machine.step(Event::FilterVerdict(Ok(true)));
        assert_eq!(action, Action::Finish(Ok(())));
        assert!(machine.is_finished());

        let (machine, _) = PartitionCompaction::new(config(), info(), files.clone());
        let (machine, action) = machine.step(Event::FilterVerdict(Ok(false)));
        assert_eq!(action, Action::Finish(Ok(())));
        assert!(machine.is_finished());

        // a failure of the filter is not lost
        let (machine, _) = PartitionCompaction::new(config(), info(), files);
        let (machine, action) =
            machine.step(Event::FilterVerdict(Err(DynError::Catalog(String::from("down")))));
        assert_eq!(action, Action::Finish(Err(DynError::Catalog(String::from("down")))));
        assert!(machine.is_finished());
    }
}

#[test]
fn a_round_begins_with_the_partition_filter() {
    let (machine, action) = PartitionCompaction::new(config(), info(), partition_files());
    assert_eq!(action, Action::ApplyPartitionFilter);
    assert_eq!(machine.phase, Phase::PartitionFilter);
    assert_eq!(machine.files, partition_files());
    assert_eq!(
        machine.round_info,
        Some(RoundInfo {
            start_level: L0,
            target_level: L1,
            max_files_per_plan: 10,
            size_budget: 1000,
        })
    );
    assert!(!machine.is_finished());
}

#[test]
fn the_partition_filter_can_end_the_partition() {
    let (machine, _) = PartitionCompaction::new(config(), info(), partition_files());
    let (machine, action) = machine.step(Event::FilterVerdict(Ok(false)));
    assert_eq!(action, Action::Finish(Ok(())));
    assert!(machine.is_finished());

    let (machine, _) = PartitionCompaction::new(config(), info(), partition_files());
    let (machine, action) =
        machine.step(Event::FilterVerdict(Err(DynError::Catalog(String::from("down")))));
    assert_eq!(action, Action::Finish(Err(DynError::Catalog(String::from("down")))));
    assert!(machine.is_finished());
}

#[test]
fn a_branch_goes_from_classification_to_commit() {
    let (machine, _) = PartitionCompaction::new(config(), info(), partition_files());

    // the round is divided; the first branch is classified
    let (machine, action) = machine.step(Event::FilterVerdict(Ok(true)));
    assert_eq!(action, Action::ApplyPostClassificationFilter);
    assert_eq!(machine.phase, Phase::PostClassificationFilter);
    assert_eq!(ids(&machine.work.input), vec![1, 2]);
    assert_eq!(
        machine.branches.iter().map(|b| ids(b)).collect::<Vec<_>>(),
        vec![vec![3], vec![4]]
    );
    assert!(machine.files_next.is_empty());
    assert!(machine.work.files_to_keep.is_empty());
    assert!(machine.work.upgrade.is_empty());
    assert_eq!(ids(&machine.work.split_or_compact.compact), vec![1, 2]);
    assert_eq!(ids(&machine.work.files_to_delete), vec![1, 2]);
    assert_eq!(machine.work.target_level, L1);
    assert_eq!(machine.work.input_paths, vec![path(1001), path(1002)]);

    // the inputs are staged
    let (machine, action) = machine.step(Event::FilterVerdict(Ok(true)));
    assert_eq!(action, Action::LoadToScratchpad { paths: vec![path(1001), path(1002)] });
    assert_eq!(machine.phase, Phase::Staging);

    // the one plan is handed out
    let (machine, action) = machine.step(Event::Staged(vec![71, 72]));
    assert_eq!(
        action,
        Action::ExecutePlan {
            plan: PlanIR::Compact {
                files: vec![
                    PlanFile { file: file(1, L0, 0, 10, 10), staged_id: 71 },
                    PlanFile { file: file(2, L0, 5, 20, 10), staged_id: 72 },
                ],
                target_level: L1,
            }
        }
    );
    assert_eq!(machine.phase, Phase::RunningPlan);
    assert!(machine.work.plans.is_empty());

    // what it wrote goes public
    let (machine, action) = machine.step(Event::PlanFinished(Ok(vec![params(80, 0, 20)])));
    assert_eq!(action, Action::MakePublic { paths: vec![path(80)] });
    assert_eq!(machine.phase, Phase::Publishing);

    // the staged inputs are cleaned
    let (machine, action) = machine.step(Event::Published(vec![900]));
    assert_eq!(action, Action::CleanFromScratchpad { paths: vec![path(1001), path(1002)] });
    assert_eq!(machine.work.created, vec![params(900, 0, 20)]);

    let (machine, action) = machine.step(Event::Cleaned);
    assert_eq!(action, Action::FetchCatalogState);

    // the commit deletes the inputs and creates the output
    let (machine, action) = machine.step(Event::CatalogState(partition_files()));
    assert_eq!(
        action,
        Action::Commit {
            request: CommitRequest {
                partition_id: PartitionId::new(1),
                delete: vec![file(1, L0, 0, 10, 10), file(2, L0, 5, 20, 10)],
                upgrade: vec![],
                create: vec![params(900, 0, 20)],
                target_level: L1,
            },
            catalog_changed: false,
        }
    );
    assert_eq!(machine.phase, Phase::Committing);

    // the created file is carried to the next round
    let (machine, action) = machine.step(Event::Committed(vec![50]));
    assert_eq!(action, Action::SignalProgress);
    assert_eq!(machine.phase, Phase::SignallingProgress);
    assert_eq!(machine.files_next, vec![ParquetFile::from_params(params(900, 0, 20), 50)]);
    assert_eq!(machine.work, BranchWork::idle());
}

#[test]
fn the_branches_of_a_round_follow_each_other() {
    let (machine, _) = up_to_first_commit();
    let (machine, _) = machine.step(Event::Committed(vec![50]));

    // second branch: one large file on its own, upgraded as it is
    let (machine, action) = machine.step(Event::ProgressSent(true));
    assert_eq!(action, Action::ApplyPostClassificationFilter);
    assert_eq!(ids(&machine.work.input), vec![3]);
    assert_eq!(ids(&machine.work.upgrade), vec![3]);
    assert!(machine.work.files_to_delete.is_empty());
    assert_eq!(machine.branches.len(), 1);

    let (machine, action) = machine.step(Event::FilterVerdict(Ok(true)));
    assert_eq!(action, Action::LoadToScratchpad { paths: vec![] });
    // nothing to rewrite: the empty plan is dropped and nothing goes public
    let (machine, action) = machine.step(Event::Staged(vec![]));
    assert_eq!(action, Action::MakePublic { paths: vec![] });
    let (machine, action) = machine.step(Event::Published(vec![]));
    assert_eq!(action, Action::CleanFromScratchpad { paths: vec![path(1003)] });
    let (machine, _) = machine.step(Event::Cleaned);

    // someone removed the file meanwhile: reported, and committed all the same
    let (machine, action) = machine.step(Event::CatalogState(vec![file(4, L1, 1000, 1100, 10)]));
    assert_eq!(
        action,
        Action::Commit {
            request: CommitRequest {
                partition_id: PartitionId::new(1),
                delete: vec![],
                upgrade: vec![file(3, L0, 100, 200, 500)],
                create: vec![],
                target_level: L1,
            },
            catalog_changed: true,
        }
    );
    let (machine, action) = machine.step(Event::Committed(vec![]));
    assert_eq!(action, Action::SignalProgress);
    assert_eq!(
        machine.files_next,
        vec![ParquetFile::from_params(params(900, 0, 20), 50), file(3, L1, 100, 200, 500)]
    );

    // third branch: a file of the target level that nothing overlaps is kept
    let (machine, action) = machine.step(Event::ProgressSent(true));
    assert_eq!(action, Action::ApplyPostClassificationFilter);
    assert_eq!(ids(&machine.work.files_to_keep), vec![4]);
    assert!(machine.branches.is_empty());
    let (machine, _) = machine.step(Event::FilterVerdict(Ok(true)));
    let (machine, _) = machine.step(Event::Staged(vec![]));
    let (machine, _) = machine.step(Event::Published(vec![]));
    let (machine, _) = machine.step(Event::Cleaned);
    let (machine, _) = machine.step(Event::CatalogState(vec![]));
    let (machine, _) = machine.step(Event::Committed(vec![]));
    assert_eq!(ids(&machine.files_next), vec![50, 3, 4]);

    // the next round starts from what the branches left behind
    let (machine, action) = machine.step(Event::ProgressSent(true));
    assert_eq!(action, Action::ApplyPartitionFilter);
    assert_eq!(machine.phase, Phase::PartitionFilter);
    assert_eq!(ids(&machine.files), vec![50, 3, 4]);
    // the round used up every file of its start level
    assert!(machine.files.iter().all(|f| f.compaction_level != L0));
    assert_eq!(machine.round_info.unwrap().start_level, L1);
    assert_eq!(machine.round_info.unwrap().target_level, L2);
    assert!(machine.files_next.is_empty());

    let (machine, action) = machine.step(Event::FilterVerdict(Ok(false)));
    assert_eq!(action, Action::Finish(Ok(())));
    assert!(machine.is_finished());
}

#[test]
fn the_post_classification_filter_can_end_the_partition() {
    let (machine, _) = PartitionCompaction::new(config(), info(), partition_files());
    let (machine, _) = machine.step(Event::FilterVerdict(Ok(true)));
    let (machine, action) = machine.step(Event::FilterVerdict(Ok(false)));
    assert_eq!(action, Action::Finish(Ok(())));
    assert!(machine.is_finished());

    let (machine, _) = PartitionCompaction::new(config(), info(), partition_files());
    let (machine, _) = machine.step(Event::FilterVerdict(Ok(true)));
    let (_, action) =
        machine.step(Event::FilterVerdict(Err(DynError::from_message("filter broke"))));
    assert_eq!(action, Action::Finish(Err(DynError::from_message("filter broke"))));
}

#[test]
fn a_failing_plan_fails_the_partition() {
    let (machine, _) = PartitionCompaction::new(config(), info(), partition_files());
    let (machine, _) = machine.step(Event::FilterVerdict(Ok(true)));
    let (machine, _) = machine.step(Event::FilterVerdict(Ok(true)));
    let (machine, _) = machine.step(Event::Staged(vec![71, 72]));
    let (machine, action) = machine.step(Event::PlanFinished(Err(DynError::ResourcesExhausted(
        String::from("oom"),
    ))));
    assert_eq!(action, Action::Finish(Err(DynError::ResourcesExhausted(String::from("oom")))));
    assert!(machine.is_finished());
}

#[test]
fn staging_that_misses_a_file_fails_the_partition() {
    let (machine, _) = PartitionCompaction::new(config(), info(), partition_files());
    let (machine, _) = machine.step(Event::FilterVerdict(Ok(true)));
    let (machine, _) = machine.step(Event::FilterVerdict(Ok(true)));
    let (machine, action) = machine.step(Event::Staged(vec![71]));
    match action {
        Action::Finish(Err(e)) => assert_eq!(e.classify(), ErrorKind::Planner),
        other => panic!("unexpected action {:?}", other),
    }
    assert!(machine.is_finished());
}

#[test]
fn a_progress_signal_that_cannot_be_sent_is_fatal() {
    let (machine, _) = up_to_first_commit();
    let (machine, _) = machine.step(Event::Committed(vec![50]));
    let (machine, action) = machine.step(Event::ProgressSent(false));
    match action {
        Action::Finish(Err(e)) => assert_eq!(e.classify(), ErrorKind::Unknown),
        other => panic!("unexpected action {:?}", other),
    }
    assert!(machine.is_finished());
}

#[test]
fn events_out_of_place_change_nothing() {
    let (machine, _) = PartitionCompaction::new(config(), info(), partition_files());
    let (same, action) = machine.step(Event::Cleaned);
    assert_eq!(action, Action::Ignore);
    let (fresh, _) = PartitionCompaction::new(config(), info(), partition_files());
    assert_eq!(same, fresh);
    let (same, action) = same.step(Event::Committed(vec![1]));
    assert_eq!(action, Action::Ignore);
    assert_eq!(same, fresh);

    let (done, _) = PartitionCompaction::new(config(), info(), vec![]);
    let (done, action) = done.step(Event::FilterVerdict(Ok(true)));
    assert_eq!(action, Action::Finish(Ok(())));
    let (done, action) = done.step(Event::FilterVerdict(Ok(true)));
    assert_eq!(action, Action::Ignore);
    assert!(done.is_finished());
}

#[test]
fn a_round_takes_no_more_files_than_its_cap() {
    let mut narrow = config();
    narrow.round_info_source.max_files_per_plan = 2;
    narrow.round_info_source.size_budget = 0;
    let (machine, _) = PartitionCompaction::new(narrow, info(), partition_files());
    let (machine, _) = machine.step(Event::FilterVerdict(Ok(true)));
    // now: files 4 and 3; later: files 2 and 1
    assert_eq!(ids(&machine.files_next), vec![2, 1]);
    assert_eq!(ids(&machine.work.input), vec![3]);
    assert_eq!(machine.branches.iter().map(|b| ids(b)).collect::<Vec<_>>(), vec![vec![4]]);
}

#[test]
fn paths_are_listed_in_the_order_of_their_files() {
    let files = vec![file(1, L0, 0, 1, 1), file(2, L0, 0, 1, 1)];
    assert_eq!(paths_of(&info(), &files), vec![path(1001), path(1002)]);
    let created = vec![params(5, 0, 1), params(6, 0, 1)];
    assert_eq!(paths_of_params(&info(), &created), vec![path(5), path(6)]);
    assert_eq!(clone_params(&created), created);
}

#[test]
fn an_attempt_records_then_cleans() {
    let run = PartitionRun::new(PartitionId::new(9));
    assert_eq!(run.phase, RunPhase::Compacting);

    let (run, action) = run.step(RunEvent::Recorded);
    assert_eq!(action, RunAction::Ignore);
    assert_eq!(run.phase, RunPhase::Compacting);

    let (run, action) =
        run.step(RunEvent::AttemptEnded(TimeoutWithProgress::NoWorkTimeOutError));
    match action {
        RunAction::Record { partition, result } => {
            assert_eq!(partition, PartitionId::new(9));
            assert_eq!(result.unwrap_err().classify(), ErrorKind::Timeout);
        }
        other => panic!("unexpected action {:?}", other),
    }
    assert_eq!(run.phase, RunPhase::Recording);

    // a second end of the same attempt is not recorded again
    let (run, action) = run.step(RunEvent::AttemptEnded(TimeoutWithProgress::SomeWorkTryAgain));
    assert_eq!(action, RunAction::Ignore);

    let (run, action) = run.step(RunEvent::Recorded);
    assert_eq!(action, RunAction::CleanScratchpad);
    let (run, action) = run.step(RunEvent::ScratchpadCleaned);
    assert_eq!(action, RunAction::Done);
    assert_eq!(run.phase, RunPhase::Done);
    let (run, action) = run.step(RunEvent::ScratchpadCleaned);
    assert_eq!(action, RunAction::Ignore);
    assert_eq!(run.partition_id, PartitionId::new(9));
}

#[test]
fn an_attempt_reports_what_the_compaction_returned() {
    let run = PartitionRun::new(PartitionId::new(9));
    let (_, action) = run.step(RunEvent::AttemptEnded(TimeoutWithProgress::Completed(Err(
        DynError::ObjectStore(String::from("gone")),
    ))));
    assert_eq!(
        action,
        RunAction::Record {
            partition: PartitionId::new(9),
            result: Err(DynError::ObjectStore(String::from("gone"))),
        }
    );
    let run = PartitionRun::new(PartitionId::new(9));
    let (_, action) = run.step(RunEvent::AttemptEnded(TimeoutWithProgress::SomeWorkTryAgain));
    assert_eq!(action, RunAction::Record { partition: PartitionId::new(9), result: Ok(()) });
}

#[test]
fn idle_work_holds_nothing_of_an_earlier_branch() {
    let work = BranchWork::idle();
    assert!(work.input.is_empty());
    assert!(work.saved_state.ids.is_empty());
    assert!(!work.saved_state.contains((1, 1001)));
    assert!(work.input_paths.is_empty());
    assert_eq!(work.target_level, L0);
    assert!(work.files_to_keep.is_empty());
    assert!(work.upgrade.is_empty());
    assert!(work.split_or_compact.is_empty());
    assert!(work.files_to_delete.is_empty());
    assert!(work.plans.is_empty());
    assert!(work.created.is_empty());

    // after a commit the machine is back to it
    let (machine, _) = up_to_first_commit();
    assert!(!machine.work.saved_state.ids.is_empty());
    let (machine, _) = machine.step(Event::Committed(vec![50]));
    assert_eq!(machine.work, BranchWork::idle());
}
