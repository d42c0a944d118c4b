//! Sorting the files of a branch into those to keep, to upgrade, to split
//! and to compact.

use vstd::prelude::*;
use vstd::seq_lib::*;
use crate::catalog::upgraded;
use crate::file::{overlaps, CompactionLevel, ParquetFile, ParquetFilePath, PartitionInfo};
use crate::round::RoundInfo;

verus! {

/// What becomes of a file in one round.
#[derive(Clone, Copy, Debug, PartialEq, Eq, Structural)]
pub enum FileClass {
    /// Left as it is, for a later round.
    Keep,
    /// Moved to the target level without rewriting its data.
    Upgrade,
    /// Cut along the time boundaries of the target-level files it overlaps.
    Split,
    /// Merged with the other files to compact.
    Compact,
}

/// A file to be cut, and the instants after which it is cut.
#[derive(Debug, PartialEq, Eq)]
pub struct FileToSplit {
    pub file: ParquetFile,
    pub split_times: Vec<i64>,
}

/// The files that need their data rewritten.
#[derive(Debug, PartialEq, Eq)]
pub struct FilesToSplitOrCompact {
    pub split: Vec<FileToSplit>,
    pub compact: Vec<ParquetFile>,
}

/// The files on which the round makes progress.
#[derive(Debug, PartialEq, Eq)]
pub struct FilesForProgress {
    pub upgrade: Vec<ParquetFile>,
    pub split_or_compact: FilesToSplitOrCompact,
}

/// The classification of one branch.
#[derive(Debug, PartialEq, Eq)]
pub struct FileClassification {
    pub target_level: CompactionLevel,
    pub files_to_keep: Vec<ParquetFile>,
    pub files_to_make_progress_on: FilesForProgress,
}

/// How many of the first `n` files, the one at `i` left out, are at `level`
/// and overlap the file at `i`.
pub open spec fn overlap_count(
    files: Seq<ParquetFile>,
    i: int,
    level: CompactionLevel,
    n: int,
) -> nat
    decreases n,
{
    if n <= 0 {
        0
    } else {
        overlap_count(files, i, level, n - 1) + if n - 1 != i && files[n - 1].compaction_level == level
            && overlaps(files[i], files[n - 1]) {
            1nat
        } else {
            0nat
        }
    }
}

/// How many other files of the branch at `level` overlap the file at `i`.
pub open spec fn others_overlapping(
    files: Seq<ParquetFile>,
    i: int,
    level: CompactionLevel,
) -> nat {
    overlap_count(files, i, level, files.len() as int)
}

/// The class of the file at `i` of a branch.
///
/// Kept: files above the target level, and files at the target level that
/// no other start-level file overlaps. Upgraded: start-level files that no
/// other start-level or target-level file overlaps and that are at least
/// `large` bytes. Split: remaining start-level files below the target level
/// that overlap more than one target-level file. Compacted: all others.
pub open spec fn class_of(
    files: Seq<ParquetFile>,
    i: int,
    round: RoundInfo,
    large: i64,
) -> FileClass {
    let file = files[i];
    if file.compaction_level.rank() > round.target_level.rank() {
        FileClass::Keep
    } else if file.compaction_level == round.target_level && others_overlapping(
        files,
        i,
        round.start_level,
    ) == 0 {
        FileClass::Keep
    } else if file.compaction_level == round.start_level && others_overlapping(
        files,
        i,
        round.start_level,
    ) == 0 && others_overlapping(files, i, round.target_level) == 0 && file.file_size_bytes >= large {
        FileClass::Upgrade
    } else if file.compaction_level == round.start_level && round.start_level != round.target_level
        && others_overlapping(files, i, round.target_level) > 1 {
        FileClass::Split
    } else {
        FileClass::Compact
    }
}

/// Those of the first `n` files that are of class `class`, in their order.
pub open spec fn pick(
    files: Seq<ParquetFile>,
    round: RoundInfo,
    large: i64,
    class: FileClass,
    n: int,
) -> Seq<ParquetFile>
    decreases n,
{
    if n <= 0 {
        Seq::empty()
    } else if class_of(files, n - 1, round, large) == class {
        pick(files, round, large, class, n - 1).push(files[n - 1])
    } else {
        pick(files, round, large, class, n - 1)
    }
}

/// All files of the branch that are of class `class`, in their order.
pub open spec fn of_class(
    files: Seq<ParquetFile>,
    round: RoundInfo,
    large: i64,
    class: FileClass,
) -> Seq<ParquetFile> {
    pick(files, round, large, class, files.len() as int)
}

/// An instant after which `file` is cut: the end of a file at `level` that
/// overlaps it and ends before it does.
pub open spec fn is_split_time(
    files: Seq<ParquetFile>,
    file: ParquetFile,
    level: CompactionLevel,
    t: i64,
) -> bool {
    exists|j: int|
        0 <= j < files.len() && (#[trigger] files[j]).compaction_level == level && overlaps(file, files[j])
            && files[j].max_time == t && t < file.max_time
}

/// Each instant is later than the one before it.
pub open spec fn strictly_increasing(times: Seq<i64>) -> bool {
    forall|i: int, j: int| 0 <= i < j < times.len() ==> times[i] < times[j]
}

/// The split times of `file` within the branch: every instant that is one,
/// once, in ascending order.
pub open spec fn are_split_times(
    times: Seq<i64>,
    files: Seq<ParquetFile>,
    file: ParquetFile,
    level: CompactionLevel,
) -> bool {
    &&& strictly_increasing(times)
    &&& forall|t: i64| times.contains(t) <==> is_split_time(files, file, level, t)
}

/// The files held by the entries of a split list.
pub open spec fn split_files(split: Seq<FileToSplit>) -> Seq<ParquetFile> {
    split.map_values(|s: FileToSplit| s.file)
}

impl FilesToSplitOrCompact {
    /// The files that this round rewrites: those to split, then those to
    /// compact.
    pub open spec fn spec_files(self) -> Seq<ParquetFile> {
        split_files(self.split@) + self.compact@
    }

    /// Whether there is nothing to rewrite.
    pub fn is_empty(&self) -> (empty: bool)
        ensures
            empty == (self.spec_files().len() == 0),
    {
        self.split.len() == 0 && self.compact.len() == 0
    }

    /// Where the files to rewrite lie in the object store.
    pub fn file_input_paths(&self, info: &PartitionInfo) -> (paths: Vec<ParquetFilePath>)
        ensures
            paths@.len() == self.spec_files().len(),
            forall|k: int|
                0 <= k < paths@.len() ==> #[trigger] paths@[k] == ParquetFilePath::spec_for_file(
                    *info,
                    self.spec_files()[k],
                ),
    {
        let mut paths: Vec<ParquetFilePath> = Vec::new();
        let mut i: usize = 0;
        while i < self.split.len()
            invariant
                i <= self.split.len(),
                paths@.len() == i,
                forall|k: int|
                    0 <= k < i ==> #[trigger] paths@[k] == ParquetFilePath::spec_for_file(
                        *info,
                        self.spec_files()[k],
                    ),
            decreases self.split.len() - i,
        {
            paths.push(ParquetFilePath::for_file(info, &self.split[i].file));
            i += 1;
        }
        let mut j: usize = 0;
        while j < self.compact.len()
            invariant
                j <= self.compact.len(),
                paths@.len() == self.split@.len() + j,
                forall|k: int|
                    0 <= k < paths@.len() ==> #[trigger] paths@[k] == ParquetFilePath::spec_for_file(
                        *info,
                        self.spec_files()[k],
                    ),
            decreases self.compact.len() - j,
        {
            paths.push(ParquetFilePath::for_file(info, &self.compact[j]));
            j += 1;
        }
        paths
    }

    /// The files to rewrite, given up by this value: those to split, then
    /// those to compact.
    pub fn into_files(self) -> (files: Vec<ParquetFile>)
        ensures
            files@ == self.spec_files(),
    {
        let ghost split = self.split@;
        let mut files: Vec<ParquetFile> = Vec::new();
        for entry in it: self.split
            invariant
                it.seq() == split,
                files@ == split_files(split.take(it.index() as int)),
        {
            files.push(entry.file);
            assert(split.take(it.index() + 1) =~= split.take(it.index() as int).push(entry));
            assert(files@ =~= split_files(split.take(it.index() + 1)));
        }
        assert(split.take(split.len() as int) =~= split);
        let mut compact = self.compact;
        files.append(&mut compact);
        files
    }
}

/// The sum of what a classification holds is the branch it was made from:
/// each file is in exactly one of the four lists.
pub open spec fn partitions(classification: FileClassification, files: Seq<ParquetFile>) -> bool {
    files.to_multiset() == classification.files_to_keep@.to_multiset().add(
        classification.files_to_make_progress_on.upgrade@.to_multiset(),
    ).add(
        split_files(classification.files_to_make_progress_on.split_or_compact.split@).to_multiset(),
    ).add(classification.files_to_make_progress_on.split_or_compact.compact@.to_multiset())
}

/// Every file of a branch is in exactly one of the four classes: the branch
/// is the disjoint union of what is kept, upgraded, split and compacted.
pub proof fn lemma_each_file_in_one_class(files: Seq<ParquetFile>, round: RoundInfo, large: i64)
    ensures
        files.to_multiset() == of_class(files, round, large, FileClass::Keep).to_multiset().add(
            of_class(files, round, large, FileClass::Upgrade).to_multiset(),
        ).add(of_class(files, round, large, FileClass::Split).to_multiset()).add(
            of_class(files, round, large, FileClass::Compact).to_multiset(),
        ),
{
    lemma_classes_partition(files, round, large, files.len() as int);
    assert(files.take(files.len() as int) =~= files);
}

/// In a round that moves files up a level, no file of the start level is
/// kept: each is upgraded, split or compacted, so none is left at the start
/// level once the branch is committed.
pub proof fn lemma_start_level_is_consumed(
    files: Seq<ParquetFile>,
    round: RoundInfo,
    large: i64,
    i: int,
)
    requires
        0 <= i < files.len(),
        round.start_level.rank() < round.target_level.rank(),
        files[i].compaction_level == round.start_level,
    ensures
        class_of(files, i, round, large) != FileClass::Keep,
{
}

/// Each file in the list of a class is a file of the branch, of that class.
pub proof fn lemma_picked(
    files: Seq<ParquetFile>,
    round: RoundInfo,
    large: i64,
    class: FileClass,
    n: int,
    k: int,
) -> (i: int)
    requires
        0 <= n <= files.len(),
        0 <= k < pick(files, round, large, class, n).len(),
    ensures
        0 <= i < n,
        files[i] == pick(files, round, large, class, n)[k],
        class_of(files, i, round, large) == class,
    decreases n,
{
    if class_of(files, n - 1, round, large) == class && k == pick(files, round, large, class, n - 1).len() {
        n - 1
    } else {
        lemma_picked(files, round, large, class, n - 1, k)
    }
}

/// In a round that moves files up a level, every file that is kept is at
/// the target level or above it, and so not at the start level.
pub proof fn lemma_kept_files_are_above_start(
    files: Seq<ParquetFile>,
    round: RoundInfo,
    large: i64,
    k: int,
)
    requires
        round.start_level.rank() < round.target_level.rank(),
        0 <= k < of_class(files, round, large, FileClass::Keep).len(),
    ensures
        of_class(files, round, large, FileClass::Keep)[k].compaction_level.rank()
            >= round.target_level.rank(),
        of_class(files, round, large, FileClass::Keep)[k].compaction_level != round.start_level,
{
    let i = lemma_picked(files, round, large, FileClass::Keep, files.len() as int, k);
}

/// The level of a file only ever goes up: where the target level of a round
/// is not below its start level, an upgrade lowers no file's level.
pub proof fn lemma_upgrade_never_lowers_level(
    files: Seq<ParquetFile>,
    round: RoundInfo,
    large: i64,
    i: int,
)
    requires
        0 <= i < files.len(),
        round.start_level.rank() <= round.target_level.rank(),
        class_of(files, i, round, large) == FileClass::Upgrade,
    ensures
        upgraded(files[i], round.target_level).compaction_level.rank()
            >= files[i].compaction_level.rank(),
{
}

/// A file is upgraded only if it stands alone: no other file of the branch
/// at the start or the target level overlaps it.
pub proof fn lemma_upgraded_files_stand_alone(
    files: Seq<ParquetFile>,
    round: RoundInfo,
    large: i64,
    i: int,
)
    requires
        0 <= i < files.len(),
        class_of(files, i, round, large) == FileClass::Upgrade,
    ensures
        files[i].compaction_level == round.start_level,
        files[i].file_size_bytes >= large,
        others_overlapping(files, i, round.start_level) == 0,
        others_overlapping(files, i, round.target_level) == 0,
{
}

/// The first `n` files fall into the four classes.
proof fn lemma_classes_partition(files: Seq<ParquetFile>, round: RoundInfo, large: i64, n: int)
    requires
        0 <= n <= files.len(),
    ensures
        files.take(n).to_multiset() == pick(files, round, large, FileClass::Keep, n).to_multiset().add(
            pick(files, round, large, FileClass::Upgrade, n).to_multiset(),
        ).add(pick(files, round, large, FileClass::Split, n).to_multiset()).add(
            pick(files, round, large, FileClass::Compact, n).to_multiset(),
        ),
    decreases n,
{
    broadcast use to_multiset_build;

    if n == 0 {
        let none = Seq::<ParquetFile>::empty();
        assert(files.take(0) =~= none);
        none.to_multiset_ensures();
        assert forall|file: ParquetFile| none.to_multiset().count(file) == 0 by {
            assert(!none.contains(file));
        }
        assert(none.to_multiset() =~= none.to_multiset().add(none.to_multiset()).add(
            none.to_multiset(),
        ).add(none.to_multiset()));
    } else {
        lemma_classes_partition(files, round, large, n - 1);
        assert(files.take(n) =~= files.take(n - 1).push(files[n - 1]));
        let keep = pick(files, round, large, FileClass::Keep, n - 1).to_multiset();
        let upgrade = pick(files, round, large, FileClass::Upgrade, n - 1).to_multiset();
        let split = pick(files, round, large, FileClass::Split, n - 1).to_multiset();
        let compact = pick(files, round, large, FileClass::Compact, n - 1).to_multiset();
        let file = files[n - 1];
        assert(files.take(n).to_multiset() =~= keep.add(upgrade).add(split).add(compact).insert(file));
        match class_of(files, n - 1, round, large) {
            FileClass::Keep => {
                assert(keep.insert(file).add(upgrade).add(split).add(compact) =~= keep.add(upgrade).add(
                    split,
                ).add(compact).insert(file));
            },
            FileClass::Upgrade => {
                assert(keep.add(upgrade.insert(file)).add(split).add(compact) =~= keep.add(upgrade).add(
                    split,
                ).add(compact).insert(file));
            },
            FileClass::Split => {
                assert(keep.add(upgrade).add(split.insert(file)).add(compact) =~= keep.add(upgrade).add(
                    split,
                ).add(compact).insert(file));
            },
            FileClass::Compact => {
                assert(keep.add(upgrade).add(split).add(compact.insert(file)) =~= keep.add(upgrade).add(
                    split,
                ).add(compact).insert(file));
            },
        }
    }
}

/// Counts the other files of the branch at `level` that overlap the file at
/// `i`.
pub fn count_overlapping(
    files: &Vec<ParquetFile>,
    i: usize,
    level: CompactionLevel,
) -> (count: usize)
    requires
        i < files@.len(),
    ensures
        count == others_overlapping(files@, i as int, level),
{
    let mut count: usize = 0;
    let mut j: usize = 0;
    while j < files.len()
        invariant
            i < files@.len(),
            j <= files.len(),
            count <= j,
            count == overlap_count(files@, i as int, level, j as int),
        decreases files.len() - j,
    {
        if j != i && files[j].compaction_level == level && files[i].overlaps_with(&files[j]) {
            count += 1;
        }
        j += 1;
    }
    count
}

/// `after` holds what `before` holds, and `t`.
pub open spec fn holds_also(after: Seq<i64>, before: Seq<i64>, t: i64) -> bool {
    forall|x: i64| after.contains(x) <==> (before.contains(x) || x == t)
}

/// Puts `t` into an ascending list of distinct instants, unless it is there.
pub fn insert_time(times: &mut Vec<i64>, t: i64)
    requires
        strictly_increasing(old(times)@),
    ensures
        strictly_increasing(final(times)@),
        holds_also(final(times)@, old(times)@, t),
{
    let ghost before = times@;
    let mut at: usize = 0;
    while at < times.len() && times[at] < t
        invariant
            at <= times.len(),
            times@ == before,
            forall|k: int| 0 <= k < at ==> times@[k] < t,
        decreases times.len() - at,
    {
        at += 1;
    }
    if at < times.len() && times[at] == t {
        assert(before.contains(t));
        assert(holds_also(times@, before, t));
        return ;
    }
    times.insert(at, t);
    proof {
        assert(times@ =~= before.insert(at as int, t));
        assert forall|i: int, j: int| 0 <= i < j < times@.len() implies times@[i] < times@[j] by {
            let bi = if i < at { i } else { i - 1 };
            let bj = if j < at { j } else { j - 1 };
            if i != at && j != at {
                assert(before[bi] < before[bj]);
            } else if i == at {
                assert(before[at as int] <= before[bj]);
            }
        }
        assert forall|x: i64| times@.contains(x) <==> (before.contains(x) || x == t) by {
            if times@.contains(x) {
                let k = choose|k: int| 0 <= k < times@.len() && times@[k] == x;
                if k != at {
                    let bk = if k < at { k } else { k - 1 };
                    assert(before[bk] == x);
                }
            }
            if before.contains(x) {
                let k = choose|k: int| 0 <= k < before.len() && before[k] == x;
                let nk = if k < at { k } else { k + 1 };
                assert(times@[nk] == x);
            }
            if x == t {
                assert(times@[at as int] == t);
            }
        }
        assert(holds_also(times@, before, t));
    }
}

/// The instants after which `file` is cut, given the other files of its
/// branch: the ends of the `level` files that overlap it and end before it.
pub fn compute_split_times(
    files: &Vec<ParquetFile>,
    file: &ParquetFile,
    level: CompactionLevel,
) -> (times: Vec<i64>)
    ensures
        are_split_times(times@, files@, *file, level),
{
    let mut times: Vec<i64> = Vec::new();
    let mut j: usize = 0;
    while j < files.len()
        invariant
            j <= files.len(),
            strictly_increasing(times@),
            forall|t: i64| times@.contains(t) <==> is_split_time(files@.take(j as int), *file, level, t),
        decreases files.len() - j,
    {
        let ghost seen = files@.take(j as int);
        let ghost before = times@;
        let other = &files[j];
        let cut = other.compaction_level == level && file.overlaps_with(other) && other.max_time
            < file.max_time;
        if cut {
            insert_time(&mut times, other.max_time);
        }
        proof {
            let grown = files@.take(j + 1);
            assert(grown =~= seen.push(*other));
            assert forall|t: i64| times@.contains(t) <==> is_split_time(grown, *file, level, t) by {
                if is_split_time(grown, *file, level, t) {
                    let k = choose|k: int|
                        0 <= k < grown.len() && (#[trigger] grown[k]).compaction_level == level && overlaps(
                            *file,
                            grown[k],
                        ) && grown[k].max_time == t && t < file.max_time;
                    if k < j {
                        assert(seen[k] == grown[k]);
                        assert(is_split_time(seen, *file, level, t));
                    }
                }
                if is_split_time(seen, *file, level, t) {
                    let k = choose|k: int|
                        0 <= k < seen.len() && (#[trigger] seen[k]).compaction_level == level && overlaps(
                            *file,
                            seen[k],
                        ) && seen[k].max_time == t && t < file.max_time;
                    assert(grown[k] == seen[k]);
                }
                if cut && t == other.max_time {
                    assert(grown[j as int] == *other);
                }
            }
        }
        j += 1;
    }
    proof {
        assert(files@.take(files@.len() as int) =~= files@);
    }
    times
}

/// Sorts the files of a branch into what the round does with each.
#[derive(Clone, Copy, Debug, PartialEq, Eq, Structural)]
pub struct FileClassifier {
    /// Size from which a start-level file is moved up as it is rather than
    /// rewritten.
    pub max_desired_file_size_bytes: i64,
}

impl FileClassifier {
    pub fn new(max_desired_file_size_bytes: i64) -> (classifier: Self)
        ensures
            classifier.max_desired_file_size_bytes == max_desired_file_size_bytes,
    {
        FileClassifier { max_desired_file_size_bytes }
    }

    /// Decides the class of the file at `i` of the branch.
    pub fn classify_file(
        &self,
        round_info: &RoundInfo,
        files: &Vec<ParquetFile>,
        i: usize,
    ) -> (class: FileClass)
        requires
            i < files@.len(),
        ensures
            class == class_of(files@, i as int, *round_info, self.max_desired_file_size_bytes),
    {
        let file = &files[i];
        let level = file.compaction_level;
        if level.number() > round_info.target_level.number() {
            return FileClass::Keep;
        }
        let at_start = count_overlapping(files, i, round_info.start_level);
        if level == round_info.target_level && at_start == 0 {
            return FileClass::Keep;
        }
        let at_target = count_overlapping(files, i, round_info.target_level);
        if level == round_info.start_level && at_start == 0 && at_target == 0 && file.file_size_bytes
            >= self.max_desired_file_size_bytes {
            return FileClass::Upgrade;
        }
        if level == round_info.start_level && round_info.start_level != round_info.target_level
            && at_target > 1 {
            return FileClass::Split;
        }
        FileClass::Compact
    }

    /// Classifies the files of one branch for a round from
    /// `round_info.start_level` to `round_info.target_level`.
    pub fn classify(
        &self,
        partition_info: &PartitionInfo,
        round_info: &RoundInfo,
        files: Vec<ParquetFile>,
    ) -> (classification: FileClassification)
        ensures
            classification.target_level == round_info.target_level,
            classification.files_to_keep@ == of_class(
                files@,
                *round_info,
                self.max_desired_file_size_bytes,
                FileClass::Keep,
            ),
            classification.files_to_make_progress_on.upgrade@ == of_class(
                files@,
                *round_info,
                self.max_desired_file_size_bytes,
                FileClass::Upgrade,
            ),
            split_files(classification.files_to_make_progress_on.split_or_compact.split@) == of_class(
                files@,
                *round_info,
                self.max_desired_file_size_bytes,
                FileClass::Split,
            ),
            classification.files_to_make_progress_on.split_or_compact.compact@ == of_class(
                files@,
                *round_info,
                self.max_desired_file_size_bytes,
                FileClass::Compact,
            ),
            forall|k: int|
                0 <= k < classification.files_to_make_progress_on.split_or_compact.split@.len()
                    ==> are_split_times(
                    (#[trigger] classification.files_to_make_progress_on.split_or_compact.split@[k]).split_times@,
                    files@,
                    classification.files_to_make_progress_on.split_or_compact.split@[k].file,
                    round_info.target_level,
                ),
            partitions(classification, files@),
    {
        let large = self.max_desired_file_size_bytes;
        let mut keep: Vec<ParquetFile> = Vec::new();
        let mut upgrade: Vec<ParquetFile> = Vec::new();
        let mut split: Vec<FileToSplit> = Vec::new();
        let mut compact: Vec<ParquetFile> = Vec::new();
        let mut i: usize = 0;
        while i < files.len()
            invariant
                i <= files.len(),
                large == self.max_desired_file_size_bytes,
                keep@ == pick(files@, *round_info, large, FileClass::Keep, i as int),
                upgrade@ == pick(files@, *round_info, large, FileClass::Upgrade, i as int),
                split_files(split@) == pick(files@, *round_info, large, FileClass::Split, i as int),
                compact@ == pick(files@, *round_info, large, FileClass::Compact, i as int),
                forall|k: int|
                    0 <= k < split@.len() ==> are_split_times(
                        (#[trigger] split@[k]).split_times@,
                        files@,
                        split@[k].file,
                        round_info.target_level,
                    ),
            decreases files.len() - i,
        {
            let class = self.classify_file(round_info, &files, i);
            let file = files[i].clone();
            match class {
                FileClass::Keep => {
                    keep.push(file);
                },
                FileClass::Upgrade => {
                    upgrade.push(file);
                },
                FileClass::Split => {
                    let ghost before = split@;
                    let split_times = compute_split_times(&files, &file, round_info.target_level);
                    let entry = FileToSplit { file, split_times };
                    split.push(entry);
                    assert(split_files(split@) =~= split_files(before).push(files@[i as int]));
                },
                FileClass::Compact => {
                    compact.push(file);
                },
            }
            i += 1;
        }
        proof {
            lemma_classes_partition(files@, *round_info, large, files@.len() as int);
            assert(files@.take(files@.len() as int) =~= files@);
        }
        FileClassification {
            target_level: round_info.target_level,
            files_to_keep: keep,
            files_to_make_progress_on: FilesForProgress {
                upgrade,
                split_or_compact: FilesToSplitOrCompact { split, compact },
            },
        }
    }
}

} // verus!
