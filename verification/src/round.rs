//! Planning one round: which levels it works on, which files it takes now,
//! and how those files part into branches that do not overlap in time.

use vstd::prelude::*;
use vstd::seq_lib::*;
use crate::file::{overlaps, CompactionLevel, ParquetFile, PartitionInfo};

verus! {

/// What one round of compaction works on.
#[derive(Clone, Copy, Debug, PartialEq, Eq, Structural)]
pub struct RoundInfo {
    /// The lowest level that has files; they are what the round consumes.
    pub start_level: CompactionLevel,
    /// The level of the files that the round produces.
    pub target_level: CompactionLevel,
    /// No more than this many files are taken up in the round.
    pub max_files_per_plan: usize,
    /// Below this many bytes a crowd of start-level files counts as small.
    pub size_budget: u64,
}

/// Decides what the next round does, from the files of the partition alone.
#[derive(Clone, Copy, Debug, PartialEq, Eq, Structural)]
pub struct RoundInfoSource {
    pub max_files_per_plan: usize,
    pub size_budget: u64,
}

/// Whether any of the files is at `level`.
pub open spec fn has_level(files: Seq<ParquetFile>, level: CompactionLevel) -> bool {
    exists|i: int| 0 <= i < files.len() && (#[trigger] files[i]).compaction_level == level
}

/// How many of the first `n` files are at `level`.
pub open spec fn count_at_level(files: Seq<ParquetFile>, level: CompactionLevel, n: int) -> nat
    decreases n,
{
    if n <= 0 {
        0
    } else {
        count_at_level(files, level, n - 1) + if files[n - 1].compaction_level == level {
            1nat
        } else {
            0nat
        }
    }
}

/// The bytes that the first `n` files hold at `level`.
pub open spec fn bytes_at_level(files: Seq<ParquetFile>, level: CompactionLevel, n: int) -> int
    decreases n,
{
    if n <= 0 {
        0
    } else {
        bytes_at_level(files, level, n - 1) + if files[n - 1].compaction_level == level {
            files[n - 1].file_size_bytes as int
        } else {
            0
        }
    }
}

/// The level a round starts from: the initial level if it has files, else
/// the non-overlapped level if that has files, else none.
pub open spec fn spec_start_level(files: Seq<ParquetFile>) -> Option<CompactionLevel> {
    if has_level(files, CompactionLevel::Initial) {
        Some(CompactionLevel::Initial)
    } else if has_level(files, CompactionLevel::FileNonOverlapped) {
        Some(CompactionLevel::FileNonOverlapped)
    } else {
        None
    }
}

/// Many small files: more start-level files than one plan takes, holding
/// fewer bytes than the budget. Such a round compacts within its level.
pub open spec fn many_small_files(
    files: Seq<ParquetFile>,
    start: CompactionLevel,
    max_files_per_plan: usize,
    size_budget: u64,
) -> bool {
    count_at_level(files, start, files.len() as int) > max_files_per_plan && bytes_at_level(
        files,
        start,
        files.len() as int,
    ) < size_budget
}

impl RoundInfoSource {
    /// The round that `files` call for, if any.
    pub open spec fn spec_calculate(self, files: Seq<ParquetFile>) -> Option<RoundInfo> {
        match spec_start_level(files) {
            None => None,
            Some(start) => Some(
                RoundInfo {
                    start_level: start,
                    target_level: if many_small_files(
                        files,
                        start,
                        self.max_files_per_plan,
                        self.size_budget,
                    ) {
                        start
                    } else {
                        start.spec_next()
                    },
                    max_files_per_plan: self.max_files_per_plan,
                    size_budget: self.size_budget,
                },
            ),
        }
    }

    /// Decides the start and target level of the next round, or that no
    /// round is needed because no file is below the final level.
    pub fn calculate(
        &self,
        partition_info: &PartitionInfo,
        files: &Vec<ParquetFile>,
    ) -> (round: Option<RoundInfo>)
        ensures
            round == self.spec_calculate(files@),
            round matches Some(r) ==> has_level(files@, r.start_level) && (r.target_level
                == r.start_level || r.target_level == r.start_level.spec_next())
                && r.start_level != CompactionLevel::Final,
    {
        let start = if level_present(files, CompactionLevel::Initial) {
            CompactionLevel::Initial
        } else if level_present(files, CompactionLevel::FileNonOverlapped) {
            CompactionLevel::FileNonOverlapped
        } else {
            return None;
        };
        let (count, bytes) = level_totals(files, start);
        let crowded = count > self.max_files_per_plan && bytes < self.size_budget as i128;
        let target = if crowded {
            start
        } else {
            start.next()
        };
        Some(
            RoundInfo {
                start_level: start,
                target_level: target,
                max_files_per_plan: self.max_files_per_plan,
                size_budget: self.size_budget,
            },
        )
    }
}

/// Whether any of the files is at `level`.
pub fn level_present(files: &Vec<ParquetFile>, level: CompactionLevel) -> (found: bool)
    ensures
        found == has_level(files@, level),
{
    let mut i: usize = 0;
    while i < files.len()
        invariant
            i <= files.len(),
            forall|j: int| 0 <= j < i ==> (#[trigger] files@[j]).compaction_level != level,
        decreases files.len() - i,
    {
        if files[i].compaction_level == level {
            return true;
        }
        i += 1;
    }
    false
}

/// Number and bytes of the files at `level`.
pub fn level_totals(files: &Vec<ParquetFile>, level: CompactionLevel) -> (totals: (usize, i128))
    ensures
        totals.0 == count_at_level(files@, level, files@.len() as int),
        totals.1 == bytes_at_level(files@, level, files@.len() as int),
{
    let mut count: usize = 0;
    let mut bytes: i128 = 0;
    let mut i: usize = 0;
    while i < files.len()
        invariant
            i <= files.len(),
            count == count_at_level(files@, level, i as int),
            count <= i,
            bytes == bytes_at_level(files@, level, i as int),
            -(i as int) * 0x8000_0000_0000_0000 <= bytes <= (i as int) * 0x8000_0000_0000_0000,
        decreases files.len() - i,
    {
        if files[i].compaction_level == level {
            count += 1;
            bytes += files[i].file_size_bytes as i128;
        }
        i += 1;
    }
    (count, bytes)
}

/// Splits the files of a partition into those worked on in this round and
/// those carried over: the round takes the first `max_files_per_plan`.
pub fn round_split(files: Vec<ParquetFile>, round_info: RoundInfo) -> (parts: (
    Vec<ParquetFile>,
    Vec<ParquetFile>,
))
    ensures
        parts.0@ + parts.1@ == files@,
        parts.0@.len() == if files@.len() <= round_info.max_files_per_plan {
            files@.len()
        } else {
            round_info.max_files_per_plan as nat
        },
{
    let mut now = files;
    if now.len() <= round_info.max_files_per_plan {
        let later: Vec<ParquetFile> = Vec::new();
        assert(now@ + later@ =~= files@);
        (now, later)
    } else {
        let later = now.split_off(round_info.max_files_per_plan);
        assert(now@ + later@ =~= files@);
        (now, later)
    }
}

/// Files in the order of their first instant.
pub open spec fn sorted_by_min_time(files: Seq<ParquetFile>) -> bool {
    forall|i: int, j: int|
        0 <= i <= j < files.len() ==> (#[trigger] files[i]).min_time <= (#[trigger] files[j]).min_time
}

/// Where `file` goes into files that are in the order of their start:
/// behind the last of them that starts no later than it does.
pub open spec fn place_of(sorted: Seq<ParquetFile>, file: ParquetFile) -> int
    decreases sorted.len(),
{
    if sorted.len() > 0 && sorted.last().min_time > file.min_time {
        place_of(sorted.drop_last(), file)
    } else {
        sorted.len() as int
    }
}

/// The files in the order of their start. Files that start together keep
/// the order they came in.
pub open spec fn in_time_order(files: Seq<ParquetFile>) -> Seq<ParquetFile>
    decreases files.len(),
{
    if files.len() == 0 {
        Seq::empty()
    } else {
        let sorted = in_time_order(files.drop_last());
        sorted.insert(place_of(sorted, files.last()), files.last())
    }
}

proof fn lemma_place_of(sorted: Seq<ParquetFile>, file: ParquetFile)
    ensures
        0 <= place_of(sorted, file) <= sorted.len(),
        forall|k: int|
            place_of(sorted, file) <= k < sorted.len() ==> (#[trigger] sorted[k]).min_time > file.min_time,
        place_of(sorted, file) > 0 ==> sorted[place_of(sorted, file) - 1].min_time <= file.min_time,
    decreases sorted.len(),
{
    if sorted.len() > 0 && sorted.last().min_time > file.min_time {
        lemma_place_of(sorted.drop_last(), file);
        assert forall|k: int| place_of(sorted, file) <= k < sorted.len() implies (
        #[trigger] sorted[k]).min_time > file.min_time by {
            if k < sorted.len() - 1 {
                assert(sorted.drop_last()[k] == sorted[k]);
            }
        }
        if place_of(sorted, file) > 0 {
            assert(sorted.drop_last()[place_of(sorted, file) - 1] == sorted[place_of(sorted, file) - 1]);
        }
    }
}

proof fn lemma_insert_in_place(sorted: Seq<ParquetFile>, file: ParquetFile)
    requires
        sorted_by_min_time(sorted),
    ensures
        sorted_by_min_time(sorted.insert(place_of(sorted, file), file)),
{
    lemma_place_of(sorted, file);
    let at = place_of(sorted, file);
    let grown = sorted.insert(at, file);
    assert forall|i: int, j: int| 0 <= i <= j < grown.len() implies (#[trigger] grown[i]).min_time <= (
    #[trigger] grown[j]).min_time by {
        let bi = if i < at { i } else { i - 1 };
        let bj = if j < at { j } else { j - 1 };
        if i != at && j != at {
            assert(sorted[bi].min_time <= sorted[bj].min_time);
        }
        if i == at && j != at {
            assert(sorted[bj].min_time > file.min_time);
        }
        if j == at && i != at {
            assert(sorted[at - 1].min_time <= file.min_time);
            assert(sorted[bi].min_time <= sorted[at - 1].min_time);
        }
    }
}

/// Putting files in the order of their start loses none and adds none, and
/// each file starts no later than those behind it.
pub proof fn lemma_time_order(files: Seq<ParquetFile>)
    ensures
        sorted_by_min_time(in_time_order(files)),
        in_time_order(files).to_multiset() == files.to_multiset(),
        in_time_order(files).len() == files.len(),
    decreases files.len(),
{
    broadcast use {to_multiset_insert, to_multiset_build};

    if files.len() > 0 {
        let shorter = files.drop_last();
        lemma_time_order(shorter);
        lemma_place_of(in_time_order(shorter), files.last());
        lemma_insert_in_place(in_time_order(shorter), files.last());
        assert(files =~= shorter.push(files.last()));
        assert(files.to_multiset() =~= shorter.to_multiset().insert(files.last()));
        assert(in_time_order(files).to_multiset() =~= in_time_order(shorter).to_multiset().insert(
            files.last(),
        ));
    } else {
        assert(files =~= Seq::<ParquetFile>::empty());
    }
}

/// Sorts files by the time they start at. Files that start together keep
/// the order they came in.
pub fn sort_by_min_time(files: Vec<ParquetFile>) -> (sorted: Vec<ParquetFile>)
    ensures
        sorted@ == in_time_order(files@),
        sorted_by_min_time(sorted@),
        sorted@.to_multiset() == files@.to_multiset(),
        sorted@.len() == files@.len(),
{
    let ghost all = files@;
    let mut sorted: Vec<ParquetFile> = Vec::new();
    assert(all.take(0) =~= Seq::<ParquetFile>::empty());
    for file in it: files
        invariant
            it.seq() == all,
            sorted@ == in_time_order(all.take(it.index() as int)),
    {
        let ghost before = sorted@;
        let mut at: usize = sorted.len();
        assert(before.take(at as int) =~= before);
        while at > 0 && sorted[at - 1].min_time > file.min_time
            invariant
                at <= sorted.len(),
                sorted@ == before,
                place_of(before, file) == place_of(before.take(at as int), file),
            decreases at,
        {
            assert(before.take(at as int).drop_last() =~= before.take(at - 1));
            at -= 1;
        }
        sorted.insert(at, file);
        proof {
            let grown = all.take(it.index() + 1);
            assert(grown.drop_last() =~= all.take(it.index() as int));
            assert(grown.last() == file);
        }
    }
    proof {
        assert(all.take(all.len() as int) =~= all);
        lemma_time_order(all);
    }
    sorted
}

/// The branches laid end to end.
pub open spec fn concat(branches: Seq<Vec<ParquetFile>>) -> Seq<ParquetFile>
    decreases branches.len(),
{
    if branches.len() == 0 {
        Seq::empty()
    } else {
        concat(branches.drop_last()) + branches.last()@
    }
}

/// Every file of `earlier` ends before any file of `later` starts.
pub open spec fn strictly_before(earlier: Seq<ParquetFile>, later: Seq<ParquetFile>) -> bool {
    forall|i: int, j: int|
        0 <= i < earlier.len() && 0 <= j < later.len() ==> (#[trigger] earlier[i]).max_time < (
        #[trigger] later[j]).min_time
}

/// A branch hangs together: each file but the first starts no later than
/// some file before it in the branch ends, so the branch cannot be cut in
/// two at any place without parting files that touch.
pub open spec fn chained(branch: Seq<ParquetFile>) -> bool {
    forall|k: int| 0 < k < branch.len() ==> #[trigger] touches_earlier(branch, k)
}

/// The file at `k` starts no later than some file before it ends.
pub open spec fn touches_earlier(branch: Seq<ParquetFile>, k: int) -> bool {
    exists|j: int| 0 <= j < k && branch[k].min_time <= (#[trigger] branch[j]).max_time
}

/// No branch is empty, each hangs together, and each ends before the next
/// one starts.
pub open spec fn well_separated(branches: Seq<Vec<ParquetFile>>) -> bool {
    &&& forall|b: int| 0 <= b < branches.len() ==> (#[trigger] branches[b])@.len() > 0
    &&& forall|b: int| 0 <= b < branches.len() ==> chained((#[trigger] branches[b])@)
    &&& forall|a: int, b: int|
        0 <= a < b < branches.len() ==> strictly_before(
            (#[trigger] branches[a])@,
            (#[trigger] branches[b])@,
        )
}

/// What makes a list of branches the division of a round's files: laid end
/// to end they are the files in the order of their start, and they are well
/// separated. There is one such list for any files.
pub open spec fn is_division(branches: Seq<Vec<ParquetFile>>, files: Seq<ParquetFile>) -> bool {
    &&& concat(branches) == in_time_order(files)
    &&& well_separated(branches)
}

/// All files of the branch end at or before `end`, and one ends at it.
spec fn ends_at(branch: Seq<ParquetFile>, end: int) -> bool {
    &&& forall|k: int| 0 <= k < branch.len() ==> (#[trigger] branch[k]).max_time <= end
    &&& exists|k: int| 0 <= k < branch.len() && (#[trigger] branch[k]).max_time == end
}

/// All files of all branches end before `start`.
spec fn all_end_before(branches: Seq<Vec<ParquetFile>>, start: int) -> bool {
    forall|a: int, i: int|
        0 <= a < branches.len() && 0 <= i < branches[a]@.len() ==> (#[trigger] branches[a]@[i]).max_time
            < start
}

/// No file of the branch starts before `start`.
spec fn starts_from(branch: Seq<ParquetFile>, start: int) -> bool {
    forall|k: int| 0 <= k < branch.len() ==> start <= (#[trigger] branch[k]).min_time
}

proof fn lemma_sorted_run(all: Seq<ParquetFile>, from: int, to: int)
    requires
        sorted_by_min_time(all),
        0 <= from < to <= all.len(),
    ensures
        starts_from(all.subrange(from, to), all[from].min_time as int),
        to < all.len() ==> all[from].min_time <= all[to].min_time,
{
    assert forall|k: int| 0 <= k < to - from implies all[from].min_time <= (#[trigger] all.subrange(
        from,
        to,
    )[k]).min_time by {
        assert(all[from].min_time <= all[from + k].min_time);
    }
    if to < all.len() {
        assert(all[from].min_time <= all[to].min_time);
    }
}

proof fn lemma_open_branch(file: ParquetFile)
    ensures
        chained(seq![file]),
        ends_at(seq![file], file.max_time as int),
{
    assert(seq![file][0].max_time == file.max_time);
}

proof fn lemma_extend_branch(current: Seq<ParquetFile>, end: int, file: ParquetFile)
    requires
        chained(current),
        ends_at(current, end),
        file.min_time <= end,
    ensures
        chained(current.push(file)),
        ends_at(current.push(file), if file.max_time > end { file.max_time as int } else { end }),
{
    let grown = current.push(file);
    let reach = choose|k: int| 0 <= k < current.len() && (#[trigger] current[k]).max_time == end;
    assert forall|k: int| 0 < k < grown.len() implies #[trigger] touches_earlier(grown, k) by {
        if k == current.len() {
            assert(grown[k].min_time <= grown[reach].max_time);
        } else {
            assert(touches_earlier(current, k));
            let j = choose|j: int| 0 <= j < k && current[k].min_time <= (#[trigger] current[j]).max_time;
            assert(grown[k].min_time <= grown[j].max_time);
        }
    }
    if file.max_time > end {
        assert(grown[current.len() as int].max_time == file.max_time);
    } else {
        assert(grown[reach].max_time == end);
    }
}

proof fn lemma_close_branch(
    branches: Seq<Vec<ParquetFile>>,
    current: Vec<ParquetFile>,
    end: int,
    next_start: int,
)
    requires
        well_separated(branches),
        current@.len() > 0,
        all_end_before(branches, current@[0].min_time as int),
        starts_from(current@, current@[0].min_time as int),
        chained(current@),
        ends_at(current@, end),
    ensures
        well_separated(branches.push(current)),
        end < next_start && current@[0].min_time <= next_start ==> all_end_before(
            branches.push(current),
            next_start,
        ),
        concat(branches.push(current)) == concat(branches) + current@,
{
    let grown = branches.push(current);
    assert(grown.drop_last() =~= branches);
    assert forall|a: int, b: int| 0 <= a < b < grown.len() implies strictly_before(
        (#[trigger] grown[a])@,
        (#[trigger] grown[b])@,
    ) by {
        if b == branches.len() {
            assert forall|i: int, j: int|
                0 <= i < grown[a]@.len() && 0 <= j < grown[b]@.len() implies (#[trigger] grown[a]@[i]).max_time
                < (#[trigger] grown[b]@[j]).min_time by {
                assert(branches[a]@[i].max_time < current@[0].min_time);
                assert(current@[0].min_time <= current@[j].min_time);
            }
        } else {
            assert(strictly_before(branches[a]@, branches[b]@));
        }
    }
    if end < next_start && current@[0].min_time <= next_start {
        assert forall|a: int, i: int| 0 <= a < grown.len() && 0 <= i < grown[a]@.len() implies (
        #[trigger] grown[a]@[i]).max_time < next_start by {
            if a < branches.len() {
                assert(branches[a]@[i].max_time < current@[0].min_time);
            } else {
                assert(current@[i].max_time <= end);
            }
        }
    }
}

/// Divides the files of a round into branches that can be compacted one
/// without the other: no file of one branch overlaps a file of another.
pub fn divide_initial(files: Vec<ParquetFile>, round_info: RoundInfo) -> (branches: Vec<
    Vec<ParquetFile>,
>)
    ensures
        is_division(branches@, files@),
        concat(branches@).to_multiset() == files@.to_multiset(),
        concat(branches@).len() == files@.len(),
        forall|b: int| 0 <= b < branches@.len() ==> (#[trigger] branches@[b])@.len() <= files@.len(),
        files@.len() <= round_info.max_files_per_plan ==> forall|b: int|
            0 <= b < branches@.len() ==> (#[trigger] branches@[b])@.len() <= round_info.max_files_per_plan,
{
    let ghost input = files@;
    let sorted = sort_by_min_time(files);
    let ghost all = sorted@;
    let mut branches: Vec<Vec<ParquetFile>> = Vec::new();
    let mut current: Vec<ParquetFile> = Vec::new();
    let mut current_end: i64 = 0;
    let ghost mut from: int = 0;
    assert(concat(branches@) + current@ =~= all.take(0));
    for file in it: sorted
        invariant
            it.seq() == all,
            sorted_by_min_time(all),
            0 <= from <= it.index(),
            concat(branches@) =~= all.take(from),
            current@ =~= all.subrange(from, it.index() as int),
            well_separated(branches@),
            it.index() > 0 ==> from < it.index(),
            current@.len() > 0 ==> all_end_before(branches@, current@[0].min_time as int),
            current@.len() > 0 ==> chained(current@) && ends_at(current@, current_end as int),
    {
        let ghost at = it.index() as int;
        let ghost placed = file;
        let file_start = file.min_time;
        let file_end = file.max_time;
        if current.len() == 0 {
            proof {
                lemma_open_branch(placed);
                assert(branches@.len() == 0 ==> all_end_before(branches@, placed.min_time as int));
                assert(at == 0);
            }
            current_end = file_end;
            current.push(file);
            assert(current@ =~= all.subrange(from, at + 1));
        } else if file_start > current_end {
            proof {
                lemma_sorted_run(all, from, at);
                lemma_close_branch(branches@, current, current_end as int, placed.min_time as int);
                lemma_open_branch(placed);
                assert(all.take(from) + all.subrange(from, at) =~= all.take(at));
            }
            let mut closed: Vec<ParquetFile> = Vec::new();
            closed.push(file);
            std::mem::swap(&mut current, &mut closed);
            branches.push(closed);
            current_end = file_end;
            proof {
                from = at;
                assert(current@ =~= all.subrange(from, at + 1));
                assert(current@ =~= seq![placed]);
            }
        } else {
            proof {
                lemma_extend_branch(current@, current_end as int, placed);
            }
            if file_end > current_end {
                current_end = file_end;
            }
            current.push(file);
            assert(current@ =~= all.subrange(from, at + 1));
        }
    }
    if current.len() > 0 {
        proof {
            lemma_sorted_run(all, from, all.len() as int);
            lemma_close_branch(branches@, current, current_end as int, 0);
            assert(all.take(from) + all.subrange(from, all.len() as int) =~= all);
        }
        branches.push(current);
    } else {
        assert(all.len() == 0);
        assert(all.take(0) =~= all);
    }
    proof {
        lemma_branch_within(branches@, input.len() as int);
    }
    branches
}

/// No branch is longer than all branches together.
pub proof fn lemma_branch_within(branches: Seq<Vec<ParquetFile>>, total: int)
    requires
        concat(branches).len() == total,
    ensures
        forall|b: int| 0 <= b < branches.len() ==> (#[trigger] branches[b])@.len() <= total,
    decreases branches.len(),
{
    if branches.len() > 0 {
        lemma_branch_within(branches.drop_last(), concat(branches.drop_last()).len() as int);
        assert forall|b: int| 0 <= b < branches.len() implies (#[trigger] branches[b])@.len()
            <= total by {
            if b < branches.len() - 1 {
                assert(branches.drop_last()[b] == branches[b]);
            }
        }
    }
}

/// Every file of the branches laid end to end lies in one of the branches.
proof fn lemma_concat_member(branches: Seq<Vec<ParquetFile>>, at: int) -> (place: (int, int))
    requires
        0 <= at < concat(branches).len(),
    ensures
        0 <= place.0 < branches.len(),
        0 <= place.1 < branches[place.0]@.len(),
        branches[place.0]@[place.1] == concat(branches)[at],
    decreases branches.len(),
{
    let front = concat(branches.drop_last());
    if at < front.len() {
        let place = lemma_concat_member(branches.drop_last(), at);
        assert(branches.drop_last()[place.0] == branches[place.0]);
        place
    } else {
        (branches.len() - 1, at - front.len())
    }
}

proof fn lemma_last_branch_no_longer(
    a: Seq<Vec<ParquetFile>>,
    b: Seq<Vec<ParquetFile>>,
)
    requires
        well_separated(a),
        well_separated(b),
        concat(a) == concat(b),
        a.len() > 0,
        b.len() > 0,
    ensures
        a.last()@.len() <= b.last()@.len(),
{
    let all = concat(a);
    let la = a.last()@;
    let lb = b.last()@;
    let front_a = concat(a.drop_last());
    let front_b = concat(b.drop_last());
    assert(la == a[a.len() - 1]@);
    assert(lb == b[b.len() - 1]@);
    assert(all == front_a + la);
    assert(all == front_b + lb);
    assert(all.len() == front_a.len() + la.len());
    assert(all.len() == front_b.len() + lb.len());
    if la.len() > lb.len() {
        // the first file of b's last branch lies inside a's last branch
        let k = la.len() - lb.len();
        assert(front_b.len() == front_a.len() + k);
        assert(la[k] == all[front_b.len() as int]);
        assert(lb[0] == all[front_b.len() as int]);
        assert(touches_earlier(la, k as int));
        let j = choose|j: int| 0 <= j < k && la[k as int].min_time <= (#[trigger] la[j]).max_time;
        assert(la[j] == all[front_a.len() + j]);
        assert(front_b[front_a.len() + j] == all[front_a.len() + j]);
        let place = lemma_concat_member(b.drop_last(), front_a.len() + j);
        assert(b.drop_last()[place.0] == b[place.0]);
        assert(strictly_before(b[place.0]@, b[b.len() - 1]@));
        assert(b[place.0]@[place.1].max_time < lb[0].min_time);
    }
}

/// The division of a round's files is settled by the files: two lists that
/// both are their division hold the same branches.
pub proof fn lemma_division_is_unique(
    a: Seq<Vec<ParquetFile>>,
    b: Seq<Vec<ParquetFile>>,
    files: Seq<ParquetFile>,
)
    requires
        is_division(a, files),
        is_division(b, files),
    ensures
        a.len() == b.len(),
        forall|k: int| 0 <= k < a.len() ==> (#[trigger] a[k])@ == b[k]@,
{
    lemma_same_branches(a, b);
}

proof fn lemma_same_branches(a: Seq<Vec<ParquetFile>>, b: Seq<Vec<ParquetFile>>)
    requires
        well_separated(a),
        well_separated(b),
        concat(a) == concat(b),
    ensures
        a.len() == b.len(),
        forall|k: int| 0 <= k < a.len() ==> (#[trigger] a[k])@ == b[k]@,
    decreases a.len(),
{
    if a.len() == 0 {
        if b.len() > 0 {
            assert(b.last() == b[b.len() - 1]);
            assert(concat(b).len() > 0);
        }
    } else {
        assert(a.last() == a[a.len() - 1]);
        if b.len() == 0 {
            assert(concat(a).len() > 0);
        } else {
            assert(b.last() == b[b.len() - 1]);
            lemma_last_branch_no_longer(a, b);
            lemma_last_branch_no_longer(b, a);
            let all = concat(a);
            let front_a = concat(a.drop_last());
            let front_b = concat(b.drop_last());
            assert(all == front_a + a.last()@);
            assert(all == front_b + b.last()@);
            assert(all.len() == front_a.len() + a.last()@.len());
            assert(all.len() == front_b.len() + b.last()@.len());
            assert(front_a =~= all.take(front_a.len() as int));
            assert(front_b =~= all.take(front_b.len() as int));
            assert(a.last()@ =~= all.skip(front_a.len() as int));
            assert(b.last()@ =~= all.skip(front_b.len() as int));
            lemma_well_separated_front(a);
            lemma_well_separated_front(b);
            lemma_same_branches(a.drop_last(), b.drop_last());
            assert forall|k: int| 0 <= k < a.len() implies (#[trigger] a[k])@ == b[k]@ by {
                if k < a.len() - 1 {
                    assert(a.drop_last()[k] == a[k]);
                    assert(b.drop_last()[k] == b[k]);
                }
            }
        }
    }
}

proof fn lemma_well_separated_front(branches: Seq<Vec<ParquetFile>>)
    requires
        well_separated(branches),
        branches.len() > 0,
    ensures
        well_separated(branches.drop_last()),
{
    let front = branches.drop_last();
    assert forall|b: int| 0 <= b < front.len() implies (#[trigger] front[b])@.len() > 0 && chained(
        front[b]@,
    ) by {
        assert(front[b] == branches[b]);
    }
    assert forall|a: int, b: int| 0 <= a < b < front.len() implies strictly_before(
        (#[trigger] front[a])@,
        (#[trigger] front[b])@,
    ) by {
        assert(front[a] == branches[a]);
        assert(front[b] == branches[b]);
    }
}

/// A round has no more branches than files: each branch holds one at least.
pub proof fn lemma_no_more_branches_than_files(
    branches: Seq<Vec<ParquetFile>>,
    files: Seq<ParquetFile>,
)
    requires
        is_division(branches, files),
    ensures
        branches.len() <= files.len(),
{
    lemma_branch_count(branches);
    lemma_time_order(files);
}

proof fn lemma_branch_count(branches: Seq<Vec<ParquetFile>>)
    requires
        forall|b: int| 0 <= b < branches.len() ==> (#[trigger] branches[b])@.len() > 0,
    ensures
        branches.len() <= concat(branches).len(),
    decreases branches.len(),
{
    if branches.len() > 0 {
        assert forall|b: int| 0 <= b < branches.drop_last().len() implies (
        #[trigger] branches.drop_last()[b])@.len() > 0 by {
            assert(branches.drop_last()[b] == branches[b]);
        }
        lemma_branch_count(branches.drop_last());
        assert(branches.last() == branches[branches.len() - 1]);
    }
}

/// Files of different branches never overlap in time.
pub proof fn lemma_branches_disjoint(
    branches: Seq<Vec<ParquetFile>>,
    files: Seq<ParquetFile>,
    a: int,
    b: int,
    i: int,
    j: int,
)
    requires
        is_division(branches, files),
        0 <= a < branches.len(),
        0 <= b < branches.len(),
        a != b,
        0 <= i < branches[a]@.len(),
        0 <= j < branches[b]@.len(),
    ensures
        !overlaps(branches[a]@[i], branches[b]@[j]),
{
    if a < b {
        assert(strictly_before(branches[a]@, branches[b]@));
    } else {
        assert(strictly_before(branches[b]@, branches[a]@));
    }
}

/// Files that overlap in time are put into the same branch.
pub proof fn lemma_overlapping_files_share_branch(
    branches: Seq<Vec<ParquetFile>>,
    files: Seq<ParquetFile>,
    a: int,
    b: int,
    i: int,
    j: int,
)
    requires
        is_division(branches, files),
        0 <= a < branches.len(),
        0 <= b < branches.len(),
        0 <= i < branches[a]@.len(),
        0 <= j < branches[b]@.len(),
        overlaps(branches[a]@[i], branches[b]@[j]),
    ensures
        a == b,
{
    if a != b {
        lemma_branches_disjoint(branches, files, a, b, i, j);
    }
}

} // verus!
