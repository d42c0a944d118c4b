//! What is handed to the catalog at commit time and what comes back, and
//! the fingerprint by which a change made by someone else is noticed.

use vstd::prelude::*;
use crate::file::{file_from_params, CompactionLevel, ParquetFile, ParquetFileParams, PartitionId};

verus! {

/// The identities of a set of files as they were seen at one moment:
/// catalog id and object store id of each.
#[derive(Debug, PartialEq, Eq)]
pub struct SavedParquetFileState {
    pub ids: Vec<(i64, u128)>,
}

/// The identity of a file.
pub open spec fn identity(file: ParquetFile) -> (i64, u128) {
    (file.id, file.object_store_id)
}

impl View for SavedParquetFileState {
    type V = Set<(i64, u128)>;

    open spec fn view(&self) -> Set<(i64, u128)> {
        self.ids@.to_set()
    }
}

/// The identities of `files`, as a set.
pub open spec fn fingerprint(files: Seq<ParquetFile>) -> Set<(i64, u128)> {
    files.map_values(|file: ParquetFile| identity(file)).to_set()
}

impl SavedParquetFileState {
    /// Takes the fingerprint of `files`.
    pub fn from_files(files: &Vec<ParquetFile>) -> (state: SavedParquetFileState)
        ensures
            state@ == fingerprint(files@),
    {
        let mut ids: Vec<(i64, u128)> = Vec::new();
        let mut i: usize = 0;
        while i < files.len()
            invariant
                i <= files.len(),
                ids@ == files@.take(i as int).map_values(|file: ParquetFile| identity(file)),
            decreases files.len() - i,
        {
            ids.push((files[i].id, files[i].object_store_id));
            assert(files@.take(i + 1) =~= files@.take(i as int).push(files@[i as int]));
            assert(ids@ =~= files@.take(i + 1).map_values(|file: ParquetFile| identity(file)));
            i += 1;
        }
        assert(files@.take(files@.len() as int) =~= files@);
        SavedParquetFileState { ids }
    }

    /// Whether `id` is among the identities saved.
    pub fn contains(&self, id: (i64, u128)) -> (found: bool)
        ensures
            found == self@.contains(id),
    {
        let mut i: usize = 0;
        while i < self.ids.len()
            invariant
                i <= self.ids.len(),
                forall|k: int| 0 <= k < i ==> self.ids@[k] != id,
            decreases self.ids.len() - i,
        {
            let (file_id, object_id) = self.ids[i];
            if file_id == id.0 && object_id == id.1 {
                assert(self.ids@[i as int] == id);
                assert(self.ids@.contains(id));
                return true;
            }
            i += 1;
        }
        assert(!self.ids@.contains(id));
        false
    }

    /// Whether every file saved here is still in `current`, under the same
    /// object. If not, someone else has changed the catalog meanwhile.
    pub fn still_in(&self, current: &SavedParquetFileState) -> (unchanged: bool)
        ensures
            unchanged == self@.subset_of(current@),
    {
        let mut i: usize = 0;
        while i < self.ids.len()
            invariant
                i <= self.ids.len(),
                forall|k: int| 0 <= k < i ==> current@.contains(#[trigger] self.ids@[k]),
            decreases self.ids.len() - i,
        {
            if !current.contains(self.ids[i]) {
                assert(self.ids@.contains(self.ids@[i as int]));
                return false;
            }
            i += 1;
        }
        assert forall|id: (i64, u128)| self@.contains(id) implies current@.contains(id) by {
            let k = choose|k: int| 0 <= k < self.ids@.len() && self.ids@[k] == id;
            assert(current@.contains(self.ids@[k]));
        }
        true
    }
}

/// One atomic change of the catalog: files to delete, files to move up to
/// `target_level`, and files to create.
#[derive(Debug, PartialEq, Eq)]
pub struct CommitRequest {
    pub partition_id: PartitionId,
    pub delete: Vec<ParquetFile>,
    pub upgrade: Vec<ParquetFile>,
    pub create: Vec<ParquetFileParams>,
    pub target_level: CompactionLevel,
}

/// `file` moved to `level`: nothing else about it changes.
pub open spec fn upgraded(file: ParquetFile, level: CompactionLevel) -> ParquetFile {
    ParquetFile { compaction_level: level, ..file }
}

/// Moves each of `files` to `target_level`, as the catalog did at commit.
pub fn upgrade_files(
    files: Vec<ParquetFile>,
    target_level: CompactionLevel,
) -> (res: Vec<ParquetFile>)
    ensures
        res@.len() == files@.len(),
        forall|k: int| 0 <= k < files@.len() ==> #[trigger] res@[k] == upgraded(files@[k], target_level),
{
    let ghost all = files@;
    let mut res: Vec<ParquetFile> = Vec::new();
    for file in it: files
        invariant
            it.seq() == all,
            res@.len() == it.index(),
            forall|k: int| 0 <= k < it.index() ==> #[trigger] res@[k] == upgraded(all[k], target_level),
    {
        let mut file = file;
        file.compaction_level = target_level;
        res.push(file);
    }
    res
}

/// An upgrade changes the compaction level of a file and nothing else: its
/// id, object, time range, rows and size stay what they were.
pub proof fn lemma_upgrade_preserves_identity(file: ParquetFile, level: CompactionLevel)
    ensures
        upgraded(file, level).compaction_level == level,
        upgraded(file, level).id == file.id,
        upgraded(file, level).partition_id == file.partition_id,
        upgraded(file, level).object_store_id == file.object_store_id,
        upgraded(file, level).min_time == file.min_time,
        upgraded(file, level).max_time == file.max_time,
        upgraded(file, level).row_count == file.row_count,
        upgraded(file, level).file_size_bytes == file.file_size_bytes,
        upgraded(file, level).column_set == file.column_set,
        upgraded(file, level).max_sequence_number == file.max_sequence_number,
        upgraded(file, level).created_at == file.created_at,
        upgraded(file, file.compaction_level) == file,
{
}

/// The files that a commit created: each set of parameters under the id
/// that the catalog gave it, in the order of the parameters. What has no
/// partner on the other side is left out.
pub fn materialize_created(params: Vec<ParquetFileParams>, created_ids: &Vec<i64>) -> (files: Vec<
    ParquetFile,
>)
    ensures
        files@.len() == if params@.len() <= created_ids@.len() {
            params@.len()
        } else {
            created_ids@.len()
        },
        forall|k: int|
            0 <= k < files@.len() ==> #[trigger] files@[k] == file_from_params(params@[k], created_ids@[k]),
{
    let ghost all = params@;
    let mut files: Vec<ParquetFile> = Vec::new();
    for param in it: params
        invariant
            it.seq() == all,
            files@.len() == if it.index() <= created_ids@.len() {
                it.index() as nat
            } else {
                created_ids@.len()
            },
            forall|k: int|
                0 <= k < files@.len() ==> #[trigger] files@[k] == file_from_params(all[k], created_ids@[k]),
    {
        if files.len() < created_ids.len() {
            let id = created_ids[files.len()];
            files.push(ParquetFile::from_params(param, id));
        }
    }
    files
}

/// `params` under another object id.
pub open spec fn published(params: ParquetFileParams, object_store_id: u128) -> ParquetFileParams {
    ParquetFileParams { object_store_id, ..params }
}

/// Gives each set of parameters the id under which its data was made
/// public, in order. What has no partner on the other side is left out.
pub fn with_public_ids(params: Vec<ParquetFileParams>, public_ids: &Vec<u128>) -> (res: Vec<
    ParquetFileParams,
>)
    ensures
        res@.len() == if params@.len() <= public_ids@.len() {
            params@.len()
        } else {
            public_ids@.len()
        },
        forall|k: int| 0 <= k < res@.len() ==> #[trigger] res@[k] == published(params@[k], public_ids@[k]),
{
    let ghost all = params@;
    let mut res: Vec<ParquetFileParams> = Vec::new();
    for param in it: params
        invariant
            it.seq() == all,
            res@.len() == if it.index() <= public_ids@.len() {
                it.index() as nat
            } else {
                public_ids@.len()
            },
            forall|k: int| 0 <= k < res@.len() ==> #[trigger] res@[k] == published(all[k], public_ids@[k]),
    {
        if res.len() < public_ids.len() {
            let mut param = param;
            param.object_store_id = public_ids[res.len()];
            res.push(param);
        }
    }
    res
}

} // verus!
