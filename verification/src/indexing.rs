//! Indexing: which files are read anew, which chunks go, and what is recorded.
use vstd::prelude::*;

use crate::filetable::{copy_ids, FileChunks, FileTable};
use crate::paths;
use crate::paths::normalize_path_str;
use crate::placement;
use crate::placement::{DatabasePlan, IndexWork};
use crate::sorting;
use crate::text;
use crate::text::concat;

verus! {

// ---------------------------------------------------------------------------
// The start of a run
// ---------------------------------------------------------------------------

/// How a run of the indexer begins.
#[derive(Clone, Copy, PartialEq, Eq, Structural, Debug)]
pub enum RunStart {
    /// There are no files to index.
    NoFiles,
    /// The run only shows what would be indexed.
    DryRun,
    /// Only the changes since the last run are indexed.
    Incremental,
    /// Everything is indexed.
    Full,
}

/// How a run of the indexer begins.
pub open spec fn run_start(files: nat, dry_run: bool, db_exists: bool, force: bool) -> RunStart {
    if files == 0 {
        RunStart::NoFiles
    } else if dry_run {
        RunStart::DryRun
    } else if db_exists && !force {
        RunStart::Incremental
    } else {
        RunStart::Full
    }
}

/// How a run of the indexer begins.
pub fn start_run(files: usize, dry_run: bool, db_exists: bool, force: bool) -> (r: RunStart)
    ensures
        r == run_start(files as nat, dry_run, db_exists, force),
{
    if files == 0 {
        RunStart::NoFiles
    } else if dry_run {
        RunStart::DryRun
    } else if db_exists && !force {
        RunStart::Incremental
    } else {
        RunStart::Full
    }
}

/// Whether both stores are cleared first: the store has chunks, but nothing is
/// recorded of the files, so they would all be stored once more. `chunks` is
/// `None` where the store cannot tell.
pub fn must_clear(files: &FileTable, chunks: Option<usize>) -> (r: bool)
    ensures
        r == (files@ == Map::<Seq<char>, Seq<u32>>::empty() && chunks is Some && chunks->Some_0
            > 0),
{
    files.is_empty() && match chunks {
        Some(n) => n > 0,
        None => false,
    }
}

/// What a vector store says of itself.
#[derive(Clone, Copy, PartialEq, Eq, Structural, Debug)]
pub struct VectorStats {
    pub total_chunks: usize,
    pub indexed: bool,
}

/// Whether the vector index has to be built after all: a run that was stopped
/// left chunks without one. Where the store cannot tell, it is left alone.
pub fn ensure_hnsw_index_if_needed(stats: Option<VectorStats>) -> (r: bool)
    ensures
        r == (stats is Some && stats->Some_0.total_chunks > 0 && !stats->Some_0.indexed),
{
    match stats {
        Some(s) => s.total_chunks > 0 && !s.indexed,
        None => false,
    }
}

// ---------------------------------------------------------------------------
// Changes
// ---------------------------------------------------------------------------

/// What is known of a file on disk: whether it changed since it was recorded,
/// and the chunks that were recorded of it.
#[derive(Debug)]
pub struct FileCheck {
    pub path: String,
    pub changed: bool,
    pub old_ids: Vec<u32>,
}

/// The places of the files that changed.
pub open spec fn changed_places(checks: Seq<FileCheck>) -> Seq<usize>
    decreases checks.len(),
{
    if checks.len() == 0 {
        Seq::empty()
    } else {
        let before = changed_places(checks.drop_last());
        if checks.last().changed {
            before.push((checks.len() - 1) as usize)
        } else {
            before
        }
    }
}

/// The chunks that were recorded of the files that changed.
pub open spec fn changed_ids(checks: Seq<FileCheck>) -> Seq<u32>
    decreases checks.len(),
{
    if checks.len() == 0 {
        Seq::empty()
    } else {
        let before = changed_ids(checks.drop_last());
        if checks.last().changed {
            before + checks.last().old_ids@
        } else {
            before
        }
    }
}

/// The chunks of a number of files, one after the other.
pub open spec fn all_ids(files: Seq<FileChunks>) -> Seq<u32>
    decreases files.len(),
{
    if files.len() == 0 {
        Seq::empty()
    } else {
        all_ids(files.drop_last()) + files.last().chunk_ids@
    }
}

/// What a run does about the changes on disk.
#[derive(Debug)]
pub struct ChangePlan {
    /// The places of the files that are read anew.
    pub changed: Vec<usize>,
    /// How many files are as they were.
    pub unchanged: usize,
    /// The chunks of the files that are gone.
    pub stale_ids: Vec<u32>,
    /// The chunks of the files that are read anew.
    pub old_ids: Vec<u32>,
}

/// Appends chunks.
fn push_ids(out: &mut Vec<u32>, ids: &Vec<u32>)
    ensures
        final(out)@ == old(out)@ + ids@,
{
    let mut i: usize = 0;
    proof {
        assert(out@ =~= old(out)@ + ids@.take(0));
    }
    while i < ids.len()
        invariant
            i <= ids.len(),
            out@ == old(out)@ + ids@.take(i as int),
        decreases ids.len() - i,
    {
        out.push(ids[i]);
        proof {
            assert(out@ =~= old(out)@ + ids@.take(i + 1));
        }
        i += 1;
    }
    proof {
        assert(ids@.take(ids@.len() as int) =~= ids@);
    }
}

/// What a run does about the changes on disk: `checks` are the files that are
/// there, `deleted` those that were recorded and are gone.
pub fn plan_changes(checks: &Vec<FileCheck>, deleted: &Vec<FileChunks>) -> (r: ChangePlan)
    ensures
        r.changed@ == changed_places(checks@),
        r.unchanged == checks.len() - r.changed.len(),
        r.stale_ids@ == all_ids(deleted@),
        r.old_ids@ == changed_ids(checks@),
{
    let mut changed: Vec<usize> = Vec::new();
    let mut unchanged: usize = 0;
    let mut old_ids: Vec<u32> = Vec::new();
    let mut i: usize = 0;
    proof {
        assert(changed@ =~= changed_places(checks@.take(0)));
        assert(old_ids@ =~= changed_ids(checks@.take(0)));
    }
    while i < checks.len()
        invariant
            i <= checks.len(),
            changed@ == changed_places(checks@.take(i as int)),
            old_ids@ == changed_ids(checks@.take(i as int)),
            unchanged == i - changed.len(),
            changed.len() <= i,
        decreases checks.len() - i,
    {
        proof {
            assert(checks@.take(i + 1).drop_last() =~= checks@.take(i as int));
            assert(checks@.take(i + 1).last() == checks@[i as int]);
        }
        if checks[i].changed {
            changed.push(i);
            push_ids(&mut old_ids, &checks[i].old_ids);
        } else {
            unchanged += 1;
        }
        i += 1;
    }
    let mut stale_ids: Vec<u32> = Vec::new();
    let mut k: usize = 0;
    proof {
        assert(checks@.take(checks@.len() as int) =~= checks@);
        assert(stale_ids@ =~= all_ids(deleted@.take(0)));
    }
    while k < deleted.len()
        invariant
            k <= deleted.len(),
            stale_ids@ == all_ids(deleted@.take(k as int)),
        decreases deleted.len() - k,
    {
        proof {
            assert(deleted@.take(k + 1).drop_last() =~= deleted@.take(k as int));
            assert(deleted@.take(k + 1).last() == deleted@[k as int]);
        }
        push_ids(&mut stale_ids, &deleted[k].chunk_ids);
        k += 1;
    }
    proof {
        assert(deleted@.take(deleted@.len() as int) =~= deleted@);
    }
    ChangePlan { changed, unchanged, stale_ids, old_ids }
}

/// Whether the index is as the files are on disk.
pub fn is_up_to_date(plan: &ChangePlan, deleted: usize) -> (r: bool)
    ensures
        r == (plan.changed.len() == 0 && deleted == 0),
{
    plan.changed.len() == 0 && deleted == 0
}

/// Whether chunks are deleted from the stores, and with them what is recorded
/// of the files that are gone.
pub fn deletes_chunks(plan: &ChangePlan) -> (r: bool)
    ensures
        r == ((plan.stale_ids@ + plan.old_ids@).len() > 0),
{
    plan.stale_ids.len() > 0 || plan.old_ids.len() > 0
}

/// What a change of the branch does to the index.
#[derive(Debug)]
pub enum BranchRefresh {
    /// There are no metadata, so nothing is done.
    NoMetadata,
    /// The files are as they were recorded.
    UpToDate,
    /// The chunks are deleted and the vector index is built; then the files at
    /// the places are indexed, one by one.
    Run { delete: Vec<u32>, changed: Vec<usize> },
}

/// What a change of the branch does to the index.
pub fn branch_refresh(
    has_metadata: bool,
    checks: &Vec<FileCheck>,
    deleted: &Vec<FileChunks>,
) -> (r: BranchRefresh)
    ensures
        if !has_metadata {
            r is NoMetadata
        } else if changed_places(checks@).len() == 0 && deleted@.len() == 0 {
            r is UpToDate
        } else {
            r matches BranchRefresh::Run { delete, changed } && delete@ == changed_ids(checks@)
                + all_ids(deleted@) && changed@ == changed_places(checks@)
        },
{
    if !has_metadata {
        return BranchRefresh::NoMetadata;
    }
    let plan = plan_changes(checks, deleted);
    if is_up_to_date(&plan, deleted.len()) {
        return BranchRefresh::UpToDate;
    }
    let ChangePlan { changed, unchanged, stale_ids, old_ids } = plan;
    let mut delete = old_ids;
    let mut i: usize = 0;
    proof {
        assert(delete@ =~= changed_ids(checks@) + stale_ids@.take(0));
    }
    while i < stale_ids.len()
        invariant
            i <= stale_ids.len(),
            delete@ == changed_ids(checks@) + stale_ids@.take(i as int),
        decreases stale_ids.len() - i,
    {
        delete.push(stale_ids[i]);
        proof {
            assert(delete@ =~= changed_ids(checks@) + stale_ids@.take(i + 1));
        }
        i += 1;
    }
    proof {
        assert(stale_ids@.take(stale_ids@.len() as int) =~= stale_ids@);
    }
    BranchRefresh::Run { delete, changed }
}

/// The table without the files that are gone.
pub open spec fn without_files(
    table: Map<Seq<char>, Seq<u32>>,
    deleted: Seq<FileChunks>,
) -> Map<Seq<char>, Seq<u32>>
    decreases deleted.len(),
{
    if deleted.len() == 0 {
        table
    } else {
        without_files(table, deleted.drop_last()).remove(deleted.last().path@)
    }
}

/// Takes the files that are gone out of the table.
pub fn forget_files(table: &mut FileTable, deleted: &Vec<FileChunks>)
    ensures
        final(table)@ == without_files(old(table)@, deleted@),
{
    let mut i: usize = 0;
    while i < deleted.len()
        invariant
            i <= deleted.len(),
            table@ == without_files(old(table)@, deleted@.take(i as int)),
        decreases deleted.len() - i,
    {
        proof {
            assert(deleted@.take(i + 1).drop_last() =~= deleted@.take(i as int));
            assert(deleted@.take(i + 1).last() == deleted@[i as int]);
        }
        let _ = table.remove(deleted[i].path.as_str());
        i += 1;
    }
    proof {
        assert(deleted@.take(deleted@.len() as int) =~= deleted@);
    }
}

// ---------------------------------------------------------------------------
// A run
// ---------------------------------------------------------------------------

/// What became of a file.
#[derive(Debug)]
pub enum FileOutcome {
    /// The program is to stop, before the file or while it was embedded.
    Shutdown,
    /// The file cannot be opened, for this reason.
    ReadFailed(String),
    /// The file is no UTF-8, and its bytes cannot be read either, for this
    /// reason.
    BytesFailed(String),
    /// The file has no chunks.
    NoChunks,
    /// The file has this many chunks, and they were stored under these numbers.
    Stored { count: usize, ids: Vec<u32> },
}

/// What came of reading a file.
#[derive(Debug)]
pub enum FileRead {
    /// Its text.
    Text(String),
    /// It is no UTF-8; its bytes.
    Bytes(Vec<u8>),
    /// It cannot be opened, for this reason.
    Failed(String),
    /// It is no UTF-8, and its bytes cannot be read either, for this reason.
    BytesFailed(String),
}

/// What `String::from_utf8_lossy` makes of bytes.
pub uninterp spec fn lossy_text(bytes: Seq<u8>) -> Seq<char>;

/// `String::from_utf8_lossy`: the text of the bytes, where they are UTF-8; else
/// a text in which each bad sequence is replaced by U+FFFD.
#[verifier::external_body]
fn from_utf8_lossy(bytes: &[u8]) -> (r: String)
    ensures
        r@ == lossy_text(bytes@),
        vstd::utf8::valid_utf8(bytes@) ==> r@ == vstd::utf8::decode_utf8(bytes@),
{
    String::from_utf8_lossy(bytes).into_owned()
}

/// The text of a file that was read, or what becomes of the file without one.
pub fn source_text(read: FileRead) -> (r: Result<String, FileOutcome>)
    ensures
        match read {
            FileRead::Text(t) => r matches Ok(s) && s@ == t@,
            FileRead::Bytes(b) => r matches Ok(s) && s@ == lossy_text(b@)
                && (vstd::utf8::valid_utf8(b@) ==> s@ == vstd::utf8::decode_utf8(b@)),
            FileRead::Failed(e) => r matches Err(FileOutcome::ReadFailed(x)) && x@ == e@,
            FileRead::BytesFailed(e) => r matches Err(FileOutcome::BytesFailed(x)) && x@ == e@,
        },
{
    match read {
        FileRead::Text(t) => Ok(t),
        FileRead::Bytes(b) => Ok(from_utf8_lossy(b.as_slice())),
        FileRead::Failed(e) => Err(FileOutcome::ReadFailed(e)),
        FileRead::BytesFailed(e) => Err(FileOutcome::BytesFailed(e)),
    }
}

/// What the indexer does next.
#[derive(Clone, Copy, PartialEq, Eq, Structural, Debug)]
pub enum NextStep {
    /// Go on with the next file.
    Continue,
    /// Commit the text index, then go on.
    Commit,
    /// Stop.
    Stop,
}

/// The text index is committed whenever this many chunks are full.
pub const COMMIT_INTERVAL: usize = 1000;

/// A run of the indexer, file by file.
#[derive(Debug)]
pub struct IndexRun {
    /// The files that were processed.
    pub files: FileTable,
    /// How many chunks they have.
    pub total_chunks: usize,
    /// The files that were left out, and why.
    pub skipped: Vec<String>,
    /// The run was stopped.
    pub cancelled: bool,
}

/// How a file is listed that was left out.
pub open spec fn skip_text(path: Seq<char>, outcome: FileOutcome) -> Option<Seq<char>> {
    match outcome {
        FileOutcome::ReadFailed(e) => Some(path + " ("@ + e@ + ")"@),
        FileOutcome::BytesFailed(e) => Some(path + " (read failed: "@ + e@ + ")"@),
        _ => None,
    }
}

/// How many chunks the outcome adds.
pub open spec fn added_chunks(outcome: FileOutcome) -> nat {
    match outcome {
        FileOutcome::Stored { count, ids } => count as nat,
        _ => 0,
    }
}

/// What is recorded of the files once a file is done with.
pub open spec fn stepped(
    files: Map<Seq<char>, Seq<u32>>,
    path: Seq<char>,
    outcome: FileOutcome,
) -> Map<Seq<char>, Seq<u32>> {
    match outcome {
        FileOutcome::NoChunks => files.insert(path, Seq::empty()),
        FileOutcome::Stored { count, ids } => files.insert(path, ids@),
        _ => files,
    }
}

impl IndexRun {
    /// Before the first file.
    pub fn new() -> (r: IndexRun)
        ensures
            r.files@ == Map::<Seq<char>, Seq<u32>>::empty(),
            r.total_chunks == 0,
            r.skipped.len() == 0,
            !r.cancelled,
    {
        IndexRun {
            files: FileTable::new(),
            total_chunks: 0,
            skipped: Vec::new(),
            cancelled: false,
        }
    }

    /// Takes in what became of a file. A file without chunks is recorded too,
    /// so that it is not read anew in every run.
    pub fn step(&mut self, path: &str, outcome: FileOutcome) -> (r: NextStep)
        requires
            old(self).total_chunks + added_chunks(outcome) <= usize::MAX,
        ensures
            final(self).total_chunks == old(self).total_chunks + added_chunks(outcome),
            final(self).cancelled == (old(self).cancelled || outcome is Shutdown),
            final(self).files@ == stepped(old(self).files@, path@, outcome),
            text::views(final(self).skipped@) == (match skip_text(path@, outcome) {
                Some(t) => text::views(old(self).skipped@).push(t),
                None => text::views(old(self).skipped@),
            }),
            r == (match outcome {
                FileOutcome::Shutdown => NextStep::Stop,
                FileOutcome::Stored { .. } => if final(self).total_chunks % COMMIT_INTERVAL == 0
                    && final(self).total_chunks > 0 {
                    NextStep::Commit
                } else {
                    NextStep::Continue
                },
                _ => NextStep::Continue,
            }),
    {
        let ghost before = text::views(self.skipped@);
        match outcome {
            FileOutcome::Shutdown => {
                self.cancelled = true;
                NextStep::Stop
            },
            FileOutcome::ReadFailed(e) => {
                let t = concat(concat(concat(path, " (").as_str(), e.as_str()).as_str(), ")");
                self.skipped.push(t);
                proof {
                    assert(text::views(self.skipped@) =~= before.push(
                        skip_text(path@, outcome)->Some_0,
                    ));
                }
                NextStep::Continue
            },
            FileOutcome::BytesFailed(e) => {
                let t = concat(
                    concat(concat(path, " (read failed: ").as_str(), e.as_str()).as_str(),
                    ")",
                );
                self.skipped.push(t);
                proof {
                    assert(text::views(self.skipped@) =~= before.push(
                        skip_text(path@, outcome)->Some_0,
                    ));
                }
                NextStep::Continue
            },
            FileOutcome::NoChunks => {
                self.files.insert(path, Vec::new());
                NextStep::Continue
            },
            FileOutcome::Stored { count, ids } => {
                self.files.insert(path, ids);
                self.total_chunks = self.total_chunks + count;
                if self.total_chunks % COMMIT_INTERVAL == 0 && self.total_chunks > 0 {
                    NextStep::Commit
                } else {
                    NextStep::Continue
                }
            },
        }
    }
}

/// How a run is brought to its end, so that the index can be used even where
/// the run was stopped.
#[derive(Clone, Copy, PartialEq, Eq, Structural, Debug)]
pub struct FinishPlan {
    /// The text index is committed.
    pub commit_text: bool,
    /// The vector index is built.
    pub build_index: bool,
    /// The metadata are written, and tell whether the index is partial.
    pub metadata_partial: Option<bool>,
    /// What was recorded of the files is saved.
    pub save_files: bool,
    /// The numbers of chunks and files are written.
    pub write_stats: bool,
}

/// How a run is brought to its end.
pub open spec fn finish_plan(cancelled: bool, chunks: nat, any_files: bool) -> FinishPlan {
    if cancelled {
        FinishPlan {
            commit_text: chunks > 0,
            build_index: chunks > 0,
            metadata_partial: Some(true),
            save_files: any_files,
            write_stats: true,
        }
    } else if chunks == 0 {
        FinishPlan {
            commit_text: true,
            build_index: false,
            metadata_partial: None,
            save_files: any_files,
            write_stats: false,
        }
    } else {
        FinishPlan {
            commit_text: true,
            build_index: true,
            metadata_partial: Some(false),
            save_files: true,
            write_stats: true,
        }
    }
}

/// How a run is brought to its end.
pub fn finish_run(run: &IndexRun) -> (r: FinishPlan)
    ensures
        r == finish_plan(
            run.cancelled,
            run.total_chunks as nat,
            run.files@ != Map::<Seq<char>, Seq<u32>>::empty(),
        ),
{
    let any_files = !run.files.is_empty();
    if run.cancelled {
        FinishPlan {
            commit_text: run.total_chunks > 0,
            build_index: run.total_chunks > 0,
            metadata_partial: Some(true),
            save_files: any_files,
            write_stats: true,
        }
    } else if run.total_chunks == 0 {
        FinishPlan {
            commit_text: true,
            build_index: false,
            metadata_partial: None,
            save_files: any_files,
            write_stats: false,
        }
    } else {
        FinishPlan {
            commit_text: true,
            build_index: true,
            metadata_partial: Some(false),
            save_files: true,
            write_stats: true,
        }
    }
}

/// What is recorded of the files after a run: an incremental run keeps what was
/// recorded of the files that it did not touch, a full run starts anew.
pub fn recorded_files(before: Option<FileTable>, run: &FileTable) -> (r: FileTable)
    ensures
        r@ == (match before {
            Some(t) => t@.union_prefer_right(run@),
            None => run@,
        }),
{
    let mut table = match before {
        Some(t) => t,
        None => FileTable::new(),
    };
    table.record_all(run);
    proof {
        assert(Map::<Seq<char>, Seq<u32>>::empty().union_prefer_right(run@) =~= run@);
    }
    table
}

// ---------------------------------------------------------------------------
// A refresh
// ---------------------------------------------------------------------------

/// The chunks of a path in normal form: `paths` tells where each chunk is from.
pub open spec fn ids_of_path(paths: Seq<Seq<char>>, ids: Seq<u32>, path: Seq<char>) -> Seq<u32>
    decreases paths.len(),
{
    if paths.len() == 0 {
        Seq::empty()
    } else {
        let before = ids_of_path(paths.drop_last(), ids, path);
        if paths.len() <= ids.len() && paths::normal(paths.last()) == path {
            before.push(ids[paths.len() - 1])
        } else {
            before
        }
    }
}

/// The chunks of a file, among the chunks that were stored.
fn select_ids(paths: &Vec<String>, ids: &Vec<u32>, path: &str) -> (r: Vec<u32>)
    ensures
        r@ == ids_of_path(text::views(paths@), ids@, path@),
{
    let ghost ps = text::views(paths@);
    let mut out: Vec<u32> = Vec::new();
    let mut i: usize = 0;
    proof {
        assert(out@ =~= ids_of_path(ps.take(0), ids@, path@));
    }
    while i < paths.len()
        invariant
            i <= paths.len(),
            ps == text::views(paths@),
            out@ == ids_of_path(ps.take(i as int), ids@, path@),
        decreases paths.len() - i,
    {
        proof {
            assert(ps.take(i + 1).drop_last() =~= ps.take(i as int));
            assert(ps.take(i + 1).last() == paths@[i as int]@);
        }
        let n = normalize_path_str(paths[i].as_str());
        if i < ids.len() && text::str_eq(n.as_str(), path) {
            out.push(ids[i]);
        }
        i += 1;
    }
    proof {
        assert(ps.take(ps.len() as int) =~= ps);
    }
    out
}

/// What is recorded of the files that were read anew.
pub open spec fn refreshed(
    changed: Seq<Seq<char>>,
    paths: Seq<Seq<char>>,
    ids: Seq<u32>,
) -> Map<Seq<char>, Seq<u32>>
    decreases changed.len(),
{
    if changed.len() == 0 {
        Map::empty()
    } else {
        let path = paths::normal(changed.last());
        refreshed(changed.drop_last(), paths, ids).insert(path, ids_of_path(paths, ids, path))
    }
}

/// What is recorded of the files that were read anew in a refresh: each with
/// its chunks, and one without chunks with none, so that it is not read anew in
/// every run. `chunk_paths` and `chunk_ids` tell of each chunk that was stored
/// where it is from and what number it has.
pub fn record_refresh(
    changed: &Vec<String>,
    chunk_paths: &Vec<String>,
    chunk_ids: &Vec<u32>,
) -> (r: FileTable)
    ensures
        r@ == refreshed(text::views(changed@), text::views(chunk_paths@), chunk_ids@),
{
    let ghost cs = text::views(changed@);
    let ghost ps = text::views(chunk_paths@);
    let mut table = FileTable::new();
    let mut i: usize = 0;
    while i < changed.len()
        invariant
            i <= changed.len(),
            cs == text::views(changed@),
            ps == text::views(chunk_paths@),
            table@ == refreshed(cs.take(i as int), ps, chunk_ids@),
        decreases changed.len() - i,
    {
        proof {
            assert(cs.take(i + 1).drop_last() =~= cs.take(i as int));
            assert(cs.take(i + 1).last() == changed@[i as int]@);
        }
        let path = normalize_path_str(changed[i].as_str());
        let ids = select_ids(chunk_paths, chunk_ids, path.as_str());
        table.insert(path.as_str(), ids);
        i += 1;
    }
    proof {
        assert(cs.take(cs.len() as int) =~= cs);
    }
    table
}

/// A file that was read anew, and the chunks that were stored of it: `None`
/// where it could not be read.
#[derive(Debug)]
pub struct SyncedFile {
    pub path: String,
    pub ids: Option<Vec<u32>>,
}

/// What is recorded after files were read anew.
pub open spec fn synced(
    table: Map<Seq<char>, Seq<u32>>,
    files: Seq<SyncedFile>,
) -> Map<Seq<char>, Seq<u32>>
    decreases files.len(),
{
    if files.len() == 0 {
        table
    } else {
        let before = synced(table, files.drop_last());
        match files.last().ids {
            Some(ids) => before.insert(files.last().path@, ids@),
            None => before,
        }
    }
}

/// Brings the record in line with the files that were read anew and those that
/// are gone. Where something changed, the vector index is built anew and the
/// record saved.
pub fn sync_database(
    table: &mut FileTable,
    files: &Vec<SyncedFile>,
    deleted: &Vec<FileChunks>,
) -> (r: bool)
    ensures
        final(table)@ == without_files(synced(old(table)@, files@), deleted@),
        r == (files.len() > 0 || deleted.len() > 0),
{
    let mut i: usize = 0;
    while i < files.len()
        invariant
            i <= files.len(),
            table@ == synced(old(table)@, files@.take(i as int)),
        decreases files.len() - i,
    {
        proof {
            assert(files@.take(i + 1).drop_last() =~= files@.take(i as int));
            assert(files@.take(i + 1).last() == files@[i as int]);
        }
        match &files[i].ids {
            Some(ids) => table.insert(files[i].path.as_str(), copy_ids(ids)),
            None => {},
        }
        i += 1;
    }
    proof {
        assert(files@.take(files@.len() as int) =~= files@);
    }
    forget_files(table, deleted);
    files.len() > 0 || deleted.len() > 0
}

// ---------------------------------------------------------------------------
// Single files
// ---------------------------------------------------------------------------

/// Whether a file that was changed is stored: it is still there, of a kind that
/// is indexed, can be read, and has chunks.
pub fn stores_file(exists: bool, indexable: bool, readable: bool, chunks: usize) -> (r: bool)
    ensures
        r == (exists && indexable && readable && chunks > 0),
{
    exists && indexable && readable && chunks > 0
}

/// What removing a file does.
#[derive(Debug)]
pub struct Removal {
    /// The chunks that are deleted from both stores.
    pub ids: Vec<u32>,
    /// What is recorded of the files is saved.
    pub save: bool,
}

/// Removes a file. One that was not recorded changes nothing.
pub fn remove_file(table: &mut FileTable, path: &str) -> (r: Removal)
    ensures
        final(table)@ == old(table)@.remove(path@),
        r.save == old(table)@.dom().contains(path@),
        r.ids@ == (if old(table)@.dom().contains(path@) {
            old(table)@[path@]
        } else {
            Seq::empty()
        }),
{
    match table.remove(path) {
        Some(ids) => Removal { ids, save: true },
        None => Removal { ids: Vec::new(), save: false },
    }
}

// ---------------------------------------------------------------------------
// Laws
// ---------------------------------------------------------------------------

/// A dry run leaves every database as it is, whatever else is asked for: it
/// deletes none and writes to none, and it ends before anything is indexed.
pub proof fn law_dry_run_changes_nothing(
    work: IndexWork,
    plan: DatabasePlan,
    files: nat,
    db_exists: bool,
    force: bool,
)
    requires
        placement::is_work_of(work, plan, true),
    ensures
        work.delete is None,
        !work.write,
        run_start(files, true, db_exists, force) is NoFiles || run_start(
            files,
            true,
            db_exists,
            force,
        ) is DryRun,
{
}

/// The chunks that a table speaks of.
pub open spec fn table_ids(table: Map<Seq<char>, Seq<u32>>) -> Set<u32> {
    Set::new(
        |id: u32| exists|p: Seq<char>| table.dom().contains(p) && (#[trigger] table[p]).contains(id),
    )
}

/// The checks say of each file what was recorded of it.
pub open spec fn checks_match(table: Map<Seq<char>, Seq<u32>>, checks: Seq<FileCheck>) -> bool {
    forall|i: int|
        0 <= i < checks.len() ==> (table.dom().contains((#[trigger] checks[i]).path@)
            ==> checks[i].old_ids@ == table[checks[i].path@])
}

/// The list of the files that are gone says what was recorded of them.
pub open spec fn deleted_match(
    table: Map<Seq<char>, Seq<u32>>,
    deleted: Seq<FileChunks>,
) -> bool {
    forall|i: int|
        0 <= i < deleted.len() ==> table.dom().contains((#[trigger] deleted[i]).path@)
            && deleted[i].chunk_ids@ == table[deleted[i].path@]
}

/// The file is one of those that changed.
pub open spec fn is_changed(checks: Seq<FileCheck>, path: Seq<char>) -> bool {
    exists|i: int| 0 <= i < checks.len() && (#[trigger] checks[i]).changed && checks[i].path@ == path
}

/// The chunks of a file that changed are among those that are deleted.
proof fn lemma_changed_ids_has(checks: Seq<FileCheck>, i: int, id: u32)
    requires
        0 <= i < checks.len(),
        checks[i].changed,
        checks[i].old_ids@.contains(id),
    ensures
        changed_ids(checks).contains(id),
    decreases checks.len(),
{
    let before = changed_ids(checks.drop_last());
    let whole = changed_ids(checks);
    if i == checks.len() - 1 {
        let k = choose|k: int| 0 <= k < checks[i].old_ids@.len() && checks[i].old_ids@[k] == id;
        assert(whole[before.len() + k] == id);
    } else {
        assert(checks.drop_last()[i] == checks[i]);
        lemma_changed_ids_has(checks.drop_last(), i, id);
        let k = choose|k: int| 0 <= k < before.len() && before[k] == id;
        assert(whole[k] == id);
    }
}

/// The chunks of a file that is gone are among those that are deleted.
proof fn lemma_all_ids_has(files: Seq<FileChunks>, i: int, id: u32)
    requires
        0 <= i < files.len(),
        files[i].chunk_ids@.contains(id),
    ensures
        all_ids(files).contains(id),
    decreases files.len(),
{
    let before = all_ids(files.drop_last());
    let whole = all_ids(files);
    if i == files.len() - 1 {
        let k = choose|k: int| 0 <= k < files[i].chunk_ids@.len() && files[i].chunk_ids@[k] == id;
        assert(whole[before.len() + k] == id);
    } else {
        assert(files.drop_last()[i] == files[i]);
        lemma_all_ids_has(files.drop_last(), i, id);
        let k = choose|k: int| 0 <= k < before.len() && before[k] == id;
        assert(whole[k] == id);
    }
}

/// Files that are not among those that are gone stay in the table.
proof fn lemma_without_files(table: Map<Seq<char>, Seq<u32>>, deleted: Seq<FileChunks>, p: Seq<char>)
    ensures
        without_files(table, deleted).dom().contains(p) <==> (table.dom().contains(p) && forall|
            i: int,
        |
            0 <= i < deleted.len() ==> (#[trigger] deleted[i]).path@ != p),
        without_files(table, deleted).dom().contains(p) ==> without_files(table, deleted)[p]
            == table[p],
    decreases deleted.len(),
{
    if deleted.len() > 0 {
        let front = deleted.drop_last();
        lemma_without_files(table, front, p);
        assert forall|i: int| 0 <= i < front.len() implies #[trigger] front[i] == deleted[i] by {}
        assert(deleted[deleted.len() - 1] == deleted.last());
        if forall|i: int| 0 <= i < front.len() ==> (#[trigger] front[i]).path@ != p {
            assert forall|i: int| 0 <= i < deleted.len() - 1 implies (
            #[trigger] deleted[i]).path@ != p by {
                assert(front[i] == deleted[i]);
            }
        } else {
            let i = choose|i: int| 0 <= i < front.len() && (#[trigger] front[i]).path@ == p;
            assert(deleted[i].path@ == p);
        }
    }
}

/// A run leaves no chunk behind that belongs to no file: if every chunk in the
/// store is recorded with a file before the run, then so it is after it, even
/// where the run was stopped half way or files were left out. So a later run
/// finds every chunk that it has to delete.
pub proof fn law_no_orphans(
    stored: Set<u32>,
    table: Map<Seq<char>, Seq<u32>>,
    checks: Seq<FileCheck>,
    deleted: Seq<FileChunks>,
    run: Map<Seq<char>, Seq<u32>>,
)
    requires
        stored.subset_of(table_ids(table)),
        checks_match(table, checks),
        deleted_match(table, deleted),
        forall|p: Seq<char>| #[trigger] run.dom().contains(p) ==> is_changed(checks, p),
    ensures
        stored.difference((all_ids(deleted) + changed_ids(checks)).to_set()).union(
            table_ids(run),
        ).subset_of(table_ids(without_files(table, deleted).union_prefer_right(run))),
        (all_ids(deleted) + changed_ids(checks)).len() == 0 ==> stored.union(
            table_ids(run),
        ).subset_of(table_ids(table.union_prefer_right(run))),
{
    let gone = all_ids(deleted) + changed_ids(checks);
    let rest = without_files(table, deleted).union_prefer_right(run);
    let kept = table.union_prefer_right(run);
    assert forall|id: u32|
        stored.difference(gone.to_set()).union(table_ids(run)).contains(id) implies table_ids(
        rest,
    ).contains(id) && (gone.len() == 0 ==> table_ids(kept).contains(id)) by {
        if table_ids(run).contains(id) {
            let p = choose|p: Seq<char>| run.dom().contains(p) && (#[trigger] run[p]).contains(id);
            assert(rest.dom().contains(p) && rest[p] == run[p]);
            assert(kept.dom().contains(p) && kept[p] == run[p]);
        } else {
            assert(table_ids(table).contains(id));
            let p = choose|p: Seq<char>|
                table.dom().contains(p) && (#[trigger] table[p]).contains(id);
            if run.dom().contains(p) {
                let i = choose|i: int|
                    0 <= i < checks.len() && (#[trigger] checks[i]).changed && checks[i].path@ == p;
                lemma_changed_ids_has(checks, i, id);
                let k = choose|k: int|
                    0 <= k < changed_ids(checks).len() && changed_ids(checks)[k] == id;
                assert(gone[all_ids(deleted).len() + k] == id);
                assert(gone.to_set().contains(id));
            }
            assert(kept.dom().contains(p) && kept[p] == table[p]);
            lemma_without_files(table, deleted, p);
            if !without_files(table, deleted).dom().contains(p) {
                let i = choose|i: int| 0 <= i < deleted.len() && (#[trigger] deleted[i]).path@ == p;
                lemma_all_ids_has(deleted, i, id);
                let k = choose|k: int| 0 <= k < all_ids(deleted).len() && all_ids(deleted)[k] == id;
                assert(gone[k] == id);
                assert(gone.to_set().contains(id));
            }
            assert(rest.dom().contains(p) && rest[p] == table[p]);
        }
    }
    if gone.len() == 0 {
        assert forall|id: u32| stored.union(table_ids(run)).contains(id) implies table_ids(
            kept,
        ).contains(id) by {
            assert(!gone.to_set().contains(id));
            assert(stored.difference(gone.to_set()).union(table_ids(run)).contains(id));
        }
    }
}

/// No chunk belongs to two files.
pub open spec fn disjoint_files(table: Map<Seq<char>, Seq<u32>>) -> bool {
    forall|p: Seq<char>, q: Seq<char>, id: u32|
        table.dom().contains(p) && table.dom().contains(q) && #[trigger] table[p].contains(id)
            && #[trigger] table[q].contains(id) ==> p == q
}

/// What is deleted of the files that changed comes from one of them.
proof fn lemma_changed_ids_from(checks: Seq<FileCheck>, id: u32) -> (i: int)
    requires
        changed_ids(checks).contains(id),
    ensures
        0 <= i < checks.len(),
        checks[i].changed,
        checks[i].old_ids@.contains(id),
    decreases checks.len(),
{
    let whole = changed_ids(checks);
    let k = choose|k: int| 0 <= k < whole.len() && whole[k] == id;
    assert(checks.len() > 0);
    let before = changed_ids(checks.drop_last());
    if k < before.len() {
        assert(before[k] == id);
        let i = lemma_changed_ids_from(checks.drop_last(), id);
        assert(checks.drop_last()[i] == checks[i]);
        i
    } else {
        assert(checks.last().old_ids@[k - before.len()] == id);
        checks.len() - 1
    }
}

/// What is deleted of the files that are gone comes from one of them.
proof fn lemma_all_ids_from(files: Seq<FileChunks>, id: u32) -> (i: int)
    requires
        all_ids(files).contains(id),
    ensures
        0 <= i < files.len(),
        files[i].chunk_ids@.contains(id),
    decreases files.len(),
{
    let whole = all_ids(files);
    let k = choose|k: int| 0 <= k < whole.len() && whole[k] == id;
    assert(files.len() > 0);
    let before = all_ids(files.drop_last());
    if k < before.len() {
        assert(before[k] == id);
        let i = lemma_all_ids_from(files.drop_last(), id);
        assert(files.drop_last()[i] == files[i]);
        i
    } else {
        assert(files.last().chunk_ids@[k - before.len()] == id);
        files.len() - 1
    }
}

/// A run that processed every file that changed leaves the store and the record
/// in agreement: the chunks in the store are exactly those of the recorded
/// files, if they were so before.
pub proof fn law_store_matches_record(
    stored: Set<u32>,
    table: Map<Seq<char>, Seq<u32>>,
    checks: Seq<FileCheck>,
    deleted: Seq<FileChunks>,
    run: Map<Seq<char>, Seq<u32>>,
)
    requires
        stored == table_ids(table),
        disjoint_files(table),
        checks_match(table, checks),
        forall|i: int|
            0 <= i < checks.len() && !table.dom().contains((#[trigger] checks[i]).path@)
                ==> checks[i].old_ids@.len() == 0,
        deleted_match(table, deleted),
        forall|p: Seq<char>| #[trigger] run.dom().contains(p) <==> is_changed(checks, p),
    ensures
        stored.difference((all_ids(deleted) + changed_ids(checks)).to_set()).union(table_ids(run))
            == table_ids(without_files(table, deleted).union_prefer_right(run)),
{
    let gone = all_ids(deleted) + changed_ids(checks);
    let rest = without_files(table, deleted).union_prefer_right(run);
    let after = stored.difference(gone.to_set()).union(table_ids(run));
    law_no_orphans(stored, table, checks, deleted, run);
    assert forall|id: u32| table_ids(rest).contains(id) implies after.contains(id) by {
        let p = choose|p: Seq<char>| rest.dom().contains(p) && (#[trigger] rest[p]).contains(id);
        if run.dom().contains(p) {
            assert(run[p].contains(id));
        } else {
            lemma_without_files(table, deleted, p);
            assert(table[p].contains(id));
            if gone.to_set().contains(id) {
                let k = choose|k: int| 0 <= k < gone.len() && gone[k] == id;
                if k < all_ids(deleted).len() {
                    assert(all_ids(deleted)[k] == id);
                    let i = lemma_all_ids_from(deleted, id);
                    assert(table[deleted[i].path@].contains(id));
                    assert(deleted[i].path@ == p);
                } else {
                    assert(changed_ids(checks)[k - all_ids(deleted).len()] == id);
                    let i = lemma_changed_ids_from(checks, id);
                    assert(table.dom().contains(checks[i].path@));
                    assert(table[checks[i].path@].contains(id));
                    assert(checks[i].path@ == p);
                    assert(is_changed(checks, p));
                }
                assert(false);
            }
        }
    }
    assert(after =~= table_ids(rest));
}

/// What a run records of the files, one after the other.
pub open spec fn run_files(
    paths: Seq<Seq<char>>,
    outcomes: Seq<FileOutcome>,
) -> Map<Seq<char>, Seq<u32>>
    decreases outcomes.len(),
{
    if outcomes.len() == 0 {
        Map::empty()
    } else {
        stepped(
            run_files(paths, outcomes.drop_last()),
            paths[outcomes.len() - 1],
            outcomes.last(),
        )
    }
}

/// A run records every file that it processed, with the chunks that it stored
/// of it, and no file that it left out: neither a file that could not be read
/// nor one at which the run was stopped.
pub proof fn law_run_records_each_file(paths: Seq<Seq<char>>, outcomes: Seq<FileOutcome>, k: int)
    requires
        paths.len() >= outcomes.len(),
        paths.no_duplicates(),
        0 <= k < outcomes.len(),
    ensures
        run_files(paths, outcomes).dom().contains(paths[k]) <==> outcomes[k] is Stored
            || outcomes[k] is NoChunks,
        outcomes[k] matches FileOutcome::Stored { count, ids } ==> run_files(paths, outcomes)[paths[k]]
            == ids@,
        outcomes[k] is NoChunks ==> run_files(paths, outcomes)[paths[k]].len() == 0,
    decreases outcomes.len(),
{
    let front = outcomes.drop_last();
    let last = outcomes.len() - 1;
    if k < last {
        assert(front[k] == outcomes[k]);
        law_run_records_each_file(paths, front, k);
        assert(paths[k] != paths[last]);
    } else {
        lemma_run_files_from(paths, front, paths[k]);
    }
}

/// A file that a run recorded is one of those that it came to.
proof fn lemma_run_files_from(paths: Seq<Seq<char>>, outcomes: Seq<FileOutcome>, p: Seq<char>)
    requires
        paths.len() >= outcomes.len(),
    ensures
        run_files(paths, outcomes).dom().contains(p) ==> exists|i: int|
            0 <= i < outcomes.len() && #[trigger] paths[i] == p,
    decreases outcomes.len(),
{
    if outcomes.len() > 0 {
        lemma_run_files_from(paths, outcomes.drop_last(), p);
        if run_files(paths, outcomes).dom().contains(p) && !run_files(
            paths,
            outcomes.drop_last(),
        ).dom().contains(p) {
            assert(paths[outcomes.len() - 1] == p);
        }
    }
}

/// An incremental run keeps what is recorded of the files that it did not
/// touch.
pub proof fn law_unchanged_files_kept(
    table: Map<Seq<char>, Seq<u32>>,
    run: Map<Seq<char>, Seq<u32>>,
    path: Seq<char>,
)
    requires
        table.dom().contains(path),
        !run.dom().contains(path),
    ensures
        table.union_prefer_right(run).dom().contains(path),
        table.union_prefer_right(run)[path] == table[path],
{
}

/// A run that was stopped leaves an index that can be searched: whenever chunks
/// were stored, the vector index is built over them.
pub proof fn law_index_is_built(cancelled: bool, chunks: nat, any_files: bool)
    ensures
        finish_plan(cancelled, chunks, any_files).build_index == (chunks > 0),
        finish_plan(cancelled, chunks, any_files).metadata_partial == Some(true) <==> cancelled,
        any_files ==> finish_plan(cancelled, chunks, any_files).save_files,
{
}

/// A refresh records every chunk that it stored from one of the files that it
/// read anew, and records every such file, even one without chunks.
pub proof fn law_refresh_records_all(
    changed: Seq<Seq<char>>,
    chunk_paths: Seq<Seq<char>>,
    ids: Seq<u32>,
    c: int,
    k: int,
)
    requires
        0 <= c < changed.len(),
        0 <= k < ids.len(),
        k < chunk_paths.len(),
    ensures
        refreshed(changed, chunk_paths, ids).dom().contains(paths::normal(changed[c])),
        paths::normal(chunk_paths[k]) == paths::normal(changed[c]) ==> refreshed(
            changed,
            chunk_paths,
            ids,
        )[paths::normal(changed[c])].contains(ids[k]),
{
    let path = paths::normal(changed[c]);
    if paths::normal(chunk_paths[k]) == path {
        lemma_ids_of_path_has(chunk_paths, ids, k);
    }
    lemma_refreshed_at(changed, chunk_paths, ids, c);
}

/// A file that was read anew is recorded with its chunks.
proof fn lemma_refreshed_at(
    changed: Seq<Seq<char>>,
    chunk_paths: Seq<Seq<char>>,
    ids: Seq<u32>,
    c: int,
)
    requires
        0 <= c < changed.len(),
    ensures
        refreshed(changed, chunk_paths, ids).dom().contains(paths::normal(changed[c])),
        refreshed(changed, chunk_paths, ids)[paths::normal(changed[c])] == ids_of_path(
            chunk_paths,
            ids,
            paths::normal(changed[c]),
        ),
    decreases changed.len(),
{
    if c < changed.len() - 1 {
        assert(changed.drop_last()[c] == changed[c]);
        lemma_refreshed_at(changed.drop_last(), chunk_paths, ids, c);
    }
}

/// A chunk is among those of its own path.
proof fn lemma_ids_of_path_has(chunk_paths: Seq<Seq<char>>, ids: Seq<u32>, k: int)
    requires
        0 <= k < ids.len(),
        k < chunk_paths.len(),
    ensures
        ids_of_path(chunk_paths, ids, paths::normal(chunk_paths[k])).contains(ids[k]),
    decreases chunk_paths.len(),
{
    let path = paths::normal(chunk_paths[k]);
    let before = ids_of_path(chunk_paths.drop_last(), ids, path);
    let whole = ids_of_path(chunk_paths, ids, path);
    if k == chunk_paths.len() - 1 {
        assert(whole[before.len() as int] == ids[k]);
    } else {
        assert(chunk_paths.drop_last()[k] == chunk_paths[k]);
        lemma_ids_of_path_has(chunk_paths.drop_last(), ids, k);
        let j = choose|j: int| 0 <= j < before.len() && before[j] == ids[k];
        assert(whole[j] == ids[k]);
    }
}

/// A change of the branch deletes every chunk that is recorded with a file that
/// changed or is gone, and no other.
pub proof fn law_branch_refresh_deletes_exactly(
    checks: Seq<FileCheck>,
    deleted: Seq<FileChunks>,
    id: u32,
)
    ensures
        (changed_ids(checks) + all_ids(deleted)).contains(id) <==> (exists|i: int|
            0 <= i < checks.len() && (#[trigger] checks[i]).changed && checks[i].old_ids@.contains(
                id,
            )) || (exists|i: int|
            0 <= i < deleted.len() && (#[trigger] deleted[i]).chunk_ids@.contains(id)),
{
    let gone = changed_ids(checks) + all_ids(deleted);
    let n = changed_ids(checks).len() as int;
    if gone.contains(id) {
        let k = choose|k: int| 0 <= k < gone.len() && gone[k] == id;
        if k < n {
            assert(changed_ids(checks)[k] == id);
            let i = lemma_changed_ids_from(checks, id);
            assert(checks[i].changed);
        } else {
            assert(all_ids(deleted)[k - n] == id);
            let i = lemma_all_ids_from(deleted, id);
            assert(deleted[i].chunk_ids@.contains(id));
        }
    }
    if exists|i: int|
        0 <= i < checks.len() && (#[trigger] checks[i]).changed && checks[i].old_ids@.contains(id) {
        let i = choose|i: int|
            0 <= i < checks.len() && (#[trigger] checks[i]).changed && checks[i].old_ids@.contains(
                id,
            );
        lemma_changed_ids_has(checks, i, id);
        let k = choose|k: int| 0 <= k < n && changed_ids(checks)[k] == id;
        assert(gone[k] == id);
    }
    if exists|i: int| 0 <= i < deleted.len() && (#[trigger] deleted[i]).chunk_ids@.contains(id) {
        let i = choose|i: int|
            0 <= i < deleted.len() && (#[trigger] deleted[i]).chunk_ids@.contains(id);
        lemma_all_ids_has(deleted, i, id);
        let k = choose|k: int| 0 <= k < all_ids(deleted).len() && all_ids(deleted)[k] == id;
        assert(gone[n + k] == id);
    }
}

/// A file is read anew if and only if it changed: the places that are read anew
/// are those of the files that changed, each once and in rising order.
pub proof fn law_changed_files_are_read_anew(checks: Seq<FileCheck>) -> (places: Seq<int>)
    requires
        checks.len() <= usize::MAX,
    ensures
        sorting::selects(places, checks.len() as int, |i: int| checks[i].changed),
        changed_places(checks).len() == places.len(),
        forall|k: int|
            0 <= k < places.len() ==> #[trigger] changed_places(checks)[k] as int == places[k],
    decreases checks.len(),
{
    if checks.len() == 0 {
        Seq::empty()
    } else {
        let front = checks.drop_last();
        let before = law_changed_files_are_read_anew(front);
        let first = changed_places(front);
        let all = changed_places(checks);
        let places = sorting::lemma_selects_step(
            before,
            checks.len() - 1,
            |i: int| front[i].changed,
            |i: int| checks[i].changed,
        );
        assert forall|k: int| 0 <= k < places.len() implies #[trigger] all[k] as int
            == places[k] by {
            if k < before.len() {
                assert(all[k] == first[k]);
            }
        }
        places
    }
}

/// Whether a file is read anew depends on that file alone.
pub proof fn law_each_file_for_itself(checks: Seq<FileCheck>, i: int)
    requires
        checks.len() <= usize::MAX,
        0 <= i < checks.len(),
    ensures
        changed_places(checks).contains(i as usize) <==> checks[i].changed,
{
    let places = law_changed_files_are_read_anew(checks);
    let wanted = |i: int| checks[i].changed;
    if checks[i].changed {
        assert(wanted(i));
        let k = choose|k: int| 0 <= k < places.len() && places[k] == i;
        assert(changed_places(checks)[k] as int == places[k]);
        assert(changed_places(checks)[k] == i as usize);
    }
    if changed_places(checks).contains(i as usize) {
        let k = choose|k: int|
            0 <= k < changed_places(checks).len() && changed_places(checks)[k] == i as usize;
        assert(changed_places(checks)[k] as int == places[k]);
        assert(wanted(places[k]));
    }
}

/// The chunks of the files that changed, and those of the files that are gone,
/// stand file by file, those of each file whole and in their order.
pub proof fn law_deleted_chunks(
    checks: Seq<FileCheck>,
    check: FileCheck,
    deleted: Seq<FileChunks>,
    file: FileChunks,
)
    ensures
        changed_ids(Seq::empty()) == Seq::<u32>::empty(),
        check.changed ==> changed_ids(checks.push(check)) == changed_ids(checks) + check.old_ids@,
        !check.changed ==> changed_ids(checks.push(check)) == changed_ids(checks),
        all_ids(Seq::empty()) == Seq::<u32>::empty(),
        all_ids(deleted.push(file)) == all_ids(deleted) + file.chunk_ids@,
{
    assert(checks.push(check).drop_last() =~= checks);
    assert(deleted.push(file).drop_last() =~= deleted);
}

/// The record loses the files that are gone, and keeps of every other file what
/// it says.
pub proof fn law_files_are_forgotten(
    table: Map<Seq<char>, Seq<u32>>,
    deleted: Seq<FileChunks>,
    path: Seq<char>,
)
    ensures
        without_files(table, deleted).dom().contains(path) <==> table.dom().contains(path)
            && !exists|i: int| 0 <= i < deleted.len() && (#[trigger] deleted[i]).path@ == path,
        without_files(table, deleted).dom().contains(path) ==> without_files(table, deleted)[path]
            == table[path],
{
    lemma_without_files(table, deleted, path);
}

/// A run over no files does nothing, a dry run only shows what it would do, a
/// forced run or one without a database indexes everything, and every other run
/// only the changes.
pub proof fn law_how_a_run_begins(files: nat, dry_run: bool, db_exists: bool, force: bool)
    ensures
        run_start(files, dry_run, db_exists, force) == RunStart::NoFiles <==> files == 0,
        files > 0 ==> (run_start(files, dry_run, db_exists, force) == RunStart::DryRun <==> dry_run),
        files > 0 && !dry_run ==> (run_start(files, dry_run, db_exists, force)
            == RunStart::Incremental <==> db_exists && !force),
        files > 0 && !dry_run ==> (run_start(files, dry_run, db_exists, force) == RunStart::Full
            <==> !db_exists || force),
{
}

/// A file that cannot be read is listed with its path and the reason; no other
/// file is listed. Only stored chunks are counted.
pub proof fn law_skipped_files(path: Seq<char>, outcome: FileOutcome)
    ensures
        skip_text(path, outcome) is Some <==> outcome is ReadFailed || outcome is BytesFailed,
        outcome matches FileOutcome::ReadFailed(e) ==> skip_text(path, outcome) == Some(
            path + " ("@ + e@ + ")"@,
        ),
        outcome matches FileOutcome::BytesFailed(e) ==> skip_text(path, outcome) == Some(
            path + " (read failed: "@ + e@ + ")"@,
        ),
        outcome matches FileOutcome::Stored { count, ids } ==> added_chunks(outcome) == count,
        !(outcome is Stored) ==> added_chunks(outcome) == 0,
{
}

/// A run that went through commits the text index, and where it stored chunks
/// it builds the vector index and writes metadata, files and numbers. A run
/// that was stopped writes metadata that say so, whatever it stored.
pub proof fn law_how_a_run_ends(cancelled: bool, chunks: nat, any_files: bool)
    ensures
        ({
            let plan = finish_plan(cancelled, chunks, any_files);
            &&& plan.build_index <==> chunks > 0
            &&& plan.commit_text <==> !cancelled || chunks > 0
            &&& plan.save_files <==> any_files || !cancelled && chunks > 0
            &&& plan.write_stats <==> cancelled || chunks > 0
            &&& cancelled ==> plan.metadata_partial == Some(true)
            &&& !cancelled && chunks > 0 ==> plan.metadata_partial == Some(false)
            &&& !cancelled && chunks == 0 ==> plan.metadata_partial is None
        }),
{
}

/// The chunks of a path are those that were stored from it, each once and in
/// their order, whatever form the path has.
pub proof fn law_chunks_of_a_path(chunk_paths: Seq<Seq<char>>, ids: Seq<u32>, path: Seq<char>) -> (places:
    Seq<int>)
    ensures
        sorting::selects(
            places,
            chunk_paths.len() as int,
            |k: int| k < ids.len() && paths::normal(chunk_paths[k]) == path,
        ),
        ids_of_path(chunk_paths, ids, path).len() == places.len(),
        forall|k: int|
            0 <= k < places.len() ==> #[trigger] ids_of_path(chunk_paths, ids, path)[k]
                == ids[places[k]],
    decreases chunk_paths.len(),
{
    if chunk_paths.len() == 0 {
        Seq::empty()
    } else {
        let front = chunk_paths.drop_last();
        let before = law_chunks_of_a_path(front, ids, path);
        let first = ids_of_path(front, ids, path);
        let all = ids_of_path(chunk_paths, ids, path);
        let places = sorting::lemma_selects_step(
            before,
            chunk_paths.len() - 1,
            |k: int| k < ids.len() && paths::normal(front[k]) == path,
            |k: int| k < ids.len() && paths::normal(chunk_paths[k]) == path,
        );
        assert forall|k: int| 0 <= k < places.len() implies #[trigger] all[k] == ids[places[k]] by {
            if k < before.len() {
                assert(all[k] == first[k]);
            }
        }
        places
    }
}

/// A refresh records the files that it read anew, and no others.
pub proof fn law_refresh_records_only_those(
    changed: Seq<Seq<char>>,
    chunk_paths: Seq<Seq<char>>,
    ids: Seq<u32>,
    path: Seq<char>,
)
    ensures
        refreshed(changed, chunk_paths, ids).dom().contains(path) <==> exists|c: int|
            0 <= c < changed.len() && paths::normal(#[trigger] changed[c]) == path,
        refreshed(changed, chunk_paths, ids).dom().contains(path) ==> refreshed(
            changed,
            chunk_paths,
            ids,
        )[path] == ids_of_path(chunk_paths, ids, path),
    decreases changed.len(),
{
    if changed.len() > 0 {
        let front = changed.drop_last();
        law_refresh_records_only_those(front, chunk_paths, ids, path);
        if exists|c: int| 0 <= c < front.len() && paths::normal(#[trigger] front[c]) == path {
            let c = choose|c: int| 0 <= c < front.len() && paths::normal(#[trigger] front[c]) == path;
            assert(paths::normal(changed[c]) == path);
        }
        if paths::normal(changed.last()) == path {
            assert(paths::normal(changed[changed.len() - 1]) == path);
        }
        if exists|c: int| 0 <= c < changed.len() && paths::normal(#[trigger] changed[c]) == path {
            let c = choose|c: int|
                0 <= c < changed.len() && paths::normal(#[trigger] changed[c]) == path;
            if c < front.len() {
                assert(paths::normal(front[c]) == path);
            }
        }
    }
}

/// After files were read anew, the record says of each the chunks that were
/// stored last; a file that could not be read, and every other, stays as it was
/// recorded.
pub proof fn law_synced_files(
    table: Map<Seq<char>, Seq<u32>>,
    files: Seq<SyncedFile>,
    path: Seq<char>,
    i: int,
)
    requires
        -1 <= i < files.len(),
        i >= 0 ==> files[i].path@ == path && files[i].ids is Some,
        forall|j: int|
            i < j < files.len() ==> (#[trigger] files[j]).path@ != path || files[j].ids is None,
    ensures
        i >= 0 ==> synced(table, files).dom().contains(path) && synced(table, files)[path]
            == files[i].ids->0@,
        i < 0 ==> (synced(table, files).dom().contains(path) <==> table.dom().contains(path)),
        i < 0 && table.dom().contains(path) ==> synced(table, files)[path] == table[path],
    decreases files.len(),
{
    if files.len() > 0 && i < files.len() - 1 {
        let front = files.drop_last();
        let last = files.len() - 1;
        assert(files[last].path@ != path || files[last].ids is None);
        assert forall|j: int| i < j < front.len() implies (#[trigger] front[j]).path@ != path
            || front[j].ids is None by {
            assert(files[j] == front[j]);
        }
        law_synced_files(table, front, path, i);
    }
}

/// Chunks are committed by the thousand.
pub proof fn law_commit_interval()
    ensures
        COMMIT_INTERVAL == 1000,
{
}

/// The operation itself: a file is read anew exactly if it has changed, each one
/// once and in the order of the checks.
pub proof fn law_planned_changes(
    checks: &Vec<FileCheck>,
    deleted: &Vec<FileChunks>,
    r: ChangePlan,
    i: int,
    a: int,
    b: int,
)
    requires
        call_ensures(plan_changes, (checks, deleted), r),
        checks@.len() <= usize::MAX,
    ensures
        0 <= i < checks@.len() ==> (checks@[i].changed <==> r.changed@.contains(i as usize)),
        0 <= a < r.changed@.len() ==> r.changed@[a] < checks@.len()
            && checks@[r.changed@[a] as int].changed,
        0 <= a < b < r.changed@.len() ==> r.changed@[a] < r.changed@[b],
        r.unchanged == checks@.len() - r.changed@.len(),
{
    let places = law_changed_files_are_read_anew(checks@);
    let wanted = |i: int| checks@[i].changed;
    if 0 <= i < checks@.len() {
        if checks@[i].changed {
            assert(wanted(i));
            assert(places.contains(i));
            let k = choose|k: int| 0 <= k < places.len() && places[k] == i;
            assert(r.changed@[k] as int == places[k]);
            assert(r.changed@[k] == i as usize);
        }
        if r.changed@.contains(i as usize) {
            let k = choose|k: int| 0 <= k < r.changed@.len() && r.changed@[k] == i as usize;
            assert(r.changed@[k] as int == places[k]);
            assert(wanted(places[k]));
        }
    }
    if 0 <= a < r.changed@.len() {
        assert(r.changed@[a] as int == places[a]);
        assert(wanted(places[a]));
    }
    if 0 <= a < b < r.changed@.len() {
        assert(r.changed@[a] as int == places[a] && r.changed@[b] as int == places[b]);
        assert(places[a] < places[b]);
    }
}

/// An index is cleared where chunks are left and no file is known, and its tree is
/// built where it has chunks and no tree.
pub proof fn law_when_an_index_is_mended(
    files: &FileTable,
    chunks: Option<usize>,
    stats: Option<VectorStats>,
    clear: bool,
    build: bool,
)
    requires
        call_ensures(must_clear, (files, chunks), clear),
        call_ensures(ensure_hnsw_index_if_needed, (stats,), build),
    ensures
        clear ==> chunks is Some && chunks->0 > 0,
        files@.dom() == Set::<Seq<char>>::empty() && chunks is Some && chunks->0 > 0 ==> clear,
        build <==> stats is Some && stats->0.total_chunks > 0 && !stats->0.indexed,
{
    if files@.dom() == Set::<Seq<char>>::empty() {
        assert(files@ =~= Map::<Seq<char>, Seq<u32>>::empty());
    }
}

/// A branch is refreshed where there is metadata and a file has changed or is
/// gone: the chunks of both are deleted, and the changed files are read anew.
pub proof fn law_branch_refresh(
    has_metadata: bool,
    checks: &Vec<FileCheck>,
    deleted: &Vec<FileChunks>,
    r: BranchRefresh,
    i: int,
)
    requires
        call_ensures(branch_refresh, (has_metadata, checks, deleted), r),
        checks@.len() <= usize::MAX,
    ensures
        r is NoMetadata <==> !has_metadata,
        has_metadata && 0 <= i < checks@.len() && checks@[i].changed ==> r is Run,
        has_metadata && deleted@.len() > 0 ==> r is Run,
        r is UpToDate && 0 <= i < checks@.len() ==> !checks@[i].changed && deleted@.len() == 0,
        r is Run ==> r->delete@ == changed_ids(checks@) + all_ids(deleted@),
        r is Run && 0 <= i < checks@.len() ==> (checks@[i].changed <==> r->changed@.contains(
            i as usize,
        )),
{
    let places = law_changed_files_are_read_anew(checks@);
    let all = changed_places(checks@);
    let wanted = |i: int| checks@[i].changed;
    if 0 <= i < checks@.len() {
        if checks@[i].changed {
            assert(wanted(i));
            assert(places.contains(i));
            let k = choose|k: int| 0 <= k < places.len() && places[k] == i;
            assert(all[k] as int == places[k]);
            assert(all[k] == i as usize);
        }
        if all.contains(i as usize) {
            let k = choose|k: int| 0 <= k < all.len() && all[k] == i as usize;
            assert(all[k] as int == places[k]);
            assert(wanted(places[k]));
        }
    }
}

/// A text is indexed as it was read, and bytes in UTF-8 as the text they are.
pub proof fn law_source_text(read: FileRead, r: Result<String, FileOutcome>)
    requires
        call_ensures(source_text, (read,), r),
    ensures
        read matches FileRead::Text(t) ==> r is Ok && r->Ok_0@ == t@,
        read matches FileRead::Bytes(b) ==> r is Ok,
        read matches FileRead::Bytes(b) ==> (vstd::utf8::valid_utf8(b@) ==> r->Ok_0@
            == vstd::utf8::decode_utf8(b@)),
        read is Failed || read is BytesFailed ==> r is Err,
        read is Failed ==> r->Err_0 is ReadFailed,
        read is BytesFailed ==> r->Err_0 is BytesFailed,
{
}

/// What a run found replaces what was recorded of the same files, and what was
/// recorded of others stays.
pub proof fn law_recorded_files(before: Option<FileTable>, run: &FileTable, r: FileTable, p: Seq<char>)
    requires
        call_ensures(recorded_files, (before, run), r),
    ensures
        run@.dom().contains(p) ==> r@.dom().contains(p) && r@[p] == run@[p],
        !run@.dom().contains(p) && before is Some && before->0@.dom().contains(p)
            ==> r@.dom().contains(p) && r@[p] == before->0@[p],
        !run@.dom().contains(p) && (before is None || !before->0@.dom().contains(p))
            ==> !r@.dom().contains(p),
{
}

/// A file with chunks is recorded with their ids, one without any with none, and
/// one that could not be read not at all. Only chunks that were stored count, and
/// only files that could not be read are skipped with a word on it.
pub proof fn law_one_file(
    files: Map<Seq<char>, Seq<u32>>,
    path: Seq<char>,
    other: Seq<char>,
    outcome: FileOutcome,
)
    ensures
        outcome is Stored ==> stepped(files, path, outcome).dom().contains(path) && stepped(
            files,
            path,
            outcome,
        )[path] == outcome->ids@ && added_chunks(outcome) == outcome->count,
        outcome is NoChunks ==> stepped(files, path, outcome).dom().contains(path) && stepped(
            files,
            path,
            outcome,
        )[path].len() == 0,
        !(outcome is Stored) && !(outcome is NoChunks) ==> stepped(files, path, outcome) == files,
        !(outcome is Stored) ==> added_chunks(outcome) == 0,
        other != path ==> stepped(files, path, outcome).dom().contains(other)
            == files.dom().contains(other),
        other != path && files.dom().contains(other) ==> stepped(files, path, outcome)[other]
            == files[other],
        skip_text(path, outcome) is Some <==> outcome is ReadFailed || outcome is BytesFailed,
        skip_text(path, outcome) is Some ==> text::begins_with(skip_text(path, outcome)->0, path),
{
    if skip_text(path, outcome) is Some {
        let s = skip_text(path, outcome)->0;
        text::law_ends_of_text(s, path);
        assert(s.take(path.len() as int) =~= path);
    }
}

} // verus!
