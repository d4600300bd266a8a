use codesearch::filetable::{FileChunks, FileTable};
use codesearch::indexing::{
    branch_refresh, deletes_chunks, ensure_hnsw_index_if_needed, finish_run, forget_files, is_up_to_date, must_clear, plan_changes, record_refresh, recorded_files, remove_file, source_text, start_run, stores_file, sync_database, BranchRefresh, FileCheck, FileOutcome, FileRead, IndexRun, NextStep, RunStart, SyncedFile, VectorStats,
};

#[test]
fn rebuilds_unindexed_db_with_chunks() {
    let stats = VectorStats { total_chunks: 1, indexed: false };
    assert!(
        ensure_hnsw_index_if_needed(Some(stats)),
        "expected the function to report it rebuilt the index"
    );
}

#[test]
fn no_rebuild_when_already_indexed() {
    let stats = VectorStats { total_chunks: 1, indexed: true };
    assert!(
        !ensure_hnsw_index_if_needed(Some(stats)),
        "should not report a rebuild on an already-indexed DB"
    );
}

#[test]
fn no_rebuild_for_empty_db() {
    let stats = VectorStats { total_chunks: 0, indexed: false };
    assert!(!ensure_hnsw_index_if_needed(Some(stats)), "empty DB needs no rebuild");
    assert!(!ensure_hnsw_index_if_needed(None));
}

fn gone(path: &str, ids: Vec<u32>) -> FileChunks {
    FileChunks { path: path.to_string(), chunk_ids: ids }
}

fn check(path: &str, changed: bool, ids: Vec<u32>) -> FileCheck {
    FileCheck { path: path.to_string(), changed, old_ids: ids }
}

#[test]
fn test_refresh_removes_ghost_file_entries() {
    let mut table = FileTable::new();
    table.insert("ghost.rs", vec![100, 101]);
    let deleted = vec![gone("ghost.rs", vec![100, 101])];
    let plan = plan_changes(&vec![], &deleted);
    assert!(!is_up_to_date(&plan, deleted.len()));
    assert_eq!(plan.stale_ids, vec![100, 101]);
    forget_files(&mut table, &deleted);
    assert!(table.get("ghost.rs").is_none());
}

#[test]
fn test_refresh_removes_multiple_ghost_files() {
    let mut table = FileTable::new();
    table.insert("ghost1.rs", vec![10, 11]);
    table.insert("ghost2.rs", vec![20, 21, 22]);
    table.insert("ghost3.rs", vec![30]);
    let deleted = vec![
        gone("ghost1.rs", vec![10, 11]),
        gone("ghost2.rs", vec![20, 21, 22]),
        gone("ghost3.rs", vec![30]),
    ];
    let plan = plan_changes(&vec![], &deleted);
    assert_eq!(plan.stale_ids, vec![10, 11, 20, 21, 22, 30]);
    forget_files(&mut table, &deleted);
    assert!(table.is_empty(), "All 3 ghost files should be removed");
}

#[test]
fn test_refresh_preserves_valid_entries() {
    let plan = plan_changes(&vec![check("main.rs", false, vec![1])], &vec![]);
    assert!(is_up_to_date(&plan, 0));
    assert_eq!(plan.unchanged, 1);
    assert!(!deletes_chunks(&plan));
}

#[test]
fn test_refresh_mixed_ghost_and_real_files() {
    let mut table = FileTable::new();
    table.insert("real.rs", vec![]);
    table.insert("ghost.rs", vec![7]);
    let deleted = vec![gone("ghost.rs", vec![7])];
    let plan = plan_changes(&vec![check("real.rs", false, vec![])], &deleted);
    assert!(plan.changed.is_empty());
    assert_eq!(plan.stale_ids, vec![7]);
    forget_files(&mut table, &deleted);
    assert!(table.get("ghost.rs").is_none());
    assert!(table.get("real.rs").is_some());
}

#[test]
fn test_refresh_empty_codebase_cleans_all_stale() {
    let mut table = FileTable::new();
    table.insert("lib.rs", vec![1]);
    table.insert("util.rs", vec![2]);
    let deleted = vec![gone("lib.rs", vec![1]), gone("util.rs", vec![2])];
    let plan = plan_changes(&vec![], &deleted);
    assert!(deletes_chunks(&plan));
    forget_files(&mut table, &deleted);
    assert!(table.is_empty(), "All stale entries should be removed");
}

#[test]
fn changed_files_lose_their_old_chunks() {
    let checks = vec![
        check("a.rs", true, vec![1, 2]),
        check("b.rs", false, vec![3]),
        check("c.rs", true, vec![4]),
    ];
    let plan = plan_changes(&checks, &vec![]);
    assert_eq!(plan.changed, vec![0, 2]);
    assert_eq!(plan.unchanged, 1);
    assert_eq!(plan.old_ids, vec![1, 2, 4]);
    assert!(plan.stale_ids.is_empty());
}

#[test]
fn the_start_of_a_run() {
    assert_eq!(start_run(0, true, true, false), RunStart::NoFiles);
    assert_eq!(start_run(3, true, true, false), RunStart::DryRun);
    assert_eq!(start_run(3, false, true, false), RunStart::Incremental);
    assert_eq!(start_run(3, false, true, true), RunStart::Full);
    assert_eq!(start_run(3, false, false, false), RunStart::Full);
}

#[test]
fn lost_metadata_clear_the_stores() {
    let empty = FileTable::new();
    assert!(must_clear(&empty, Some(5)));
    assert!(!must_clear(&empty, Some(0)));
    assert!(!must_clear(&empty, None));
    let mut some = FileTable::new();
    some.insert("a.rs", vec![]);
    assert!(!must_clear(&some, Some(5)));
}

#[test]
fn a_run_from_file_to_file() {
    let mut run = IndexRun::new();
    assert_eq!(run.step("a.rs", FileOutcome::Stored { count: 2, ids: vec![1, 2] }), NextStep::Continue);
    assert_eq!(run.step("min.js", FileOutcome::NoChunks), NextStep::Continue);
    assert_eq!(run.step("b.rs", FileOutcome::ReadFailed("denied".to_string())), NextStep::Continue);
    assert_eq!(run.step("c.rs", FileOutcome::BytesFailed("gone".to_string())), NextStep::Continue);
    assert_eq!(run.step("d.rs", FileOutcome::Stored { count: 998, ids: vec![3] }), NextStep::Commit);
    assert_eq!(run.step("e.rs", FileOutcome::Shutdown), NextStep::Stop);
    assert_eq!(run.total_chunks, 1000);
    assert_eq!(run.skipped, vec!["b.rs (denied)", "c.rs (read failed: gone)"]);
    assert!(run.cancelled);
    assert_eq!(run.files.get("a.rs"), Some(&vec![1, 2]));
    assert_eq!(run.files.get("min.js"), Some(&vec![]));
    assert_eq!(run.files.get("b.rs"), None);
    let plan = finish_run(&run);
    assert!(plan.build_index);
    assert_eq!(plan.metadata_partial, Some(true));
    assert!(plan.save_files);
}

#[test]
fn a_run_without_chunks_still_records_its_files() {
    let mut run = IndexRun::new();
    run.step("min.js", FileOutcome::NoChunks);
    let plan = finish_run(&run);
    assert!(!plan.build_index);
    assert!(plan.save_files);
    assert_eq!(plan.metadata_partial, None);
}

#[test]
fn unchanged_files_stay_recorded() {
    let mut before = FileTable::new();
    before.insert("old.rs", vec![1]);
    before.insert("new.rs", vec![2]);
    let mut run = FileTable::new();
    run.insert("new.rs", vec![3]);
    let after = recorded_files(Some(before), &run);
    assert_eq!(after.get("old.rs"), Some(&vec![1]));
    assert_eq!(after.get("new.rs"), Some(&vec![3]));
    let fresh = recorded_files(None, &run);
    assert_eq!(fresh.get("old.rs"), None);
    assert_eq!(fresh.get("new.rs"), Some(&vec![3]));
}

#[test]
fn a_refresh_groups_chunks_by_file() {
    let changed = vec![r"src\a.rs".to_string(), "src/b.rs".to_string(), "src/c.rs".to_string()];
    let paths = vec!["src/a.rs".to_string(), "src/b.rs".to_string(), r"src\a.rs".to_string()];
    let table = record_refresh(&changed, &paths, &vec![1, 2, 3]);
    assert_eq!(table.get("src/a.rs"), Some(&vec![1, 3]));
    assert_eq!(table.get("src/b.rs"), Some(&vec![2]));
    assert_eq!(table.get("src/c.rs"), Some(&vec![]));
}

#[test]
fn text_that_is_no_utf8_is_read_anyway() {
    assert_eq!(source_text(FileRead::Text("abc".to_string())).unwrap(), "abc");
    assert_eq!(source_text(FileRead::Bytes(vec![0x66, 0xe9, 0x65])).unwrap(), "f\u{fffd}e");
    assert_eq!(source_text(FileRead::Bytes("über".as_bytes().to_vec())).unwrap(), "über");
    assert!(matches!(
        source_text(FileRead::Failed("x".to_string())),
        Err(FileOutcome::ReadFailed(e)) if e == "x"
    ));
    assert!(matches!(
        source_text(FileRead::BytesFailed("x".to_string())),
        Err(FileOutcome::BytesFailed(e)) if e == "x"
    ));
}

#[test]
fn single_files() {
    assert!(stores_file(true, true, true, 1));
    assert!(!stores_file(true, true, true, 0));
    assert!(!stores_file(false, true, true, 1));
    let mut table = FileTable::new();
    table.insert("a.rs", vec![4, 5]);
    let removal = remove_file(&mut table, "a.rs");
    assert_eq!(removal.ids, vec![4, 5]);
    assert!(removal.save);
    let removal = remove_file(&mut table, "a.rs");
    assert!(removal.ids.is_empty());
    assert!(!removal.save);
}

#[test]
fn syncing_before_a_search() {
    let mut table = FileTable::new();
    table.insert("kept.rs", vec![1]);
    table.insert("gone.rs", vec![2]);
    table.insert("locked.rs", vec![3]);
    let files = vec![
        SyncedFile { path: "new.rs".to_string(), ids: Some(vec![8, 9]) },
        SyncedFile { path: "locked.rs".to_string(), ids: None },
    ];
    assert!(sync_database(&mut table, &files, &vec![gone("gone.rs", vec![2])]));
    assert_eq!(table.get("new.rs"), Some(&vec![8, 9]));
    assert_eq!(table.get("kept.rs"), Some(&vec![1]));
    assert_eq!(table.get("locked.rs"), Some(&vec![3]));
    assert_eq!(table.get("gone.rs"), None);
    assert!(!sync_database(&mut table, &vec![], &vec![]));
    let mut paths = table.paths();
    paths.sort();
    assert_eq!(paths, vec!["kept.rs", "locked.rs", "new.rs"]);
}

#[test]
fn a_change_of_the_branch() {
    let checks = vec![
        FileCheck { path: "a".to_string(), changed: true, old_ids: vec![1, 2] },
        FileCheck { path: "b".to_string(), changed: false, old_ids: vec![3] },
        FileCheck { path: "c".to_string(), changed: true, old_ids: vec![] },
    ];
    let deleted = vec![FileChunks { path: "d".to_string(), chunk_ids: vec![4] }];
    assert!(matches!(branch_refresh(false, &checks, &deleted), BranchRefresh::NoMetadata));
    match branch_refresh(true, &checks, &deleted) {
        BranchRefresh::Run { delete, changed } => {
            assert_eq!(delete, vec![1, 2, 4]);
            assert_eq!(changed, vec![0, 2]);
        }
        _ => panic!("files changed"),
    }
    let same = vec![FileCheck { path: "b".to_string(), changed: false, old_ids: vec![3] }];
    assert!(matches!(branch_refresh(true, &same, &vec![]), BranchRefresh::UpToDate));
}
