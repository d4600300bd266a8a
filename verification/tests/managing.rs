use codesearch::manager::{
    files_under, is_database_locked, managed_database, new_or_readonly, rebuilds_after_removals, removed_files, writer_error, Batch, EventBuffer, FileEvent, LockProbe, StoreMode,
};

#[test]
fn a_second_process_reads() {
    assert!(is_database_locked(LockProbe::Held));
    assert!(!is_database_locked(LockProbe::Free));
    assert!(!is_database_locked(LockProbe::NoFile));
    assert!(!is_database_locked(LockProbe::Unreadable));
    assert!(matches!(new_or_readonly(true, None), StoreMode::Readonly));
    assert!(matches!(new_or_readonly(false, None), StoreMode::Writer));
    assert!(matches!(new_or_readonly(false, writer_error(true)), StoreMode::Writer));
    assert!(matches!(new_or_readonly(false, writer_error(false)), StoreMode::Readonly));
    assert!(matches!(
        new_or_readonly(false, Some("disk full".to_string())),
        StoreMode::Fail(m) if m == "disk full"
    ));
}

#[test]
fn a_server_needs_an_index() {
    assert_eq!(managed_database("/p", true).unwrap(), "/p/.codesearch.db");
    let e = managed_database("/p", false).unwrap_err();
    assert!(e.starts_with("❌ No index found for: /p\n\n💡 To create an index"));
    assert!(e.ends_with("Then start the server again."));
}

fn modified(p: &str) -> FileEvent {
    FileEvent::Modified(p.to_string())
}

fn deleted(p: &str) -> FileEvent {
    FileEvent::Deleted(p.to_string())
}

#[test]
fn events_are_batched() {
    let mut buffer = EventBuffer::new(0);
    assert!(buffer.flush(10_000).is_none());
    buffer.add_events(&vec![modified("a"), modified("a"), deleted("b")], 1000);
    assert!(buffer.flush(2999).is_none());
    buffer.add_events(&vec![], 2500);
    buffer.add_events(&vec![modified("c")], 2900);
    assert!(buffer.flush(3000).is_none());
    let batch = buffer.flush(4900).unwrap();
    assert_eq!(batch.to_index, vec!["a", "c"]);
    assert_eq!(batch.to_remove, vec!["b"]);
    assert!(rebuilds_after_removals(&batch));
    assert!(buffer.flush(10_000).is_none());
}

#[test]
fn the_last_event_decides() {
    let mut buffer = EventBuffer::new(0);
    buffer.add_events(
        &vec![
            modified("a"),
            deleted("a"),
            deleted("b"),
            modified("b"),
            FileEvent::Renamed("c".to_string(), "d".to_string()),
            FileEvent::Renamed("e".to_string(), "e".to_string()),
        ],
        5,
    );
    assert!(!buffer.files_to_index.contains("a"));
    assert!(buffer.files_to_remove.contains("a"));
    assert!(buffer.files_to_index.contains("b"));
    assert!(!buffer.files_to_remove.contains("b"));
    assert!(buffer.files_to_remove.contains("c"));
    assert!(buffer.files_to_index.contains("d"));
    assert!(buffer.files_to_index.contains("e"));
    assert!(!buffer.files_to_remove.contains("e"));
    buffer.clear();
    assert!(buffer.files_to_index.is_empty());
    assert!(buffer.files_to_remove.is_empty());
}

#[test]
fn files_of_a_deleted_directory() {
    let known: Vec<String> =
        ["src/a.rs", "src/sub/b.rs", "srcx/c.rs", "src"].iter().map(|s| s.to_string()).collect();
    assert_eq!(files_under(&known, "src"), vec!["src/a.rs", "src/sub/b.rs"]);
    assert_eq!(files_under(&known, "src/"), vec!["src/a.rs", "src/sub/b.rs"]);
    assert_eq!(files_under(&known, r"src\sub"), vec!["src/sub/b.rs"]);
    let batch = Batch { to_index: vec!["x".to_string()], to_remove: vec![] };
    assert!(!rebuilds_after_removals(&batch));
}

#[test]
fn a_deleted_directory_takes_its_files_along() {
    let known = vec!["/p/src/a.rs".to_string(), "/p/srcs/b.rs".to_string()];
    assert_eq!(removed_files(&known, "/p/src"), vec!["/p/src", "/p/src/a.rs"]);
    assert_eq!(removed_files(&known, "/p/x.rs"), vec!["/p/x.rs"]);
}

#[test]
fn a_turn_of_the_watch() {
    let mut buffer = EventBuffer::new(0);
    let events = vec![FileEvent::Modified("a".to_string()), FileEvent::Deleted("b".to_string())];
    assert!(buffer.turn(false, &events, 100).is_none());
    assert!(buffer.turn(false, &vec![], 2000).is_none());
    let batch = buffer.turn(false, &vec![], 2100).unwrap();
    assert_eq!(batch.to_index, vec!["a"]);
    assert_eq!(batch.to_remove, vec!["b"]);
    assert!(buffer.turn(false, &vec![], 9000).is_none());
    assert!(buffer.turn(false, &events, 9000).is_none());
    let later = vec![FileEvent::Modified("c".to_string())];
    assert!(buffer.turn(true, &later, 10000).is_none());
    let batch = buffer.turn(false, &vec![], 12000).unwrap();
    assert_eq!(batch.to_index, vec!["c"]);
    assert!(batch.to_remove.is_empty());
}
