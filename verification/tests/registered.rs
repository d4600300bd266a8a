use codesearch::lmdb_registry::{
    double_open_message, is_open, new_registry, next_stage, register, unregister, EnvEvent,
    EnvStage,
};

#[test]
fn test_registry_prevents_double_open() {
    let mut registry = new_registry();

    // First open should succeed
    assert!(register(&mut registry, "/data/a", "test-1", 1000).is_ok());

    // Second open on same path should fail
    let result = register(&mut registry, "/data/a", "test-2", 2500);
    assert!(result.is_err());
    let entry = result.unwrap_err();
    assert_eq!(entry.opened_at, 1000);
    let err = double_open_message("/data/a", &entry, "1.5");
    assert!(err.contains("double-open prevented"));
    assert!(err.contains("test-1"));
    assert_eq!(
        err,
        "LMDB double-open prevented: /data/a is already open (test-1, opened 1.5s ago)"
    );
}

#[test]
fn test_registry_allows_reopen_after_drop() {
    let mut registry = new_registry();
    assert!(register(&mut registry, "/data/a", "test-1", 1).is_ok());
    assert!(is_open(&registry, Some("/data/a")));
    unregister(&mut registry, "/data/a");
    assert!(!is_open(&registry, Some("/data/a")));
    assert!(register(&mut registry, "/data/a", "test-2", 2).is_ok());
}

#[test]
fn test_different_paths_both_allowed() {
    let mut registry = new_registry();
    assert!(register(&mut registry, "/data/a", "test-1", 1).is_ok());
    assert!(register(&mut registry, "/data/b", "test-2", 2).is_ok());
    assert!(is_open(&registry, Some("/data/a")));
    assert!(is_open(&registry, Some("/data/b")));
    assert!(!is_open(&registry, Some("/data/c")));
    assert!(!is_open(&registry, None));
}

#[test]
fn closing_comes_before_unregistering() {
    assert_eq!(next_stage(EnvStage::Free, EnvEvent::Registered), Some(EnvStage::Claimed));
    assert_eq!(next_stage(EnvStage::Claimed, EnvEvent::Opened), Some(EnvStage::Live));
    assert_eq!(next_stage(EnvStage::Live, EnvEvent::Unregistered), None);
    assert_eq!(next_stage(EnvStage::Live, EnvEvent::Closed), Some(EnvStage::Claimed));
    assert_eq!(next_stage(EnvStage::Claimed, EnvEvent::Unregistered), Some(EnvStage::Free));
    assert_eq!(next_stage(EnvStage::Free, EnvEvent::Opened), None);
}
