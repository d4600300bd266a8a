use std::sync::Arc;

use codesearch::routing::decompose_routing_ctx;

fn shared(v: i32) -> Arc<i32> {
    Arc::new(v)
}

#[test]
fn test_routing_decomposition_none_input() {
    // No routing params → all None/false, needs_local_db = true
    let choice = decompose_routing_ctx::<i32>(None);
    let (stores, stores_vec, is_multi, needs_local_db) =
        (choice.stores, choice.stores_vec, choice.is_multi, choice.needs_local_db);
    assert!(stores.is_none(), "stores should be None");
    assert!(stores_vec.is_none(), "stores_vec should be None");
    assert!(!is_multi, "is_multi should be false");
    assert!(
        needs_local_db,
        "needs_local_db should be true — no serve-state stores"
    );
}

#[test]
fn test_routing_decomposition_single_store() {
    // One repo resolved → stores = Some, stores_vec = None, not multi
    let choice = decompose_routing_ctx(Some(vec![shared(1)]));
    let (stores, stores_vec, is_multi, needs_local_db) =
        (choice.stores, choice.stores_vec, choice.is_multi, choice.needs_local_db);
    assert!(stores.is_some(), "stores should be Some for single repo");
    assert!(
        stores_vec.is_none(),
        "stores_vec should be None for single repo"
    );
    assert!(!is_multi, "is_multi should be false for single repo");
    assert!(
        !needs_local_db,
        "needs_local_db should be false — we have a store"
    );
    assert_eq!(*stores.unwrap(), 1);
}

#[test]
fn test_routing_decomposition_two_stores() {
    // Group with 2 repos → stores = None, stores_vec = Some, is_multi = true
    let choice = decompose_routing_ctx(Some(vec![shared(1), shared(2)]));
    let (stores, stores_vec, is_multi, needs_local_db) =
        (choice.stores, choice.stores_vec, choice.is_multi, choice.needs_local_db);
    assert!(stores.is_none(), "stores should be None for multi-store");
    assert!(
        stores_vec.is_some(),
        "stores_vec should be Some for multi-store"
    );
    assert!(is_multi, "is_multi should be true for 2+ stores");
    assert!(
        !needs_local_db,
        "needs_local_db should be false — we have stores"
    );
    let sv = stores_vec.unwrap();
    assert_eq!(sv.len(), 2);
}

#[test]
fn test_routing_decomposition_three_stores() {
    // Group with 3 repos → same as 2 but verify vec length
    let choice = decompose_routing_ctx(Some(vec![shared(10), shared(20), shared(30)]));
    let (stores, stores_vec, is_multi, needs_local_db) =
        (choice.stores, choice.stores_vec, choice.is_multi, choice.needs_local_db);
    assert!(stores.is_none());
    assert!(stores_vec.is_some());
    assert!(is_multi);
    assert!(!needs_local_db);
    assert_eq!(stores_vec.unwrap().len(), 3);
}

#[test]
fn test_routing_decomposition_empty_vec() {
    // Empty vec (edge case — shouldn't happen but verify)
    let choice = decompose_routing_ctx::<i32>(Some(vec![]));
    let (stores, stores_vec, is_multi, needs_local_db) =
        (choice.stores, choice.stores_vec, choice.is_multi, choice.needs_local_db);
    // Empty vec: is_multi=false (len=0 not > 1), stores=None (len=0 not 1)
    assert!(stores.is_none(), "empty vec → stores None");
    assert!(
        stores_vec.is_none(),
        "empty vec → stores_vec None (is_multi=false)"
    );
    assert!(!is_multi, "empty vec → is_multi false");
    assert!(needs_local_db, "empty vec → needs_local_db true");
}

#[test]
fn test_routing_single_project_maps_to_single_store() {
    // A single project alias → vec of length 1 → single-store path
    let multi = Some(vec![shared(42)]);
    let choice = decompose_routing_ctx(multi);
    let (stores, stores_vec, is_multi, needs_local_db) =
        (choice.stores, choice.stores_vec, choice.is_multi, choice.needs_local_db);
    assert!(!is_multi);
    assert!(stores.is_some());
    assert_eq!(*stores.unwrap(), 42);
    assert!(stores_vec.is_none());
    assert!(!needs_local_db);
}

#[test]
fn test_routing_group_maps_to_multi_store() {
    // A group with 3 aliases → vec of length 3 → multi-store path
    let multi = Some(vec![shared(1), shared(2), shared(3)]);
    let choice = decompose_routing_ctx(multi);
    let (stores, stores_vec, is_multi, needs_local_db) =
        (choice.stores, choice.stores_vec, choice.is_multi, choice.needs_local_db);
    assert!(is_multi);
    assert!(stores.is_none(), "multi-store → no single override");
    assert_eq!(stores_vec.unwrap().len(), 3);
    assert!(!needs_local_db);
}
