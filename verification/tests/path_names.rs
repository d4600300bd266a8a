use codesearch::paths::{
    normalize_filter_path, normalize_path_str, path_matches_filter, prefix_path_with_alias,
};

#[test]
fn test_mcp_filter_matches_absolute_path_under_project_root() {
    let project_root = normalize_path_str(r"C:\WorkArea\AI\codesearch");
    let filter = normalize_filter_path("src/");
    assert!(path_matches_filter(
        r"\\?\C:\WorkArea\AI\codesearch\src\mcp\mod.rs",
        &filter,
        &project_root,
    ));
}

#[test]
fn test_mcp_filter_rejects_non_matching_path_under_project_root() {
    let project_root = normalize_path_str(r"C:\WorkArea\AI\codesearch");
    let filter = normalize_filter_path("src/");
    assert!(!path_matches_filter(
        r"C:\WorkArea\AI\codesearch\README.md",
        &filter,
        &project_root,
    ));
}

#[test]
fn test_path_prefix_windows_backslashes() {
    let result =
        prefix_path_with_alias(r"C:\repo\src\main.rs", Some("myrepo"), r"C:\repo");
    assert_eq!(result, "myrepo/src/main.rs");
}

#[test]
fn test_path_prefix_unc_prefix() {
    let result =
        prefix_path_with_alias(r"\\?\C:\repo\src\main.rs", Some("myrepo"), r"C:\repo");
    // After normalization, UNC prefix is stripped by normalize_path_str
    assert!(
        result.starts_with("myrepo/"),
        "Expected alias prefix, got: {}",
        result
    );
    assert!(
        result.contains("main.rs"),
        "Expected filename in result, got: {}",
        result
    );
}

#[test]
fn test_path_prefix_mixed_separators() {
    let result =
        prefix_path_with_alias(r"C:\repo/src\main.rs", Some("myrepo"), r"C:\repo");
    assert_eq!(result, "myrepo/src/main.rs");
}

#[test]
fn test_path_prefix_no_alias() {
    let result = prefix_path_with_alias("C:/repo/src/main.rs", None, "C:/repo");
    assert_eq!(result, "src/main.rs");
}

#[test]
fn test_path_prefix_empty_alias() {
    let result = prefix_path_with_alias("C:/repo/src/main.rs", Some(""), "C:/repo");
    assert_eq!(result, "src/main.rs");
}

#[test]
fn test_path_prefix_preserves_path_outside_root() {
    let result =
        prefix_path_with_alias("C:/other/src/main.rs", Some("myrepo"), "C:/repo");
    // Path doesn't start with root — returned normalized, no alias prefix
    assert_eq!(result, "C:/other/src/main.rs");
}

#[test]
fn test_group_results_are_alias_prefixed() {
    // Simulate two stores for aliases "a" and "b", each returning a result
    // with absolute path = "/abs/root/src/main.rs". After applying prefix_path_with_alias,
    // assert results have path = "a/src/main.rs" and "b/src/main.rs".
    let result_a =
        prefix_path_with_alias("/abs/root/src/main.rs", Some("a"), "/abs/root");
    let result_b =
        prefix_path_with_alias("/abs/root/src/main.rs", Some("b"), "/abs/root");
    assert_eq!(result_a, "a/src/main.rs");
    assert_eq!(result_b, "b/src/main.rs");
}

#[test]
fn test_single_project_result_is_alias_prefixed() {
    // Single store for alias "myrepo", result with path = "/abs/root/src/lib.rs",
    // project root "/abs/root" → assert path becomes "myrepo/src/lib.rs".
    let result =
        prefix_path_with_alias("/abs/root/src/lib.rs", Some("myrepo"), "/abs/root");
    assert_eq!(result, "myrepo/src/lib.rs");
}

#[test]
fn test_stdio_mode_paths_not_prefixed() {
    // alias None → path normalized, no prefix added.
    let result = prefix_path_with_alias("C:/repo/src/main.rs", None, "C:/repo");
    assert_eq!(result, "src/main.rs");
}
