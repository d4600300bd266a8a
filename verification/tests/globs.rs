use codesearch::glob::{simple_glob_match, simple_glob_match_single_star};

#[test]
fn test_simple_glob_match_exact() {
    assert!(simple_glob_match("src/main.rs", "src/main.rs"));
    assert!(!simple_glob_match("src/main.rs", "src/other.rs"));
}

#[test]
fn test_simple_glob_match_double_star_prefix() {
    assert!(simple_glob_match("src/mcp/**", "src/mcp/mod.rs"));
    assert!(simple_glob_match("src/mcp/**", "src/mcp/types.rs"));
    assert!(simple_glob_match(
        "src/mcp/**",
        "src/mcp/sub/deep.rs"
    ));
    assert!(!simple_glob_match("src/mcp/**", "src/other/mod.rs"));
}

#[test]
fn test_simple_glob_match_double_star_suffix() {
    assert!(simple_glob_match("**/*.rs", "src/main.rs"));
    assert!(simple_glob_match("**/*.rs", "deep/nested/file.rs"));
    assert!(!simple_glob_match("**/*.rs", "src/main.ts"));
}

#[test]
fn test_simple_glob_match_double_star_both() {
    assert!(simple_glob_match("src/**/*.rs", "src/main.rs"));
    assert!(simple_glob_match("src/**/*.rs", "src/mcp/mod.rs"));
    assert!(!simple_glob_match("src/**/*.rs", "tests/main.rs"));
    assert!(!simple_glob_match("src/**/*.rs", "src/main.ts"));
}

#[test]
fn test_simple_glob_match_single_star() {
    assert!(simple_glob_match("*.rs", "main.rs"));
    assert!(!simple_glob_match("*.rs", "main.ts"));
    assert!(simple_glob_match("src/*.rs", "src/main.rs"));
    assert!(!simple_glob_match("src/*.rs", "src/sub/main.rs"));
}

#[test]
fn test_simple_glob_match_backslash_normalization() {
    assert!(simple_glob_match("src/mcp/**", r"src\mcp\mod.rs"));
    assert!(simple_glob_match(r"src\mcp\**", "src/mcp/mod.rs"));
}

#[test]
fn test_glob_exact_match_no_star() {
    assert!(simple_glob_match("src/main.rs", "src/main.rs"));
    assert!(!simple_glob_match("src/main.rs", "src/other.rs"));
    assert!(!simple_glob_match("src/main.rs", "src/main.rs.bak"));
}

#[test]
fn test_glob_double_star_prefix_empty() {
    // ** at start matches any prefix
    assert!(simple_glob_match("**/test.rs", "test.rs"));
    assert!(simple_glob_match("**/test.rs", "src/test.rs"));
    assert!(simple_glob_match("**/test.rs", "a/b/c/test.rs"));
}

#[test]
fn test_glob_double_star_suffix_empty() {
    // ** at end matches any suffix
    assert!(simple_glob_match("src/**", "src/"));
    assert!(simple_glob_match("src/**", "src/foo"));
    assert!(simple_glob_match("src/**", "src/a/b/c"));
}

#[test]
fn test_glob_both_double_stars() {
    assert!(simple_glob_match("**/**", "anything"));
    assert!(simple_glob_match("**/**", "a/b/c"));
}

#[test]
fn test_glob_nested_double_star() {
    // src/**/*.rs — must have src/ prefix and .rs extension
    assert!(simple_glob_match("src/**/*.rs", "src/lib.rs"));
    assert!(simple_glob_match("src/**/*.rs", "src/mcp/mod.rs"));
    assert!(simple_glob_match("src/**/*.rs", "src/a/b/c/d.rs"));
    assert!(!simple_glob_match("src/**/*.rs", "test/lib.rs"));
    assert!(!simple_glob_match("src/**/*.rs", "src/lib.ts"));
}

#[test]
fn test_glob_single_star_multiple() {
    // Multiple single stars in pattern
    assert!(simple_glob_match("test_*.rs", "test_foo.rs"));
    assert!(!simple_glob_match("test_*.rs", "test_foo.ts"));
}

#[test]
fn test_glob_single_star_stays_in_segment() {
    // * should NOT cross /
    assert!(!simple_glob_match("*.rs", "src/main.rs"));
    assert!(!simple_glob_match("src/*.rs", "src/sub/main.rs"));
}

#[test]
fn test_glob_empty_pattern() {
    assert!(simple_glob_match("", ""));
    assert!(!simple_glob_match("", "foo.rs"));
}

#[test]
fn test_glob_trailing_slash_in_prefix() {
    // src/mcp/** with trailing slash in path
    assert!(simple_glob_match("src/mcp/**", "src/mcp/mod.rs"));
}

#[test]
fn test_glob_double_star_middle() {
    // Pattern: src/**/test.rs
    assert!(simple_glob_match("src/**/test.rs", "src/test.rs"));
    assert!(simple_glob_match("src/**/test.rs", "src/a/test.rs"));
    assert!(simple_glob_match(
        "src/**/test.rs",
        "src/a/b/c/test.rs"
    ));
    assert!(!simple_glob_match(
        "src/**/test.rs",
        "src/a/other.rs"
    ));
}

#[test]
fn one_star_stays_in_a_segment() {
    assert!(simple_glob_match_single_star("src/*.rs", "src/main.rs"));
    assert!(simple_glob_match_single_star("*/*_test.*", "a/b_test.py"));
    assert!(!simple_glob_match_single_star("src/*.rs", "src/a/main.rs"));
    assert!(!simple_glob_match_single_star("*.rs", "main.py"));
}
