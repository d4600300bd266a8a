use codesearch::pattern::{
    looks_like_code_pattern, regex_has_anchorable_token, regex_has_disjunctive_or,
};

#[test]
fn test_regex_has_anchorable_token_plain_identifier() {
    assert!(regex_has_anchorable_token("match_line_for_literal"));
}

#[test]
fn test_regex_has_anchorable_token_generic_with_word() {
    assert!(regex_has_anchorable_token("Vec<.*>"));
    assert!(regex_has_anchorable_token("HashMap::new"));
}

#[test]
fn test_regex_has_anchorable_token_short_word_below_threshold() {
    // "fn" alone is only 2 chars — not enough.
    assert!(!regex_has_anchorable_token("fn"));
    assert!(regex_has_anchorable_token("fnx")); // 3 chars triggers
}

#[test]
fn test_regex_has_anchorable_token_word_boundary_pattern() {
    assert!(!regex_has_anchorable_token(r"\bfn\s+\w+"));
    assert!(!regex_has_anchorable_token(r"\bimpl\s+"));
}

#[test]
fn test_regex_has_anchorable_token_method_call_pattern() {
    assert!(!regex_has_anchorable_token(r"\.\w+\(\)"));
}

#[test]
fn test_regex_has_anchorable_token_character_classes_dont_count() {
    // [A-Z] and [a-z] inside brackets must NOT be counted as runs.
    assert!(!regex_has_anchorable_token(r"[A-Z]+_[A-Z]+"));
    assert!(!regex_has_anchorable_token(r"^[A-Z]\w+"));
}

#[test]
fn test_regex_has_anchorable_token_empty() {
    assert!(!regex_has_anchorable_token(""));
}

#[test]
fn test_regex_has_anchorable_token_pure_punctuation() {
    assert!(!regex_has_anchorable_token(r"->"));
    assert!(!regex_has_anchorable_token(r"::"));
}

#[test]
fn test_regex_anchorable_queries_detected_correctly() {
    // Queries with ≥3 alphanumeric runs → anchorable → BM25 path
    assert!(regex_has_anchorable_token("match_line_for_literal"));
    assert!(regex_has_anchorable_token("HashMap::new"));
    assert!(regex_has_anchorable_token("Vec<.*>"));
    assert!(regex_has_anchorable_token("fnx"));
}

#[test]
fn test_regex_tokenless_queries_detected_correctly() {
    // Tokenless regex patterns → not anchorable → scan path
    assert!(!regex_has_anchorable_token(r"\bfn\s+\w+"));
    assert!(!regex_has_anchorable_token(r"\bimpl\s+"));
    assert!(!regex_has_anchorable_token(r"\.\w+\(\)"));
    assert!(!regex_has_anchorable_token(r"[A-Z]+_[A-Z]+"));
    assert!(!regex_has_anchorable_token(r"^[A-Z]\w+"));
}

#[test]
fn test_regex_has_anchorable_token_trailing_word_boundary() {
    assert!(!regex_has_anchorable_token(r"impl\b"));
    assert!(!regex_has_anchorable_token(r"Result\b"));
    assert!(!regex_has_anchorable_token(r"match\b"));
}

#[test]
fn test_regex_has_anchorable_token_trailing_class() {
    assert!(!regex_has_anchorable_token(r"impl[A-Z]"));
    assert!(!regex_has_anchorable_token(r"foo[abc]+"));
}

#[test]
fn test_regex_has_anchorable_token_trailing_escape_with_clean_run_after() {
    // After the merged trailing escape, if there's a clean run later, that
    // later run can still anchor.
    assert!(regex_has_anchorable_token(r"impl\b\s+function_name"));
    //                                              ^^^^^^^^^^^^^ anchorable
}

#[test]
fn test_regex_has_anchorable_token_trailing_escape_at_end_only() {
    // Run, then escape, then EOF — not anchorable.
    assert!(!regex_has_anchorable_token(r"impl\s"));
}

#[test]
fn test_regex_has_anchorable_token_both_sides_escaped() {
    // \bimpl\b — leading escape already disqualifies "impl"; trailing
    // doesn't change the answer.
    assert!(!regex_has_anchorable_token(r"\bimpl\b"));
}

#[test]
fn test_disjunctive_or_simple_alternation() {
    assert!(regex_has_disjunctive_or("TODO|FIXME|HACK"));
}

#[test]
fn test_disjunctive_or_two_alternatives() {
    assert!(regex_has_disjunctive_or("foo|bar"));
}

#[test]
fn test_disjunctive_or_pipe_inside_group_not_counted() {
    // (foo|bar) is inside parens — not top-level
    assert!(!regex_has_disjunctive_or("(foo|bar)"));
}

#[test]
fn test_disjunctive_or_pipe_inside_bracket_not_counted() {
    // [|] is inside character class
    assert!(!regex_has_disjunctive_or("[a|b]"));
}

#[test]
fn test_disjunctive_or_escaped_pipe_not_counted() {
    assert!(!regex_has_disjunctive_or(r"foo\|bar"));
}

#[test]
fn test_disjunctive_or_no_pipe() {
    assert!(!regex_has_disjunctive_or("TODO"));
}

#[test]
fn test_disjunctive_or_mixed_top_level_and_group() {
    // foo|(bar|baz) — the first | is top-level
    assert!(regex_has_disjunctive_or("foo|(bar|baz)"));
}

#[test]
fn test_disjunctive_or_nested_groups() {
    // ((a|b)) — pipe inside double parens
    assert!(!regex_has_disjunctive_or("((a|b))"));
}

#[test]
fn test_disjunctive_or_mixed_top_level_and_bracket() {
    // [a-z]|foo — pipe after bracket is top-level
    assert!(regex_has_disjunctive_or("[a-z]|foo"));
}

#[test]
fn test_looks_like_code_pattern_assignment() {
    assert!(looks_like_code_pattern("foo = null"));
    assert!(looks_like_code_pattern("x = 42"));
}

#[test]
fn test_looks_like_code_pattern_arrow() {
    assert!(looks_like_code_pattern("foo->bar"));
    assert!(looks_like_code_pattern("x => y"));
}

#[test]
fn test_looks_like_code_pattern_namespace() {
    assert!(looks_like_code_pattern("std::string"));
    assert!(looks_like_code_pattern("a::b::c"));
}

#[test]
fn test_looks_like_code_pattern_generics() {
    assert!(looks_like_code_pattern("Vec<T>"));
    assert!(looks_like_code_pattern("HashMap<K, V>"));
}

#[test]
fn test_looks_like_code_pattern_statement_end() {
    assert!(looks_like_code_pattern("return x;"));
    assert!(looks_like_code_pattern("if (x) {"));
}

#[test]
fn test_looks_like_code_pattern_plain_identifier_false() {
    assert!(!looks_like_code_pattern(
        "ActivitiesListModelResponse"
    ));
    assert!(!looks_like_code_pattern("foo_bar"));
}

#[test]
fn test_looks_like_code_pattern_dotted_path_false() {
    assert!(!looks_like_code_pattern("foo.bar"));
    assert!(!looks_like_code_pattern("System.Console"));
}

#[test]
fn test_looks_like_code_pattern_empty_false() {
    assert!(!looks_like_code_pattern(""));
}

#[test]
fn test_auto_promoted_skipped_when_user_sets_regex() {
    let user_set_regex = true;
    let user_set_phrase = false;
    let auto_promoted =
        !user_set_regex && !user_set_phrase && looks_like_code_pattern("foo = null");
    assert!(!auto_promoted);
}

#[test]
fn test_auto_promoted_skipped_when_user_sets_phrase() {
    let user_set_regex = false;
    let user_set_phrase = true;
    let auto_promoted =
        !user_set_regex && !user_set_phrase && looks_like_code_pattern("foo = null");
    assert!(!auto_promoted);
}
