use codesearch::literal::{compute_literal_low_confidence, LITERAL_LOW_CONFIDENCE_BM25};
use codesearch::score::Score;
use codesearch::semantic::{compute_low_confidence, LOW_CONFIDENCE_THRESHOLD};

fn score(x: f32) -> Score {
    Score::from_bits(x.to_bits())
}

#[test]
fn test_low_confidence_below_threshold_with_identifiers() {
    let (lc, tool) = compute_low_confidence(Some(score(0.01)), true);
    assert_eq!(lc, Some(true));
    assert_eq!(tool.as_deref(), Some("find_definition"));
}

#[test]
fn test_low_confidence_below_threshold_without_identifiers() {
    let (lc, tool) = compute_low_confidence(Some(score(0.01)), false);
    assert_eq!(lc, Some(true));
    assert_eq!(tool.as_deref(), Some("literal_search"));
}

#[test]
fn test_low_confidence_above_threshold() {
    let (lc, tool) = compute_low_confidence(Some(score(0.5)), true);
    assert_eq!(lc, None);
    assert_eq!(tool, None);
}

#[test]
fn test_low_confidence_exactly_at_threshold() {
    // Exactly at threshold (0.02) should NOT be low confidence (< not <=)
    let (lc, tool) =
        compute_low_confidence(Some(Score::from_bits(LOW_CONFIDENCE_THRESHOLD)), false);
    assert_eq!(lc, None);
    assert_eq!(tool, None);
}

#[test]
fn test_low_confidence_no_results() {
    let (lc, tool) = compute_low_confidence(None, false);
    assert_eq!(lc, Some(true));
    assert_eq!(tool.as_deref(), Some("literal_search"));
}

#[test]
fn test_low_confidence_no_results_with_identifiers() {
    let (lc, tool) = compute_low_confidence(None, true);
    // Even with identifiers, no results → suggest literal_search
    assert_eq!(lc, Some(true));
    assert_eq!(tool.as_deref(), Some("literal_search"));
}

#[test]
fn test_literal_lc_natural_language_zero_results() {
    let (lc, hint) = compute_literal_low_confidence(None, "how do we handle auth");
    assert_eq!(lc, Some(true));
    assert!(hint.unwrap().contains("semantic"));
}

#[test]
fn test_literal_lc_identifier_zero_results() {
    let (lc, hint) = compute_literal_low_confidence(None, "CodesearchService");
    assert_eq!(lc, Some(true));
    assert!(hint.unwrap().contains("regex"));
}

#[test]
fn test_literal_lc_code_pattern_zero_results() {
    let (lc, hint) = compute_literal_low_confidence(None, "foo = null");
    assert_eq!(lc, Some(true));
    assert!(hint.unwrap().contains("regex"));
}

#[test]
fn test_literal_lc_natural_language_weak_score() {
    // Use a score demonstrably less than f32::MAX
    let weak_score = score(f32::from_bits(LITERAL_LOW_CONFIDENCE_BM25) / 2.0);
    let (lc, hint) =
        compute_literal_low_confidence(Some(weak_score), "how do we handle auth");
    assert_eq!(lc, Some(true));
    assert!(hint.unwrap().contains("semantic"));
}

#[test]
fn test_literal_lc_identifier_weak_score() {
    // Single-word identifiers with low BM25 score: trust the result.
    // BM25 IDF artefacts (e.g. `or` in a snake_case name) must not
    // cause false low_confidence signals when results exist.
    let weak_score = score(f32::from_bits(LITERAL_LOW_CONFIDENCE_BM25) / 2.0);
    let (lc, hint) =
        compute_literal_low_confidence(Some(weak_score), "CodesearchService");
    assert_eq!(
        lc, None,
        "single identifier with results must not be flagged low_confidence"
    );
    assert_eq!(hint, None);
}

#[test]
fn test_literal_lc_does_not_fire_on_strong_results() {
    // Strong BM25 score (well above floor) must NOT be flagged low_confidence.
    let (lc, hint) = compute_literal_low_confidence(Some(score(41.5)), "anything");
    assert_eq!(
        lc, None,
        "strong BM25 results must not be flagged low_confidence"
    );
    assert_eq!(hint, None);
}

#[test]
fn test_literal_lc_fires_on_weak_results() {
    // Multi-word queries (not single identifiers) still fire low_confidence
    // when the BM25 score is below the floor.
    let (lc, hint) = compute_literal_low_confidence(
        Some(score(f32::from_bits(LITERAL_LOW_CONFIDENCE_BM25) - 0.5)),
        "how do we handle authentication", // multi-word natural language
    );
    assert_eq!(lc, Some(true));
    assert!(hint.is_some());
}

#[test]
fn test_literal_lc_threshold_boundary_uses_strict_less_than() {
    // Score EXACTLY at the threshold should NOT fire (< not <=).
    let (lc, hint) = compute_literal_low_confidence(
        Some(Score::from_bits(LITERAL_LOW_CONFIDENCE_BM25)),
        "anything",
    );
    assert_eq!(lc, None);
    assert_eq!(hint, None);
}

#[test]
fn test_literal_lc_high_score_returns_none() {
    let (lc, hint) = compute_literal_low_confidence(Some(score(50.0)), "anything");
    assert_eq!(lc, None);
    assert_eq!(hint, None);
}
