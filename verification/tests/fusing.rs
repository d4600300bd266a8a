use codesearch::fusion::{
    combined_score, fuse_ranks, merge_exact_into_fts, merge_store_hits, rank_fused, vector_hits, vector_only,
    FusedResult, Source, StoreHit,
};
use codesearch::score::Score;
use codesearch::types::{FtsResult, SearchResult};

fn score(x: f32) -> Score {
    Score::from_bits(x.to_bits())
}

fn value(s: Score) -> f32 {
    f32::from_bits(s.to_bits())
}

#[test]
fn test_merge_exact_empty_base() {
    let mut fts: Vec<FtsResult> = vec![];
    let exact = vec![
        FtsResult {
            chunk_id: 1,
            score: score(0.5),
        },
        FtsResult {
            chunk_id: 2,
            score: score(0.3),
        },
    ];
    merge_exact_into_fts(&mut fts, exact);
    assert_eq!(fts.len(), 2);
    assert_eq!(fts[0].chunk_id, 1);
    assert_eq!(fts[1].chunk_id, 2);
}

#[test]
fn test_merge_exact_dedupe_keeps_max_score() {
    let mut fts = vec![
        FtsResult {
            chunk_id: 1,
            score: score(0.8),
        },
        FtsResult {
            chunk_id: 2,
            score: score(0.3),
        },
    ];
    let exact = vec![
        FtsResult {
            chunk_id: 1,
            score: score(0.5),
        }, // lower score → keep 0.8
        FtsResult {
            chunk_id: 2,
            score: score(0.9),
        }, // higher score → upgrade to 0.9
    ];
    merge_exact_into_fts(&mut fts, exact);
    assert_eq!(fts.len(), 2);
    assert!((value(fts[0].score) - 0.8).abs() < 0.001);
    assert!((value(fts[1].score) - 0.9).abs() < 0.001);
}

#[test]
fn test_merge_exact_adds_new_chunks() {
    let mut fts = vec![FtsResult {
        chunk_id: 1,
        score: score(0.5),
    }];
    let exact = vec![
        FtsResult {
            chunk_id: 2,
            score: score(0.7),
        },
        FtsResult {
            chunk_id: 3,
            score: score(0.4),
        },
    ];
    merge_exact_into_fts(&mut fts, exact);
    assert_eq!(fts.len(), 3);
    assert_eq!(fts[1].chunk_id, 2);
    assert_eq!(fts[2].chunk_id, 3);
}

#[test]
fn test_merge_exact_empty_exact() {
    let mut fts = vec![FtsResult {
        chunk_id: 1,
        score: score(0.5),
    }];
    merge_exact_into_fts(&mut fts, vec![]);
    assert_eq!(fts.len(), 1);
}

#[test]
fn test_merge_exact_multiple_hits_same_chunk() {
    // Multiple exact results for the same chunk should still dedupe
    let mut fts = vec![];
    let exact = vec![
        FtsResult {
            chunk_id: 1,
            score: score(0.3),
        },
        FtsResult {
            chunk_id: 1,
            score: score(0.7),
        },
    ];
    merge_exact_into_fts(&mut fts, exact);
    assert_eq!(fts.len(), 1);
    // First is added (0.3), second dedupes and upgrades to 0.7
    assert!((value(fts[0].score) - 0.7).abs() < 0.001);
}

#[test]
fn test_merge_exact_cross_store_dedup() {
    // Full-text results from several stores, with overlapping chunk ids
    let mut base: Vec<FtsResult> = vec![
        FtsResult {
            chunk_id: 1,
            score: score(0.5),
        },
        FtsResult {
            chunk_id: 2,
            score: score(0.8),
        },
    ];
    let exact = vec![
        FtsResult {
            chunk_id: 1,
            score: score(0.9),
        }, // higher score
        FtsResult {
            chunk_id: 3,
            score: score(0.7),
        }, // new chunk
    ];

    merge_exact_into_fts(&mut base, exact);

    assert_eq!(base.len(), 3, "should have 3 unique chunks");
    let chunk1 = base.iter().find(|r| r.chunk_id == 1).unwrap();
    assert!(
        (value(chunk1.score) - 0.9).abs() < f32::EPSILON,
        "chunk 1 should have max score 0.9, got {}",
        value(chunk1.score)
    );
}

fn fts(chunk_id: u32, x: f32) -> FtsResult {
    FtsResult { chunk_id, score: score(x) }
}

fn vector(id: u32, x: f32) -> SearchResult {
    SearchResult {
        id,
        score: score(x),
        path: format!("file{}.rs", id),
        content: format!("content {}", id),
        start_line: 1,
        end_line: 10,
        kind: "function".to_string(),
        signature: None,
        context_prev: None,
        context_next: None,
        distance: score(0.0),
        context: None,
        docstring: None,
        hash: String::new(),
    }
}

fn rrf_fusion(vectors: &Vec<SearchResult>, texts: &Vec<FtsResult>, k: f32) -> Vec<FusedResult> {
    let entries = fuse_ranks(&vector_hits(vectors), texts, &vec![]);
    let scores = entries
        .iter()
        .map(|e| score(e.contributions.iter().map(|c| 1.0 / (k + c.rank as f32)).sum()))
        .collect();
    let means = entries.iter().map(|_| score(0.0)).collect();
    rank_fused(&entries, &scores, &means)
}

#[test]
fn text_scores_are_combined() {
    let (f, e, m) = (score(4.0), score(2.0), score(3.0));
    assert_eq!(combined_score(Some(f), Some(e), m), Some(m));
    assert_eq!(combined_score(Some(f), None, m), Some(f));
    assert_eq!(combined_score(None, Some(e), m), Some(e));
    assert_eq!(combined_score(None, None, m), None);
}

#[test]
fn test_rrf_fusion_basic() {
    let vector_results = vec![vector(1, 0.9), vector(2, 0.8), vector(3, 0.7)];

    let fts_results = vec![
        fts(2, 10.0), // ID 2 is top in FTS
        fts(1, 8.0),
        fts(4, 6.0), // ID 4 only in FTS
    ];

    let fused = rrf_fusion(&vector_results, &fts_results, 20.0);

    // ID 2 should be top (rank 1 in FTS, rank 2 in vector)
    // ID 1 should be second (rank 1 in vector, rank 2 in FTS)
    assert!(!fused.is_empty());

    // Find IDs 1 and 2
    let id1 = fused.iter().find(|r| r.chunk_id == 1).unwrap();
    let id2 = fused.iter().find(|r| r.chunk_id == 2).unwrap();

    // Both should have contributions from both sources
    assert!(id1.vector_rank.is_some());
    assert!(id1.fts_rank.is_some());
    assert!(id2.vector_rank.is_some());
    assert!(id2.fts_rank.is_some());

    // ID 4 should only be in FTS
    let id4 = fused.iter().find(|r| r.chunk_id == 4).unwrap();
    assert!(id4.vector_rank.is_none());
    assert!(id4.fts_rank.is_some());
}

#[test]
fn test_rrf_score_calculation() {
    // With k=20:
    // Rank 1: 1/(20+1) = 0.0476
    // Rank 2: 1/(20+2) = 0.0454
    let vector_results = vec![vector(1, 0.9)];
    let fts_results = vec![fts(1, 10.0)];

    let fused = rrf_fusion(&vector_results, &fts_results, 20.0);

    assert_eq!(fused.len(), 1);
    let result = &fused[0];

    // Should be sum of both contributions
    let expected = 1.0 / 21.0 + 1.0 / 21.0;
    assert!((value(result.rrf_score) - expected).abs() < 0.0001);
}

#[test]
fn test_vector_only() {
    let vector_results = vec![vector(1, 0.9), vector(2, 0.8)];

    let results = vector_only(&vector_results);

    assert_eq!(results.len(), 2);
    assert_eq!(results[0].chunk_id, 1);
    assert_eq!(value(results[0].rrf_score), 0.9);
    assert!(results[0].fts_score.is_none());
}

#[test]
fn test_has_chunk_id_and_score_fts_result() {
    let result = fts(42, 0.85);
    assert_eq!(result.chunk_id(), 42);
    assert!((value(result.score()) - 0.85).abs() < f32::EPSILON);
}

#[test]
fn test_has_chunk_id_and_score_search_result() {
    let result = vector(99, 0.75);
    assert_eq!(result.chunk_id(), 99);
    assert!((value(result.score()) - 0.75).abs() < f32::EPSILON);
}

fn hit(alias: &str, chunk_id: u32, x: f32) -> StoreHit {
    StoreHit { alias: alias.to_string(), chunk_id, score: score(x) }
}

#[test]
fn test_multi_store_dedup_keeps_highest_score() {
    let hits = vec![
        hit("repo_a", 1, 0.5),
        hit("repo_a", 2, 0.8),
        hit("repo_a", 3, 0.3),
        hit("repo_b", 1, 0.9), // same chunk_id, different alias — NOT a dup
        hit("repo_b", 4, 0.7),
        hit("repo_b", 2, 0.4), // same chunk_id, different alias — NOT a dup
        hit("repo_c", 3, 0.6), // same chunk_id, different alias — NOT a dup
        hit("repo_c", 5, 0.2),
    ];
    let order = merge_store_hits(&hits);
    assert_eq!(order.len(), 8, "Should have 8 unique (alias, chunk_id) pairs across 3 repos");
    assert!(
        (value(hits[order[0]].score) - 0.9).abs() < f32::EPSILON,
        "First result should have highest score"
    );
    for i in 1..order.len() {
        assert!(
            value(hits[order[i]].score) <= value(hits[order[i - 1]].score),
            "Results should be sorted by score descending"
        );
    }
}

#[test]
fn test_multi_store_dedup_no_overlap() {
    let hits = vec![hit("a", 1, 0.5), hit("a", 2, 0.8), hit("a", 3, 0.3)];
    let order = merge_store_hits(&hits);
    assert_eq!(order.len(), 3, "All 3 non-overlapping results should be kept");
}

#[test]
fn test_multi_store_dedup_all_same_ids() {
    let hits = vec![hit("a", 1, 0.3), hit("a", 1, 0.9), hit("a", 1, 0.6)];
    let order = merge_store_hits(&hits);
    assert_eq!(order.len(), 1, "Should deduplicate to 1 result");
    assert!(
        (value(hits[order[0]].score) - 0.9).abs() < f32::EPSILON,
        "Should keep highest score 0.9, got {}",
        value(hits[order[0]].score)
    );
}

#[test]
fn test_dedup_key_includes_alias() {
    let hits = vec![hit("a", 1, 0.5), hit("b", 1, 0.5)];
    let order = merge_store_hits(&hits);
    assert_eq!(order.len(), 2);
    assert!(order.contains(&0));
    assert!(order.contains(&1));
}

#[test]
fn every_list_gives_one_summand() {
    let entries = fuse_ranks(&vec![fts(7, 0.5)], &vec![fts(9, 2.0), fts(7, 1.0)], &vec![fts(7, 3.0)]);
    assert_eq!(entries.len(), 2);
    assert_eq!(entries[0].chunk_id, 7);
    let summands: Vec<(Source, usize)> =
        entries[0].contributions.iter().map(|c| (c.source, c.rank)).collect();
    assert_eq!(summands, vec![(Source::Vector, 1), (Source::Fts, 2), (Source::Exact, 1)]);
    assert_eq!(entries[1].chunk_id, 9);
    assert_eq!(entries[1].contributions.len(), 1);
}
