use codesearch::query::{
    adapt_rrf_k, contains_identifier, detect_identifiers, detect_structural_intent, expand_query,
    kind_of_keyword, ChunkKind,
};
use codesearch::score::Score;
use codesearch::search::{
    apply_reranking, best_results, content_preview, content_snippet, counted_limit,
    filter_by_path, filter_report, final_results, fusion_constants, group_by_file, json_results,
    language_places,
    no_match_warning, output_form, result_files, retrieval_limit, score_color, search_way,
    select_results, skip_full_text, take_count, OutputForm, ScoreColor, SearchOptions, SearchWay,
};
use codesearch::semantic::{
    boost_kind_places, boost_language_places, build_semantic_response, fill_with_literal,
    first_results, lexical_hits, map_fused, needs_literal_fill, plan_semantic_search, rank_hits,
    rerank, resolve_fts_to_search_results, start_semantic_search, step_failure, SemanticMode,
    SemanticStart, SemanticStep,
};
use codesearch::fusion::{collect_exact, FusedResult};
use codesearch::types::{
    first_chunks, Candidate, ChunkMeta, FtsResult, SearchResult, SemanticSearchRequest,
};

fn score(x: f32) -> Score {
    Score::from_bits(x.to_bits())
}

fn value(s: Score) -> f32 {
    f32::from_bits(s.to_bits())
}

fn result(id: u32, path: &str, x: f32) -> SearchResult {
    SearchResult {
        id,
        content: format!("content {}", id),
        path: path.to_string(),
        start_line: 1,
        end_line: 2,
        kind: "Function".to_string(),
        signature: None,
        docstring: None,
        context: None,
        hash: String::new(),
        distance: score(0.0),
        score: score(x),
        context_prev: None,
        context_next: None,
    }
}

fn chunk(path: &str) -> ChunkMeta {
    ChunkMeta {
        content: "stored".to_string(),
        path: path.to_string(),
        start_line: 3,
        end_line: 4,
        kind: "Struct".to_string(),
        signature: None,
        docstring: None,
        context: None,
        hash: String::new(),
        context_prev: None,
        context_next: None,
        language: "Rust".to_string(),
    }
}

fn ids(results: &Vec<SearchResult>) -> Vec<u32> {
    results.iter().map(|r| r.id).collect()
}

#[test]
fn identifiers_in_queries() {
    assert_eq!(detect_identifiers("where is FileWalker used"), vec!["FileWalker"]);
    assert_eq!(detect_identifiers("call check_file or checkFile"), vec!["check_file", "checkFile"]);
    assert!(detect_identifiers("how does indexing work").is_empty());
    assert!(contains_identifier("the FileWalker"));
    assert!(!contains_identifier("plain words"));
}

#[test]
fn structural_intent() {
    assert_eq!(detect_structural_intent("struct FileWalker"), Some(ChunkKind::Struct));
    assert_eq!(detect_structural_intent("fn check_file"), Some(ChunkKind::Function));
    assert_eq!(detect_structural_intent("struct for results"), None);
    assert_eq!(detect_structural_intent("a quick brown fox"), None);
    assert_eq!(kind_of_keyword("trait walker"), Some(ChunkKind::Trait));
    assert_eq!(kind_of_keyword("fox"), None);
    assert_eq!(ChunkKind::Interface.name(), "Interface");
}

#[test]
fn constants_of_the_fusion() {
    assert_eq!(adapt_rrf_k("where is FileWalker"), (12, 28));
    assert_eq!(adapt_rrf_k("class FileWalker"), (12, 28));
    assert_eq!(adapt_rrf_k("how does it work"), (20, 20));
    assert_eq!(fusion_constants("how does it work", None), (20, 20));
    assert_eq!(fusion_constants("where is FileWalker", None), (12, 20));
    assert_eq!(fusion_constants("where is FileWalker", Some(5)), (5, 5));
}

#[test]
fn variants_of_a_query() {
    assert_eq!(expand_query("abc"), vec!["abc"]);
    assert_eq!(expand_query("authentication"), vec!["authentication", "auth"]);
    assert_eq!(
        expand_query("database"),
        vec!["database", "fn database", "database function"]
    );
    assert_eq!(
        expand_query("check_file"),
        vec![
            "check_file",
            "fn check_file",
            "async fn check_file",
            "pub fn check_file",
            "check_file method",
            "Function: check_file",
        ]
    );
    assert_eq!(
        expand_query("FileWalker"),
        vec![
            "FileWalker",
            "struct FileWalker",
            "impl FileWalker",
            "enum FileWalker",
            "class FileWalker",
            "Struct: FileWalker",
        ]
    );
    assert_eq!(
        expand_query("auth flow"),
        vec!["auth flow", "authentication flow"]
    );
    assert_eq!(expand_query("walker"), vec!["walker", "fn walker", "walker function"]);
    let long = "x".repeat(51);
    assert_eq!(expand_query(&long), vec![long.clone()]);
}

#[test]
fn whole_words_are_not_written_out() {
    for word in ["configuration", "connection", "error", "message"] {
        assert_eq!(
            expand_query(word),
            vec![word.to_string(), format!("fn {}", word), format!("{} function", word)]
        );
    }
    assert_eq!(
        expand_query("config error in conn"),
        vec!["config error in conn", "configuration error in conn", "config error in connection"]
    );
    assert_eq!(
        expand_query("auth and authentication"),
        vec!["auth and authentication", "authentication and authentication"]
    );
}

#[test]
fn how_much_is_fetched() {
    let mut options = SearchOptions::default();
    assert_eq!(retrieval_limit("how does it work", &options), 200);
    assert_eq!(retrieval_limit("where is FileWalker", &options), 100);
    options.max_results = 50;
    assert_eq!(retrieval_limit("how does it work", &options), 250);
    assert_eq!(retrieval_limit("where is FileWalker", &options), 150);
    options.vector_only = true;
    assert_eq!(retrieval_limit("where is FileWalker", &options), 50);
}

#[test]
fn a_limit_that_cannot_be_counted() {
    let mut options = SearchOptions::default();
    assert_eq!(counted_limit("how does it work", &options), Some(200));
    options.max_results = usize::MAX / 4;
    assert_eq!(counted_limit("how does it work", &options), None);
    assert_eq!(counted_limit("where is FileWalker", &options), Some(usize::MAX / 4 * 3));
    options.max_results = usize::MAX;
    assert_eq!(counted_limit("where is FileWalker", &options), None);
    options.vector_only = true;
    assert_eq!(counted_limit("where is FileWalker", &options), Some(usize::MAX));
}

#[test]
fn how_much_is_taken() {
    let mut options = SearchOptions::default();
    assert_eq!(take_count(&options, 100), 10);
    options.filter_path = Some("src".to_string());
    assert_eq!(take_count(&options, 100), 30);
    options.rerank = true;
    assert_eq!(take_count(&options, 100), 10);
    options.rerank_top = Some(40);
    assert_eq!(take_count(&options, 100), 40);
    assert_eq!(take_count(&options, 5), 5);
}

#[test]
fn the_best_of_all_variants() {
    let all = vec![
        result(1, "a.rs", 0.5),
        result(2, "b.rs", 0.9),
        result(1, "a.rs", 0.7),
        result(3, "c.rs", 0.1),
    ];
    let best = best_results(&all, 2);
    assert_eq!(ids(&best), vec![2, 1]);
    assert_eq!(value(best[1].score), 0.7);
}

#[test]
fn results_below_a_path() {
    let all = vec![
        result(1, "./src/a.rs", 0.5),
        result(2, "tests/b.rs", 0.9),
        result(3, "src/c.rs", 0.1),
    ];
    let filter = Some("src/".to_string());
    assert_eq!(ids(&filter_by_path(&all, &filter)), vec![1, 3]);
    assert_eq!(ids(&filter_by_path(&all, &None)), vec![1, 2, 3]);
    let mut options = SearchOptions::default();
    options.max_results = 1;
    options.filter_path = filter;
    assert_eq!(ids(&final_results(&all, &options)), vec![1]);
}

fn fused(chunk_id: u32, x: f32) -> FusedResult {
    FusedResult {
        chunk_id,
        rrf_score: score(x),
        vector_score: None,
        fts_score: None,
        vector_rank: None,
        fts_rank: None,
    }
}

#[test]
fn fused_hits_become_results() {
    let vector = vec![result(1, "a.rs", 0.5)];
    let hits = vec![fused(2, 0.09), fused(1, 0.08), fused(9, 0.07)];
    let looked_up = vec![Some(chunk("b.rs")), None, None];
    let out = map_fused(&hits, &vector, &looked_up, 10);
    assert_eq!(ids(&out), vec![2, 1]);
    assert_eq!(out[0].path, "b.rs");
    assert_eq!(value(out[0].score), 0.09);
    assert_eq!(value(out[1].score), 0.08);
    assert_eq!(ids(&map_fused(&hits, &vector, &vec![], 10)), vec![1]);
    assert!(map_fused(&hits, &vector, &vec![], 1).is_empty());
    let options = SearchOptions::default();
    assert_eq!(ids(&select_results(&hits, &vector, &looked_up, &options)), vec![2, 1]);
}

#[test]
fn reranking() {
    let all = vec![result(1, "a.rs", 0.5), result(2, "b.rs", 0.4)];
    let out = apply_reranking(&all, &vec![(1, score(0.9)), (0, score(0.2))]);
    assert_eq!(ids(&out), vec![2, 1]);
    assert_eq!(value(out[0].score), 0.9);
    let out = rerank(&all, &vec![score(0.1), score(0.6)]);
    assert_eq!(ids(&out), vec![2, 1]);
}

#[test]
fn files_of_results() {
    let all = vec![
        result(1, "a.rs", 0.9),
        result(2, "b.rs", 0.8),
        result(3, "a.rs", 0.7),
        result(4, "a.rs", 0.6),
    ];
    assert_eq!(result_files(&all), vec!["a.rs", "b.rs"]);
    let groups = group_by_file(&all, 2);
    assert_eq!(groups.len(), 2);
    assert_eq!(ids(&groups[0]), vec![1, 3]);
    assert_eq!(ids(&groups[1]), vec![2]);
}

#[test]
fn certain_results_need_no_full_text() {
    assert!(skip_full_text(&vec![], true));
    assert!(!skip_full_text(&vec![], false));
    let mut all: Vec<SearchResult> = (0..6).map(|i| result(i, "a.rs", 0.9)).collect();
    for r in all.iter_mut() {
        r.distance = score(0.1);
    }
    assert!(skip_full_text(&all, false));
    all[5].distance = score(0.5);
    assert!(skip_full_text(&all, false));
    all[4].distance = score(0.15);
    assert!(!skip_full_text(&all, false));
}

#[test]
fn colors_and_previews() {
    assert_eq!(score_color(score(0.81)), ScoreColor::Green);
    assert_eq!(score_color(score(0.8)), ScoreColor::Yellow);
    assert_eq!(score_color(score(0.6)), ScoreColor::Red);
    let (lines, more) = content_preview("a\nb\nc", 2);
    assert_eq!(lines, vec!["a", "b"]);
    assert!(more);
    let (lines, more) = content_preview("a\nb", 2);
    assert_eq!(lines.len(), 2);
    assert!(!more);
    assert_eq!(content_snippet("short"), "short");
    let cut = content_snippet(&"y".repeat(150));
    assert_eq!(cut, format!("{}...", "y".repeat(100)));
}

fn request(mode: Option<&str>) -> SemanticSearchRequest {
    SemanticSearchRequest {
        query: "where is FileWalker".to_string(),
        limit: None,
        compact: None,
        filter_path: None,
        mode: mode.map(|m| m.to_string()),
        project: None,
        group: None,
    }
}

#[test]
fn semantic_plans() {
    let plan = plan_semantic_search(&request(None));
    assert_eq!(plan.mode, SemanticMode::Hybrid);
    assert_eq!(plan.limit, 10);
    assert!(plan.compact);
    assert_eq!(plan.identifiers, vec!["FileWalker"]);
    assert_eq!(plan.fetch, 50);
    assert_eq!(plan.fetch_exact, 30);
    assert_eq!(plan_semantic_search(&request(Some("lexical"))).mode, SemanticMode::Lexical);
    assert_eq!(plan_semantic_search(&request(Some("semantic"))).mode, SemanticMode::VectorOnly);
}

#[test]
fn boosted_places() {
    let mut all = vec![result(1, "a.rs", 0.5), result(2, "b.rs", 0.4)];
    all[1].kind = "Struct".to_string();
    assert_eq!(boost_kind_places(&all, ChunkKind::Struct), vec![false, true]);
    let languages = vec!["Rust".to_string(), "PYTHON".to_string()];
    assert_eq!(boost_language_places(&languages, "python"), vec![false, true]);
}

#[test]
fn ranked_hits() {
    let hits = vec![
        FtsResult { chunk_id: 1, score: score(0.1) },
        FtsResult { chunk_id: 2, score: score(0.3) },
        FtsResult { chunk_id: 3, score: score(0.1) },
    ];
    let order: Vec<u32> = rank_hits(&hits).iter().map(|h| h.chunk_id).collect();
    assert_eq!(order, vec![2, 1, 3]);
}

fn candidate(chunk_id: u32, found: Option<ChunkMeta>) -> Candidate {
    Candidate { chunk_id, score: score(2.0), chunks: vec![found] }
}

#[test]
fn filling_up() {
    assert!(needs_literal_fill(2, true));
    assert!(!needs_literal_fill(3, true));
    assert!(!needs_literal_fill(0, false));
    let mut results = vec![result(1, "a.rs", 0.5)];
    let literal = vec![
        candidate(1, Some(chunk("a.rs"))),
        candidate(2, None),
        candidate(3, Some(chunk("c.rs"))),
        candidate(4, Some(chunk("d.rs"))),
    ];
    fill_with_literal(&mut results, &literal, 2);
    assert_eq!(ids(&results), vec![1, 3]);
    let hits: Vec<FtsResult> =
        literal.iter().map(|c| FtsResult { chunk_id: c.chunk_id, score: c.score }).collect();
    let stored = first_chunks(&literal);
    assert_eq!(ids(&resolve_fts_to_search_results(&hits, &stored, 3)), vec![1, 3]);
    assert_eq!(ids(&first_results(&results, 1)), vec![1]);
}

#[test]
fn semantic_responses() {
    let all = vec![result(1, "/p/src/a.rs", 0.5), result(2, "/p/docs/b.md", 0.4)];
    let r = build_semantic_response(&all, &Some("src/".to_string()), true, false, "/p", &None, &vec![]);
    assert_eq!(r.results.len(), 1);
    assert_eq!(r.results[0].chunk_id, 1);
    assert!(r.results[0].content.is_none());
    assert_eq!(r.low_confidence, None);
    let r = build_semantic_response(&vec![], &None, false, true, "/p", &None, &vec![]);
    assert_eq!(r.low_confidence, Some(true));
    assert_eq!(r.suggested_tool.as_deref(), Some("literal_search"));
}

#[test]
fn ways_of_a_search() {
    let mut options = SearchOptions::default();
    let mut far = vec![result(1, "a.rs", 0.5)];
    far[0].distance = score(0.5);
    let near = vec![result(1, "a.rs", 0.9)];
    assert!(matches!(
        search_way("how does it work", &near, &options, true),
        SearchWay::VectorOnly { index_missing: false }
    ));
    assert!(matches!(
        search_way("how does it work", &far, &options, false),
        SearchWay::VectorOnly { index_missing: true }
    ));
    match search_way("how does it work", &far, &options, true) {
        SearchWay::Hybrid { k } => assert_eq!(k, 20),
        _ => panic!("a query without names"),
    }
    match search_way("where is FileWalker", &far, &options, true) {
        SearchWay::WithExact { identifiers, vector_k, fts_k } => {
            assert_eq!(identifiers, vec!["FileWalker".to_string()]);
            assert_eq!((vector_k, fts_k), (12, 20));
        }
        _ => panic!("a query with a name"),
    }
    options.rrf_k = Some(7);
    match search_way("where is FileWalker", &far, &options, true) {
        SearchWay::WithExact { vector_k, fts_k, .. } => assert_eq!((vector_k, fts_k), (7, 7)),
        _ => panic!("a query with a name"),
    }
    options.vector_only = true;
    assert!(matches!(
        search_way("where is FileWalker", &far, &options, false),
        SearchWay::VectorOnly { index_missing: false }
    ));
}

#[test]
fn forms_of_output() {
    let mut options = SearchOptions::default();
    assert_eq!(output_form(&options), OutputForm::Text { per_file: None });
    options.per_file = Some(3);
    assert_eq!(output_form(&options), OutputForm::Text { per_file: Some(3) });
    options.per_file = Some(0);
    assert_eq!(output_form(&options), OutputForm::Text { per_file: None });
    options.per_file = Some(10);
    assert_eq!(output_form(&options), OutputForm::Text { per_file: None });
    options.compact = true;
    assert_eq!(output_form(&options), OutputForm::Compact);
    options.json = true;
    assert_eq!(output_form(&options), OutputForm::Json { per_file: None });
    options.per_file = Some(1);
    assert_eq!(output_form(&options), OutputForm::Json { per_file: Some(1) });
}

#[test]
fn names_without_a_match_are_listed() {
    assert_eq!(
        no_match_warning("where is FileWalker and read_all", 0).unwrap(),
        "❓ No exact matches found for identifiers: FileWalker, read_all"
    );
    assert_eq!(no_match_warning("where is FileWalker", 1), None);
    assert_eq!(no_match_warning("how does it work", 0), None);
}

#[test]
fn a_filter_is_reported() {
    assert_eq!(
        filter_report("./src/", 30, 12),
        "🔍 Path filter 'src/': 30 candidates → 12 results (18 filtered out)"
    );
    assert!(filter_report("src", 3, 5).ends_with("(0 filtered out)"));
}

#[test]
fn languages_by_their_exact_name() {
    let languages = vec!["Rust".to_string(), "rust".to_string()];
    assert_eq!(language_places(&languages, "Rust"), vec![true, false]);
}

#[test]
fn a_semantic_search_begins() {
    assert!(matches!(
        start_semantic_search(Some("no project".to_string()), false, SemanticMode::Hybrid),
        SemanticStart::Refused(e) if e == "no project"
    ));
    assert!(matches!(
        start_semantic_search(None, true, SemanticMode::Lexical),
        SemanticStart::FanOut
    ));
    assert!(matches!(
        start_semantic_search(None, false, SemanticMode::Lexical),
        SemanticStart::Lexical
    ));
    assert!(matches!(
        start_semantic_search(None, false, SemanticMode::VectorOnly),
        SemanticStart::Embed
    ));
}

#[test]
fn failures_of_a_semantic_search() {
    assert_eq!(
        step_failure(SemanticStep::LoadModel, "x"),
        "Error initializing embedding service: x"
    );
    assert_eq!(step_failure(SemanticStep::EmbedQuery, "x"), "Error embedding query: x");
    assert_eq!(step_failure(SemanticStep::SearchVectors, "x"), "Error searching vector store: x");
}

#[test]
fn lexical_hits_are_merged_and_ranked() {
    let hit = |chunk_id: u32, x: f32| FtsResult { chunk_id, score: score(x) };
    let hits = lexical_hits(
        vec![hit(1, 0.4), hit(2, 0.2)],
        vec![vec![hit(2, 0.9), hit(3, 0.3)], vec![hit(1, 0.1), hit(4, 0.5)]],
    );
    let order: Vec<(u32, f32)> = hits.iter().map(|h| (h.chunk_id, value(h.score))).collect();
    assert_eq!(order, vec![(2, 0.9), (4, 0.5), (1, 0.4), (3, 0.3)]);
}

#[test]
fn exact_hits_of_several_names() {
    let hit = |chunk_id: u32, x: f32| FtsResult { chunk_id, score: score(x) };
    let hits = collect_exact(&vec![
        vec![hit(5, 0.1), hit(6, 0.2)],
        vec![],
        vec![hit(6, 0.9), hit(7, 0.3)],
    ]);
    let order: Vec<(u32, f32)> = hits.iter().map(|h| (h.chunk_id, value(h.score))).collect();
    assert_eq!(order, vec![(5, 0.1), (6, 0.2), (7, 0.3)]);
}

#[test]
fn json_keeps_the_limit_of_a_file() {
    let all = vec![
        result(1, "a.rs", 0.9),
        result(2, "b.rs", 0.8),
        result(3, "a.rs", 0.7),
        result(4, "a.rs", 0.6),
        result(5, "b.rs", 0.5),
    ];
    assert_eq!(ids(&json_results(&all, Some(1))), vec![1, 2]);
    assert_eq!(ids(&json_results(&all, Some(2))), vec![1, 2, 3, 5]);
    assert_eq!(ids(&json_results(&all, None)), vec![1, 2, 3, 4, 5]);
    let groups: Vec<Vec<u32>> = group_by_file(&all, 1).iter().map(ids).collect();
    assert_eq!(groups, vec![vec![1], vec![2]]);
}
