use codesearch::paths::AliasRoot;
use codesearch::pipeline::{
    fetches_literal, merge_store_fts, merge_store_results, page_of, raise_kind, raise_language,
    rank_hybrid, results_of, semantic_response, Found, HybridHits, LanguageBoost, RankSums,
    StoreFts, StoreResults,
};
use codesearch::query::ChunkKind;
use codesearch::routing::{routing_context, MultiStoreContext};
use codesearch::score::Score;
use codesearch::semantic::{boost, plan_semantic_search, SemanticPlan};
use codesearch::types::{Candidate, ChunkMeta, FtsResult, SearchResult, SemanticSearchRequest};

fn score(x: f32) -> Score {
    Score::from_bits(x.to_bits())
}

fn result(id: u32, path: &str, x: f32) -> SearchResult {
    SearchResult {
        id,
        content: format!("content {}", id),
        path: path.to_string(),
        start_line: 1,
        end_line: 2,
        kind: "Function".to_string(),
        signature: None,
        docstring: None,
        context: None,
        hash: String::new(),
        distance: score(0.0),
        score: score(x),
        context_prev: None,
        context_next: None,
    }
}

fn chunk(path: &str) -> ChunkMeta {
    ChunkMeta {
        content: "stored".to_string(),
        path: path.to_string(),
        start_line: 3,
        end_line: 4,
        kind: "Struct".to_string(),
        signature: None,
        docstring: None,
        context: None,
        hash: String::new(),
        context_prev: None,
        context_next: None,
        language: "Rust".to_string(),
    }
}

fn hit(chunk_id: u32, x: f32) -> FtsResult {
    FtsResult { chunk_id, score: score(x) }
}

fn plan(query: &str, mode: Option<&str>, limit: usize) -> SemanticPlan {
    plan_semantic_search(&SemanticSearchRequest {
        query: query.to_string(),
        limit: Some(limit),
        compact: None,
        filter_path: None,
        mode: mode.map(|m| m.to_string()),
        project: None,
        group: None,
    })
}

fn ids(results: &[SearchResult]) -> Vec<u32> {
    results.iter().map(|r| r.id).collect()
}

fn local() -> MultiStoreContext {
    routing_context(None, None)
}

fn group() -> MultiStoreContext {
    let mut context = routing_context(Some(vec!["app".to_string(), "app2".to_string()]), None);
    context.alias_roots = vec![
        AliasRoot { alias: "app".to_string(), root: "/w/app".to_string() },
        AliasRoot { alias: "app2".to_string(), root: "/w/app2".to_string() },
    ];
    context
}

fn hits() -> HybridHits {
    HybridHits {
        vector: vec![result(1, "/w/app/a.rs", 0.5), result(2, "/w/app2/b.py", 0.4)],
        fts: Some(vec![hit(3, 7.0), hit(2, 6.0)]),
        exact: vec![vec![hit(3, 9.0)], vec![hit(3, 8.0)]],
        looked_up: vec![Some(chunk("/w/app2/c.rs")), None, None],
    }
}

fn sums() -> RankSums {
    RankSums {
        scores: vec![score(0.1), score(0.2), score(0.3)],
        means: vec![score(0.0), score(0.0), score(8.0)],
    }
}

#[test]
fn constants_without_names() {
    assert_eq!(plan("how does it work", None, 10).fusion_constants(), (20, 20));
    assert_eq!(plan("where is FileWalker", None, 10).fusion_constants(), (12, 28));
    let mut odd = plan("how does it work", None, 10);
    odd.rrf_k = (15, 25);
    assert_eq!(odd.fusion_constants(), (15, 15));
}

#[test]
fn fused_hits_of_three_lists() {
    let entries = hits().entries();
    let named: Vec<u32> = entries.iter().map(|e| e.chunk_id).collect();
    assert_eq!(named, vec![1, 2, 3]);
    assert_eq!(entries[2].exact_score, Some(score(9.0)));
    let fused: Vec<u32> = rank_hybrid(&hits(), &sums()).iter().map(|f| f.chunk_id).collect();
    assert_eq!(fused, vec![3, 2, 1]);
    let shown: Vec<Option<Score>> =
        rank_hybrid(&hits(), &sums()).iter().map(|f| f.fts_score).collect();
    assert_eq!(shown, vec![Some(score(8.0)), Some(score(6.0)), None]);
}

#[test]
fn pages_of_one_and_of_several_repositories() {
    assert_eq!(ids(&page_of(&hits(), &sums(), 10, false)), vec![2, 1]);
    assert_eq!(ids(&page_of(&hits(), &sums(), 10, true)), vec![3, 2, 1]);
    assert_eq!(ids(&page_of(&hits(), &sums(), 1, true)), vec![3]);
    let mut bare = hits();
    bare.fts = None;
    let none = RankSums { scores: vec![], means: vec![] };
    assert_eq!(ids(&page_of(&bare, &none, 1, false)), vec![1]);
}

#[test]
fn raised_results() {
    let all = vec![result(1, "a.rs", 0.5), result(2, "b.py", 0.4), result(3, "c.rs", 0.3)];
    let raised = vec![score(0.6), score(0.55), score(0.36)];
    let boosted = boost(&all, &vec![false, true, true], &raised);
    assert_eq!(ids(&boosted), vec![2, 1, 3]);
    assert_eq!(boosted[1].score, score(0.5));
    assert_eq!(boosted[2].score, score(0.36));
    let language = Some(LanguageBoost {
        primary: "python".to_string(),
        languages: vec!["Rust".to_string(), "Python".to_string(), "Rust".to_string()],
        raised: vec![score(0.6), score(0.55), score(0.36)],
    });
    assert_eq!(ids(&raise_language(&all, &language, false)), vec![2, 1, 3]);
    assert_eq!(ids(&raise_language(&all, &language, true)), vec![1, 2, 3]);
    assert_eq!(ids(&raise_language(&all, &None, false)), vec![1, 2, 3]);
    assert_eq!(ids(&raise_kind(&all, Some(ChunkKind::Function), &raised)), vec![1, 2, 3]);
    assert_eq!(ids(&raise_kind(&all, None, &vec![])), vec![1, 2, 3]);
}

#[test]
fn a_hybrid_search_as_a_whole() {
    let plan = plan("where is FileWalker", None, 10);
    let found = || Found::Both {
        hits: hits(),
        sums: sums(),
        language: None,
        raised: vec![],
        literal: vec![
            Candidate { chunk_id: 2, score: score(5.0), chunks: vec![Some(chunk("/w/app2/b.py"))] },
            Candidate { chunk_id: 9, score: score(4.0), chunks: vec![Some(chunk("/w/app/d.rs"))] },
        ],
    };
    assert_eq!(ids(&results_of(found(), &plan, false)), vec![2, 1, 9]);
    assert_eq!(ids(&results_of(found(), &plan, true)), vec![3, 2, 1]);
    assert!(fetches_literal(2, &plan, false));
    assert!(!fetches_literal(2, &plan, true));
    let response = semantic_response(found(), &plan, &None, "/w/app", &local());
    let shown: Vec<&str> = response.results.iter().map(|r| r.path.as_str()).collect();
    assert_eq!(shown, vec!["/w/app2/b.py", "/w/app/a.rs", "/w/app/d.rs"]);
}

#[test]
fn a_search_of_a_group_shows_aliases() {
    let plan = plan("how does it work", None, 10);
    let found = Found::Both {
        hits: hits(),
        sums: sums(),
        language: None,
        raised: vec![],
        literal: vec![],
    };
    let response = semantic_response(found, &plan, &None, "/w/app", &group());
    let shown: Vec<&str> = response.results.iter().map(|r| r.path.as_str()).collect();
    assert_eq!(shown, vec!["app2/c.rs", "app2/b.py", "app/a.rs"]);
    assert_eq!(response.low_confidence, None);
}

#[test]
fn a_lexical_search_as_a_whole() {
    let plan = plan("how does it work", Some("lexical"), 2);
    let found = Found::Lexical {
        fts: vec![hit(1, 1.0), hit(2, 2.0)],
        exact: vec![vec![hit(4, 3.0)]],
        stored: vec![Some(chunk("a.rs")), Some(chunk("b.rs")), Some(chunk("c.rs"))],
        raised: vec![],
    };
    assert_eq!(ids(&results_of(found, &plan, false)), vec![4, 2]);
}

#[test]
fn a_vector_search_as_a_whole() {
    let plan = plan("how does it work", Some("semantic"), 1);
    let found = Found::Vectors { vector: vec![result(1, "a.rs", 0.5), result(2, "b.rs", 0.4)] };
    let results = results_of(found, &plan, false);
    assert_eq!(ids(&results), vec![1]);
    assert_eq!(results[0].score, score(0.5));
}

#[test]
fn the_root_of_the_project_is_made_normal() {
    let plan = plan("how does it work", Some("semantic"), 5);
    let found = Found::Vectors { vector: vec![result(1, "/p/src/a.rs", 0.5)] };
    let filter = Some("src/".to_string());
    let response = semantic_response(found, &plan, &filter, "/p/", &local());
    assert_eq!(response.results.len(), 1);
}

#[test]
fn answers_of_several_stores() {
    let stores = vec![
        StoreResults {
            alias: "app".to_string(),
            results: vec![result(1, "a.rs", 0.5), result(1, "a.rs", 0.6), result(2, "b.rs", 0.2)],
        },
        StoreResults { alias: "app2".to_string(), results: vec![result(1, "c.rs", 0.55)] },
    ];
    let merged = merge_store_results(&stores);
    let paths: Vec<&str> = merged.iter().map(|r| r.path.as_str()).collect();
    assert_eq!(paths, vec!["a.rs", "c.rs", "b.rs"]);
    assert_eq!(merged[0].score, score(0.6));
    let stores = vec![
        StoreFts { alias: "app".to_string(), hits: vec![hit(1, 1.0), hit(2, 3.0)] },
        StoreFts { alias: "app2".to_string(), hits: vec![hit(1, 2.0)] },
    ];
    assert_eq!(merge_store_fts(&stores), vec![hit(2, 3.0), hit(1, 2.0), hit(1, 1.0)]);
}
