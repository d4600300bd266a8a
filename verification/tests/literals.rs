use codesearch::literal::{
    filter_of, format_grep, literal_search, match_line_for_literal, plan_literal_search,
    promote_query, truncate_line_around_match, Fetched, LiteralReply,
};
use codesearch::routing::MultiStoreContext;
use codesearch::score::Score;
use codesearch::types::{
    Candidate, ChunkMeta, LiteralSearchRequest, LiteralSearchResponse, LiteralSearchResultItem,
};

#[test]
fn test_match_line_for_literal_plain_and_fallback() {
    let content = "first line\nsecond has needle\nthird";
    let matched = match_line_for_literal(content, "needle", None);
    assert!(matched.is_some());
    let (offset, snippet) = matched.unwrap();
    assert_eq!(offset, 1);
    assert!(snippet.contains("needle"));

    let not_found = match_line_for_literal(content, "absent", None);
    assert!(not_found.is_none());
}

#[test]
fn test_match_line_for_literal_regex() {
    let content = "alpha\nbeta123\ngamma";
    let re = regex::Regex::new(r"beta\d+").unwrap();
    let matched = match_line_for_literal(content, "beta", Some(&re));
    assert!(matched.is_some());
    let (offset, snippet) = matched.unwrap();
    assert_eq!(offset, 1);
    assert!(snippet.contains("beta123"));
}

#[test]
fn test_regex_no_match_match_line_returns_none() {
    // match_line_for_literal returns None for patterns that don't match
    let regex = regex::Regex::new(r"\bfn\s+\w+").unwrap();
    let content = "struct Foo { x: i32 }\nimpl Foo { fn bar() {} }";
    // This content DOES match — fn bar() matches \bfn\s+\w+
    assert!(match_line_for_literal(content, r"\bfn\s+\w+", Some(&regex)).is_some());

    // This content does NOT match the regex
    let regex2 = regex::Regex::new(r"zzz_definitely_not_in_code").unwrap();
    let content2 = "fn foo() {}\nfn bar() {}";
    assert!(match_line_for_literal(
        content2,
        "zzz_definitely_not_in_code",
        Some(&regex2)
    )
    .is_none());

    // Non-anchorable regex with no matches → empty (scan path would skip)
    let regex3 = regex::Regex::new(r"\bimpl\s+\w+\s+for\s+\w+").unwrap();
    let content3 = "fn simple() {}\nstruct Foo;";
    assert!(match_line_for_literal(
        content3,
        r"\bimpl\s+\w+\s+for\s+\w+",
        Some(&regex3)
    )
    .is_none());
}

#[test]
fn test_auto_promotion_escapes_and_relaxes_spaces() {
    let query = "foo = null";
    assert_eq!(promote_query(query), r"foo\s+=\s+null");
}

fn item(x: f32) -> LiteralSearchResultItem {
    LiteralSearchResultItem {
        path: "test.rs".to_string(),
        start_line: 1,
        end_line: 1,
        snippet: "fn test()".to_string(),
        score: Score::from_bits(x.to_bits()),
        kind: None,
        signature: None,
    }
}

#[test]
fn test_grep_format_includes_comment_when_promoted() {
    let response = LiteralSearchResponse {
        results: vec![item(0.0)],
        auto_promoted_to_regex: Some(true),
        note: None,
        low_confidence: None,
        suggested_tool: None,
    };
    let output = format_grep(&response);
    assert!(output.starts_with("# auto-promoted"));
    assert_eq!(
        output,
        "# auto-promoted to regex mode (query contained code-like punctuation)\ntest.rs:1:fn test()"
    );
}

#[test]
fn test_grep_format_no_comment_when_plain() {
    let response = LiteralSearchResponse {
        results: vec![item(1.0)],
        auto_promoted_to_regex: None,
        note: None,
        low_confidence: None,
        suggested_tool: None,
    };
    let output = format_grep(&response);
    assert!(!output.starts_with('#'));
}

fn request(query: &str) -> LiteralSearchRequest {
    LiteralSearchRequest {
        query: query.to_string(),
        regex: None,
        phrase: None,
        limit: None,
        file_glob: None,
        language: None,
        format: None,
        project: None,
        group: None,
    }
}

fn chunk(path: &str, content: &str) -> ChunkMeta {
    ChunkMeta {
        content: content.to_string(),
        path: path.to_string(),
        start_line: 10,
        end_line: 20,
        kind: "Function".to_string(),
        signature: None,
        docstring: None,
        context: None,
        hash: String::new(),
        context_prev: None,
        context_next: None,
        language: "Rust".to_string(),
    }
}

fn local() -> MultiStoreContext {
    MultiStoreContext {
        store_aliases: None,
        project_alias: None,
        alias_roots: vec![],
        is_multi: false,
        needs_local_db: true,
    }
}

fn candidate(chunk_id: u32, x: f32, found: ChunkMeta) -> Candidate {
    Candidate { chunk_id, score: Score::from_bits(x.to_bits()), chunks: vec![Some(found)] }
}

#[test]
fn a_word_is_found_where_it_stands() {
    let req = request("needle");
    let plan = plan_literal_search(&req);
    assert!(!plan.scan);
    assert!(!plan.auto_promoted);
    assert_eq!(plan.candidates(), 60);
    let filter = filter_of(&req, "/repo");
    let fetched = Fetched::Candidates(vec![
        candidate(1, 9.0, chunk("/repo/src/a.rs", "first\nthe needle here")),
        candidate(2, 7.0, chunk("/repo/src/b.rs", "no match at all")),
    ]);
    match literal_search("needle", &plan, &filter, &local(), false, &fetched) {
        LiteralReply::Response(r) => {
            assert_eq!(r.results.len(), 2);
            assert_eq!(r.results[0].start_line, 11);
            assert_eq!(r.results[0].snippet, "the needle here");
            assert_eq!(r.results[1].start_line, 10);
            assert_eq!(r.results[1].snippet, "no match at all");
            assert_eq!(r.low_confidence, None);
            assert_eq!(r.note, None);
        }
        _ => panic!("expected a response"),
    }
}

#[test]
fn a_tokenless_expression_reads_every_chunk() {
    let mut req = request(r"\bfn\s+\w+");
    req.regex = Some(true);
    req.format = Some("grep".to_string());
    req.file_glob = Some("src/*.rs".to_string());
    let plan = plan_literal_search(&req);
    assert!(plan.scan);
    let filter = filter_of(&req, "/repo/");
    let fetched = Fetched::Chunks(vec![vec![
        chunk("/repo/src/a.rs", "struct A;\nfn one() {}"),
        chunk("/repo/docs/b.md", "fn two"),
        chunk("/repo/src/c.rs", "no function"),
    ]]);
    match literal_search(&req.query, &plan, &filter, &local(), false, &fetched) {
        LiteralReply::Grep(t) => assert!(t.ends_with("a.rs:11:fn one() {}"), "{}", t),
        _ => panic!("expected text"),
    }
}

#[test]
fn a_limit_of_nothing_brings_nothing() {
    let mut req = request("needle");
    for (limit, count) in [(0, 0), (1, 1), (2, 2), (9, 2)] {
        req.limit = Some(limit);
        let plan = plan_literal_search(&req);
        let filter = filter_of(&req, "/repo");
        let held = || chunk("/repo/src/a.rs", "the needle here");
        for (group, fetched) in [
            (false, Fetched::Chunks(vec![vec![held()], vec![held()]])),
            (true, Fetched::Chunks(vec![vec![held()], vec![held()]])),
            (false, Fetched::Candidates(vec![candidate(1, 9.0, held()), candidate(2, 8.0, held())])),
            (true, Fetched::Candidates(vec![candidate(1, 9.0, held()), candidate(2, 8.0, held())])),
        ] {
            match literal_search("needle", &plan, &filter, &local(), group, &fetched) {
                LiteralReply::Response(r) => assert_eq!(r.results.len(), count),
                _ => panic!("expected a response"),
            }
        }
    }
}

#[test]
fn failures_of_the_stores_are_told() {
    let req = request("needle");
    let plan = plan_literal_search(&req);
    let filter = filter_of(&req, "/repo");
    for (fetched, text) in [
        (Fetched::ScanFailed("x".to_string()), "Error scanning chunks: x"),
        (Fetched::SearchFailed("y".to_string()), "Error searching: y"),
        (Fetched::ResolveFailed("z".to_string()), "Error resolving search results: z"),
    ] {
        match literal_search("needle", &plan, &filter, &local(), false, &fetched) {
            LiteralReply::Message(m) => assert_eq!(m, text),
            _ => panic!("expected a message"),
        }
    }
}

#[test]
fn a_code_pattern_is_promoted() {
    let plan = plan_literal_search(&request("foo = null"));
    assert!(plan.auto_promoted);
    assert!(plan.query.regex_enabled);
    assert_eq!(plan.query.text, r"foo\s+=\s+null");
    let mut asked = request("foo = null");
    asked.phrase = Some(true);
    assert!(!plan_literal_search(&asked).auto_promoted);
}

#[test]
fn a_note_goes_with_a_weak_result() {
    let req = request("how do we handle auth");
    let plan = plan_literal_search(&req);
    let filter = filter_of(&req, "/repo");
    let fetched = Fetched::Candidates(vec![]);
    match literal_search(&req.query, &plan, &filter, &local(), false, &fetched) {
        LiteralReply::Response(r) => {
            assert_eq!(r.low_confidence, Some(true));
            let note = r.note.unwrap();
            assert!(note.starts_with("Top result"), "{}", note);
            assert!(note.contains("search with mode='semantic'"), "{}", note);
        }
        _ => panic!("expected a response"),
    }
}

#[test]
fn a_snippet_holds_the_match() {
    let line = format!("{}needle{}", "x".repeat(300), "y".repeat(300));
    let snippet = truncate_line_around_match(&line, 300, 200);
    assert!(snippet.chars().count() <= 200);
    assert!(snippet.contains("needle"));
    assert_eq!(truncate_line_around_match("short", 2, 200), "short");
    assert_eq!(truncate_line_around_match("é", 1, 200), "é");
}
