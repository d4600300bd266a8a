use codesearch::chunks::{
    ambiguous_chunk, ambiguous_message, choose_chunk_store, chunk_response, clamp_context, find_chunk_store,
    missing_everywhere_message, missing_message, rank_results, similar_chunks, similar_limit,
    surrounding_lines, ChunkChoice, Lookup, Source,
};
use codesearch::imports::{
    collect_dependents, dependents_limits, dependents_reply, dependents_search_term, import_reply,
    import_search_words, import_statement, imports_from_candidates, imports_from_rows, is_import_kind, ImportRow,
};
use codesearch::paths::AliasRoot;
use codesearch::routing::MultiStoreContext;
use codesearch::score::Score;
use codesearch::symbols::{
    contains_symbol_as_word, definition_kind, definition_limits, file_outline, find_definition,
    find_usages, usage_limits, FileOutlineItem,
};
use codesearch::types::{Candidate, ChunkMeta, Reply, SearchResult};

fn score(x: f32) -> Score {
    Score::from_bits(x.to_bits())
}

fn chunk(path: &str, kind: &str, signature: &str, content: &str) -> ChunkMeta {
    ChunkMeta {
        content: content.to_string(),
        path: path.to_string(),
        start_line: 7,
        end_line: 9,
        kind: kind.to_string(),
        signature: Some(signature.to_string()),
        docstring: None,
        context: None,
        hash: String::new(),
        context_prev: None,
        context_next: None,
        language: "Rust".to_string(),
    }
}

fn candidate(chunk_id: u32, found: ChunkMeta) -> Candidate {
    Candidate { chunk_id, score: score(1.0), chunks: vec![None, Some(found)] }
}

fn local() -> MultiStoreContext {
    MultiStoreContext {
        store_aliases: None,
        project_alias: None,
        alias_roots: vec![],
        is_multi: false,
        needs_local_db: true,
    }
}

fn aliased() -> MultiStoreContext {
    MultiStoreContext {
        store_aliases: None,
        project_alias: Some("web".to_string()),
        alias_roots: vec![AliasRoot { alias: "web".to_string(), root: "/w".to_string() }],
        is_multi: false,
        needs_local_db: false,
    }
}

fn items<T>(reply: Reply<T>) -> Vec<T> {
    match reply {
        Reply::Items(v) => v,
        Reply::Message(m) => panic!("{}", m),
    }
}

fn message<T>(reply: Reply<T>) -> String {
    match reply {
        Reply::Items(_) => panic!("expected a message"),
        Reply::Message(m) => m,
    }
}

#[test]
fn definitions_and_usages() {
    assert!(definition_kind("Struct"));
    assert!(!definition_kind("Comment"));
    assert!(contains_symbol_as_word("pub fn walk(dir)", "walk"));
    assert!(!contains_symbol_as_word("pub fn walker(dir)", "walk"));
    let all = vec![
        candidate(1, chunk("/w/a.rs", "Function", "fn walk(", "fn walk() {}")),
        candidate(2, chunk("/w/b.rs", "Function", "fn other(", "walk();")),
        candidate(3, chunk("/w/c.rs", "Comment", "", "walk")),
    ];
    let defs = items(find_definition(&all, "walk", &None, 10, &aliased()));
    let ids: Vec<u32> = defs.iter().map(|d| d.chunk_id).collect();
    assert_eq!(ids, vec![1, 2]);
    assert_eq!(defs[0].path, "web/a.rs");
    assert_eq!(defs[0].line, 7);
    let structs = find_definition(&all, "walk", &Some("Struct".to_string()), 10, &local());
    assert_eq!(
        message(structs),
        "No definition found for 'walk'. Try find_usages() to find references, or broaden your search."
    );
    assert_eq!(
        message(find_definition(&vec![], "walk", &None, 10, &local())),
        "No definition found for 'walk'. The symbol may not be indexed."
    );
    let uses = items(find_usages(&all, "walk", 10, &local()));
    let ids: Vec<u32> = uses.iter().map(|d| d.chunk_id).collect();
    assert_eq!(ids, vec![2, 3]);
    assert_eq!(items(find_usages(&all, "walk", 1, &local())).len(), 1);
    let only = vec![candidate(1, chunk("/w/a.rs", "Function", "fn walk(", ""))];
    assert_eq!(
        message(find_usages(&only, "walk", 10, &local())),
        "No usages found for 'walk' (only definitions were found). Try find_definition() to locate the declaration."
    );
    assert_eq!(
        message(find_usages(&vec![], "walk", 10, &local())),
        "No usages found for 'walk'. The symbol may not be indexed."
    );
}

#[test]
fn a_limit_of_nothing_finds_no_symbol() {
    let all = vec![
        candidate(1, chunk("/w/a.rs", "Function", "fn walk(", "fn walk() {}")),
        candidate(2, chunk("/w/b.rs", "Imports", "", "use walk;")),
    ];
    let mut several = aliased();
    several.is_multi = true;
    for ctx in [aliased(), several] {
        assert_eq!(items(find_definition(&all, "walk", &None, 1, &ctx)).len(), 1);
        assert_eq!(items(find_usages(&all, "walk", 1, &ctx)).len(), 1);
        assert_eq!(collect_dependents(&all, "walk", 1, &ctx).len(), 1);
        assert!(message(find_definition(&all, "walk", &None, 0, &ctx)).contains("No definition"));
        assert!(message(find_usages(&all, "walk", 0, &ctx)).contains("No usages"));
        assert!(collect_dependents(&all, "walk", 0, &ctx).is_empty());
    }
}

#[test]
fn outlines_are_sorted_by_line() {
    let item = |chunk_id: u32, start_line: usize| FileOutlineItem {
        chunk_id,
        kind: "Function".to_string(),
        signature: None,
        start_line,
        end_line: start_line + 1,
    };
    let out = items(file_outline(&vec![item(1, 30), item(2, 10), item(3, 30)]));
    let ids: Vec<u32> = out.iter().map(|d| d.chunk_id).collect();
    assert_eq!(ids, vec![2, 1, 3]);
    assert!(message(file_outline(&vec![])).starts_with("No indexed chunks found for path."));
}

#[test]
fn imports_of_a_file() {
    assert!(is_import_kind("Imports"));
    let row = |id: u32, kind: &str, content: &str| ImportRow {
        id,
        kind: kind.to_string(),
        chunk: Some(chunk("src/a.rs", kind, "", content)),
    };
    let rows = vec![row(1, "Imports", "use std::fs;"), row(2, "Function", "fn x() {}")];
    let found = imports_from_rows(&rows, false);
    assert_eq!(found.len(), 1);
    assert_eq!(found[0].kind, "use");
    assert_eq!(found[0].line, 7);
    let all = vec![
        candidate(1, chunk("src/a.rs", "Imports", "", "import os\nimport sys")),
        candidate(2, chunk("src/b.rs", "Imports", "", "import re")),
    ];
    let found = imports_from_candidates(&all, "src/a.rs");
    assert_eq!(found.len(), 2);
    let sorted = items(import_reply(&found));
    assert_eq!(sorted[0].line, 7);
    assert_eq!(sorted[1].line, 8);
    assert!(message(import_reply(&vec![])).starts_with("No import chunks found."));
}

#[test]
fn dependents_of_a_module() {
    assert_eq!(dependents_search_term("src/util/paths.rs"), "paths");
    assert_eq!(dependents_search_term("FileWalker"), "FileWalker");
    assert_eq!(dependents_limits(None), (20, 200));
    assert_eq!(dependents_limits(Some(50)), (50, 500));
    assert_eq!(dependents_limits(Some(5000)), (200, 2000));
    let uses = chunk("/w/b.rs", "Imports", "", "use a::x;\nuse util::Paths;");
    assert_eq!(import_statement(&uses, "paths"), "use util::Paths;");
    let all = vec![
        candidate(1, chunk("/w/z.rs", "Imports", "", "use util::paths;")),
        candidate(2, uses),
        candidate(3, chunk("/w/z.rs", "Imports", "", "use util::paths::join;")),
    ];
    let found = collect_dependents(&all, "paths", 10, &aliased());
    let names: Vec<&str> = found.iter().map(|d| d.path.as_str()).collect();
    assert_eq!(names, vec!["web/z.rs", "web/b.rs"]);
    let sorted = items(dependents_reply(&found, "paths"));
    assert_eq!(sorted[0].path, "web/b.rs");
    assert_eq!(message(dependents_reply(&vec![], "paths")), "No dependent files found for 'paths'.");
}

#[test]
fn chunks_and_their_surroundings() {
    assert_eq!(clamp_context(None), (0, false));
    assert_eq!(clamp_context(Some(3)), (3, false));
    let (most, clamped) = clamp_context(Some(100_000));
    assert!(clamped && most < 100_000);
    let src = "1\n2\n3\n4\n5\n6\n7\n8\n9\n10\n11\n12";
    let (before, after) = surrounding_lines(src, 7, 9, 2);
    assert_eq!(before.as_deref(), Some("6\n7"));
    assert_eq!(after.as_deref(), Some("10\n11"));
    let c = chunk("/w/a.rs", "Function", "fn a(", "7\n8\n9");
    let r = chunk_response(4, &c, Some(1), &Source::Read(src.to_string()), &aliased());
    assert_eq!(r.path, "web/a.rs");
    assert_eq!(r.context_before.as_deref(), Some("7"));
    assert_eq!(r.context_after.as_deref(), Some("10"));
    assert_eq!(r.note, None);
    let r = chunk_response(4, &c, Some(1), &Source::Unreadable, &local());
    assert_eq!(r.note.as_deref(), Some("source file not readable, returning indexed content only"));
    let r = chunk_response(4, &c, None, &Source::NotNeeded, &local());
    assert_eq!(r.context_before, None);
    assert_eq!(r.content, "7\n8\n9");
}

#[test]
fn a_chunk_in_several_repositories() {
    let names = vec!["a".to_string(), "b".to_string(), "c".to_string()];
    assert!(matches!(choose_chunk_store(&vec![false, false, false], &names), ChunkChoice::Missing));
    assert!(matches!(choose_chunk_store(&vec![false, true, false], &names), ChunkChoice::Only(1)));
    match choose_chunk_store(&vec![true, false, true], &names) {
        ChunkChoice::Ambiguous(v) => assert_eq!(v, vec!["a", "c"]),
        _ => panic!("two repositories hold the chunk"),
    }
    assert_eq!(find_chunk_store(&vec![Lookup::Absent, Lookup::Found]), Some(1));
    assert_eq!(find_chunk_store(&vec![Lookup::Absent]), None);
    assert_eq!(missing_message(3), "Chunk 3 not found. Verify the chunk_id and index state.");
    assert_eq!(
        missing_everywhere_message(3),
        "Chunk 3 not found in any repository. Verify the chunk_id and index state."
    );
    assert_eq!(ambiguous_message(12), "chunk_id 12 exists in multiple repositories. Specify which one.");
}

fn neighbor(id: u32, x: f32) -> SearchResult {
    SearchResult {
        id,
        content: String::new(),
        path: "/w/a.rs".to_string(),
        start_line: 1,
        end_line: 2,
        kind: "Function".to_string(),
        signature: None,
        docstring: None,
        context: None,
        hash: String::new(),
        distance: score(0.0),
        score: score(x),
        context_prev: None,
        context_next: None,
    }
}

#[test]
fn a_chunk_is_not_similar_to_itself() {
    assert_eq!(similar_limit(None), 5);
    assert_eq!(similar_limit(Some(50)), 20);
    let all = vec![neighbor(1, 0.99), neighbor(2, 0.5), neighbor(3, 0.7), neighbor(4, 0.1)];
    let found = similar_chunks(&all, 1, 2, &aliased());
    assert_eq!(found.len(), 2);
    assert!(found.iter().all(|r| r.chunk_id != 1));
    assert_eq!(found[0].path, "web/a.rs");
    let ranked: Vec<u32> = rank_results(&all).iter().map(|r| r.id).collect();
    assert_eq!(ranked, vec![1, 3, 2, 4]);
}

#[test]
fn limits_of_symbol_searches() {
    assert_eq!(definition_limits(None), (20, 60));
    assert_eq!(definition_limits(Some(7)), (7, 21));
    assert_eq!(usage_limits(None), (20, 40));
    assert_eq!(usage_limits(Some(7)), (7, 14));
}

#[test]
fn words_of_imports() {
    assert_eq!(
        import_search_words(),
        vec!["import", "use", "using", "from", "require", "include"]
    );
}

#[test]
fn an_ambiguous_chunk_names_its_repositories() {
    let e = ambiguous_chunk(7, vec!["api".to_string(), "web".to_string()]);
    assert_eq!(e.error_code, "ambiguous_chunk_id");
    assert_eq!(e.message, "chunk_id 7 exists in multiple repositories. Specify which one.");
    assert_eq!(e.candidate_projects, vec!["api", "web"]);
    assert!(e.hint_for_agent.starts_with("The chunk_id collision is a known limitation"));
}
