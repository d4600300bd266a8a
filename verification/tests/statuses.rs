use codesearch::routing::{
    format_scope_error, resolve_group_members, resolve_repo_stores_multi, routing_context, sort_names, RepoEntry,
    Route, ServeConfig,
};
use codesearch::status::{
    choose_model, group_status, mcp_mode, missing_database_message, model_metadata, repo_info,
    serve_status, single_status, IndexProbe, ModelMetadata, RepoProbe, RepoState, StoreStats,
};
use codesearch::paths::AliasRoot;
use codesearch::routing::MultiStoreContext;
use codesearch::tools::{
    dispatch_explore, dispatch_find, dispatch_search, dispatch_status, outline_refusal, refusal, tool_failure, ExploreAction, FindAction, SearchAction, StatusAction, ToolStep,
};
use codesearch::types::{ExploreRequest, FindRequest, SearchRequest, StatusRequest};

fn stats(chunks: usize, files: usize, indexed: bool) -> StoreStats {
    StoreStats {
        total_chunks: chunks,
        total_files: files,
        max_chunk_id: chunks as u32,
        dimensions: 384,
        indexed,
    }
}

#[test]
fn the_status_of_a_server() {
    let r = serve_status(3, 1, &vec![RepoState::Open, RepoState::Warm, RepoState::Closed], "m");
    assert!(r.indexed);
    assert_eq!(r.status, "ready");
    assert_eq!(
        r.status_message,
        "3 repo(s) registered, 1 group(s). Open: 1, Warm: 1, Closed: 1."
    );
    assert_eq!(r.db_path, "(3 repos)");
    assert_eq!(r.mode.as_deref(), Some("serve_hub"));
    assert_eq!(serve_status(1, 0, &vec![RepoState::Closed], "m").status, "not_indexed");
    assert_eq!(serve_status(0, 0, &vec![], "m").status, "not_indexed");
    assert_eq!(mcp_mode(false).as_deref(), Some("stdio"));
}

#[test]
fn the_status_of_a_group() {
    let r = group_status(&vec![Some(stats(5, 2, true)), None, Some(stats(7, 1, true))], "m", true);
    assert_eq!(r.total_chunks, 12);
    assert_eq!(r.total_files, 3);
    assert_eq!(r.max_chunk_id, 7);
    assert_eq!(r.status, "ready");
    assert_eq!(r.project_path, "group with 3 repo(s)");
    let r = group_status(&vec![None], "m", false);
    assert_eq!(r.status, "building");
}

#[test]
fn the_status_of_one_index() {
    let r = single_status(&IndexProbe::Missing, "m", "/p/db", "/p", false);
    assert_eq!(r.status, "not_indexed");
    assert_eq!(r.model, "none");
    let r = single_status(&IndexProbe::Failed("broken".to_string()), "m", "/p/db", "/p", false);
    assert_eq!(r.status, "error");
    assert_eq!(r.error_message.as_deref(), Some("broken"));
    let r = single_status(&IndexProbe::Read(stats(4, 2, true)), "m", "/p/db", "/p", false);
    assert_eq!(r.status, "ready");
    assert_eq!(r.total_chunks, 4);
    assert!(r.indexed);
    let r = single_status(&IndexProbe::Read(stats(0, 0, false)), "m", "/p/db", "/p", false);
    assert_eq!(r.status, "building");
    assert!(missing_database_message("/p/db", "/p").starts_with("❌ No index database found at: /p/db"));
}

#[test]
fn models() {
    assert_eq!(model_metadata(false, None, None, Some(768)), ("unknown".to_string(), 384));
    assert_eq!(
        model_metadata(true, Some("m".to_string()), Some(0), Some(768)),
        ("m".to_string(), 768)
    );
    assert_eq!(model_metadata(true, None, Some(512), None), ("unknown".to_string(), 512));
    let meta = |known: bool| ModelMetadata {
        name: "m".to_string(),
        dimensions: 512,
        language: Some("Rust".to_string()),
        known,
    };
    let c = choose_model(None, false, Some(meta(true)));
    assert_eq!(c.name.as_deref(), Some("m"));
    assert_eq!(c.dimensions, Some(512));
    let c = choose_model(None, false, Some(meta(false)));
    assert!(c.unknown);
    assert_eq!(c.dimensions, Some(384));
    let c = choose_model(Some("x".to_string()), true, None);
    assert_eq!(c.name.as_deref(), Some("x"));
}

#[test]
fn repositories_in_the_list() {
    let i = repo_info("web", "/w", &RepoProbe::NotIndexed);
    assert_eq!(i.database_path, "/w/.codesearch.db");
    assert_eq!(i.model, "not indexed");
    assert_eq!(i.lock_status, "unknown");
    let i = repo_info(
        "web",
        "/w",
        &RepoProbe::Opened { model: "m".to_string(), stats: Some(stats(3, 1, true)), locked: true },
    );
    assert_eq!(i.lock_status, "conflicted");
    assert_eq!(i.total_chunks, 3);
    let i = repo_info("web", "/w", &RepoProbe::Unreadable { model: "m".to_string() });
    assert_eq!(i.lock_status, "readonly");
}

fn search(mode: Option<&str>) -> SearchRequest {
    SearchRequest {
        query: "q".to_string(),
        mode: mode.map(|m| m.to_string()),
        limit: Some(4),
        compact: None,
        filter_path: None,
        semantic_mode: None,
        regex: None,
        phrase: None,
        file_glob: None,
        language: None,
        format: None,
        project: None,
        group: None,
    }
}

#[test]
fn the_search_tool() {
    assert!(matches!(dispatch_search(search(None)), SearchAction::Semantic(r) if r.limit == Some(4)));
    assert!(matches!(dispatch_search(search(Some("LITERAL"))), SearchAction::Literal(_)));
    assert!(matches!(
        dispatch_search(search(Some("fuzzy"))),
        SearchAction::Unknown(m) if m == "Unknown search mode 'fuzzy'. Use `semantic` or `literal`."
    ));
}

#[test]
fn the_find_tool() {
    let find = |kind: Option<&str>| FindRequest {
        symbol: "s".to_string(),
        kind: kind.map(|k| k.to_string()),
        definition_kind: None,
        limit: None,
        project: None,
        group: None,
    };
    assert!(matches!(dispatch_find(find(Some("definition"))), FindAction::Definition(_)));
    assert!(matches!(dispatch_find(find(Some("Usages"))), FindAction::Usages(_)));
    assert!(matches!(dispatch_find(find(Some("imports"))), FindAction::Imports(_)));
    assert!(matches!(dispatch_find(find(Some("dependents"))), FindAction::Dependents(_)));
    assert!(matches!(dispatch_find(find(Some("x"))), FindAction::Unknown(_)));
}

#[test]
fn the_explore_and_status_tools() {
    let explore = |kind: Option<&str>, target: &str| ExploreRequest {
        target: target.to_string(),
        kind: kind.map(|k| k.to_string()),
        limit: None,
        project: None,
        group: None,
    };
    assert!(matches!(
        dispatch_explore(explore(Some("outline"), "src/a.rs")),
        ExploreAction::Outline(r) if r.path == "src/a.rs"
    ));
    assert!(matches!(
        dispatch_explore(explore(Some("similar"), "42")),
        ExploreAction::Similar(r) if r.chunk_id == 42
    ));
    let status = |kind: Option<&str>| StatusRequest {
        kind: kind.map(|k| k.to_string()),
        project: None,
        group: None,
    };
    assert!(matches!(dispatch_status(status(Some("projects"))), StatusAction::Projects));
    assert!(matches!(dispatch_status(status(Some("index"))), StatusAction::Index { .. }));
    assert!(matches!(dispatch_status(status(Some("x"))), StatusAction::Unknown(_)));
}

fn config(names: &[&str]) -> ServeConfig {
    ServeConfig {
        repos: names
            .iter()
            .map(|n| RepoEntry { alias: n.to_string(), path: format!("/repos/{}/", n) })
            .collect(),
        groups: vec!["all".to_string()],
    }
}

#[test]
fn routes_to_repositories() {
    let two = config(&["web", "api"]);
    assert!(matches!(resolve_repo_stores_multi(&None, &None, false, None), Route::Local));
    match resolve_repo_stores_multi(&None, &None, false, Some(&two)) {
        Route::ScopeRequired { projects, groups } => {
            assert_eq!(projects, vec!["api", "web"]);
            assert_eq!(groups, vec!["all"]);
        }
        _ => panic!("a scope is required"),
    }
    match resolve_repo_stores_multi(&None, &None, true, Some(&two)) {
        Route::Open { aliases, touch } => {
            assert_eq!(aliases, vec!["web", "api"]);
            assert!(!touch);
        }
        _ => panic!("all repositories answer"),
    }
    let web = Some("web".to_string());
    assert!(matches!(
        resolve_repo_stores_multi(&web, &None, false, Some(&two)),
        Route::Open { touch: true, .. }
    ));
    assert!(matches!(
        resolve_repo_stores_multi(&web, &web, false, Some(&two)),
        Route::Refused { .. }
    ));
    assert!(matches!(
        resolve_repo_stores_multi(&web, &None, false, None),
        Route::Refused { .. }
    ));
    assert!(matches!(
        resolve_repo_stores_multi(&None, &web, false, Some(&two)),
        Route::Members { group } if group == "web"
    ));
    assert!(matches!(
        resolve_group_members("g", vec![]),
        Route::Refused { message } if message == "Group 'g' has no members."
    ));
    assert_eq!(sort_names(&vec!["b".to_string(), "a".to_string()]), vec!["a", "b"]);
}

#[test]
fn paths_of_results_name_their_repository() {
    let two = config(&["web", "api"]);
    let ctx = routing_context(Some(vec!["web".to_string()]), Some(&two));
    assert_eq!(ctx.prefix_result_path("/repos/web/src/a.rs"), "web/src/a.rs");
    let ctx = routing_context(Some(vec!["web".to_string(), "api".to_string()]), Some(&two));
    assert!(ctx.is_multi);
    assert_eq!(ctx.prefix_result_path("/repos/api/src/a.rs"), "api/src/a.rs");
    let (names, many) = ctx.recorded_aliases(false);
    assert_eq!(names, vec!["web", "api"]);
    assert!(many);
    let ctx = routing_context(None, None);
    assert!(ctx.needs_local_db);
    assert!(ctx.recorded_aliases(false).0.is_empty());
}

#[test]
fn requests_that_are_refused() {
    let e = |m: &str| Some(m.to_string());
    assert_eq!(refusal(e("no project"), true, e("no index")), e("no project"));
    assert_eq!(refusal(None, true, e("no index")), e("no index"));
    assert_eq!(refusal(None, false, e("no index")), None);
    assert_eq!(refusal(None, true, None), None);
    assert_eq!(outline_refusal(false), None);
    assert_eq!(
        outline_refusal(true),
        e("Tool 'explore' operates on a single repo. Use 'project' instead of 'group'.")
    );
}

#[test]
fn failures_of_the_tools() {
    assert_eq!(tool_failure(ToolStep::Search, "x"), "Error searching: x");
    assert_eq!(tool_failure(ToolStep::OpenDatabase, "x"), "Error opening database: x");
    assert_eq!(tool_failure(ToolStep::ReadOutline, "x"), "Error reading outline: x");
    assert_eq!(tool_failure(ToolStep::ReadImports, "x"), "Error reading imports: x");
    assert_eq!(tool_failure(ToolStep::ResolveDependents, "x"), "Error resolving dependents: x");
    assert_eq!(tool_failure(ToolStep::FindSimilar, "x"), "Error finding similar chunks: x");
}

#[test]
fn the_file_of_a_request() {
    let root = AliasRoot { alias: "api".to_string(), root: "/work/api".to_string() };
    let mut ctx = MultiStoreContext {
        store_aliases: None,
        project_alias: Some("api".to_string()),
        alias_roots: vec![root],
        is_multi: false,
        needs_local_db: false,
    };
    assert_eq!(ctx.tool_file("api/src/a.rs", "/here"), "/work/api/src/a.rs");
    assert_eq!(ctx.tool_file("src/a.rs", "/here"), "/work/api/src/a.rs");
    assert_eq!(ctx.tool_file("/abs/a.rs", "/here"), "/abs/a.rs");
    ctx.project_alias = Some("web".to_string());
    assert_eq!(ctx.tool_file("web/a.rs", "/here"), "/here/a.rs");
    ctx.project_alias = None;
    assert_eq!(ctx.tool_file("api/a.rs", "/here"), "/here/api/a.rs");
}

#[test]
fn the_group_of_all_repositories() {
    let mut two = config(&["web", "api"]);
    two.groups = vec!["platform".to_string()];
    match resolve_repo_stores_multi(&None, &None, false, Some(&two)) {
        Route::ScopeRequired { groups, .. } => assert_eq!(groups, vec!["all", "platform"]),
        _ => panic!("a scope is required"),
    }
    let all = Some("all".to_string());
    match resolve_repo_stores_multi(&None, &all, false, Some(&two)) {
        Route::Open { aliases, touch } => {
            assert_eq!(aliases, vec!["web", "api"]);
            assert!(!touch);
        }
        _ => panic!("every repository answers"),
    }
    let platform = Some("platform".to_string());
    assert!(matches!(
        resolve_repo_stores_multi(&None, &platform, false, Some(&two)),
        Route::Members { group } if group == "platform"
    ));
    let none = config(&[]);
    match resolve_repo_stores_multi(&None, &all, false, Some(&none)) {
        Route::Refused { message } => assert_eq!(message, "Group 'all' has no members."),
        _ => panic!("nobody answers"),
    }
}

#[test]
fn the_error_that_asks_for_a_scope() {
    let e = format_scope_error(vec!["api".to_string()], vec!["all".to_string()]);
    assert_eq!(e.error_code, "scope_required");
    assert_eq!(
        e.message,
        "Specify project= for a single repository or group= for cross-repo search."
    );
    assert_eq!(e.available_projects, vec!["api"]);
    assert_eq!(e.available_groups, vec!["all"]);
    assert!(e.hint_for_agent.ends_with("as options."));
}
