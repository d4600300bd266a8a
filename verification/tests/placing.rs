use codesearch::placement::{
    file_name, find_git_root, find_project_root, get_global_db_path, head_watch_root, is_below,
    is_database_of, is_project_marker, needs_git_root, needs_search, offers_to_server,
    plan_database, work_of, FoundDatabase, Listing, Place,
};

fn strings(all: &[&str]) -> Vec<String> {
    all.iter().map(|s| s.to_string()).collect()
}

#[test]
fn paths_by_component() {
    for (path, base) in [
        ("/a/b/c", "/a/b"),
        ("/a/b", "/a/b/"),
        ("/a/bc", "/a/b"),
        ("/a//b/./c", "/a/b"),
        ("a/b", "/a"),
        ("./a", "a"),
        ("/a", "/"),
        ("/a", "/a/b"),
        ("x", ""),
    ] {
        let theirs = std::path::Path::new(path).starts_with(base);
        assert_eq!(is_below(path, base), theirs, "{} {}", path, base);
    }
}

#[test]
fn names_of_files() {
    for path in ["/a/b", "/a/b/", "/", "", ".", "..", "a/..", "a/.", "a/./b", "b.rs"] {
        let theirs = std::path::Path::new(path).file_name().map(|n| n.to_str().unwrap().to_string());
        assert_eq!(file_name(path), theirs, "{}", path);
    }
}

#[test]
fn the_innermost_repository() {
    let dirs = strings(&["/r/s/t", "/r/s", "/r", "/"]);
    let root = find_git_root(&dirs, &vec![false, true, true, false], &vec![]).unwrap();
    assert_eq!(root.as_deref(), Some("/r/s"));
    let none = vec![false; 4];
    assert_eq!(find_git_root(&dirs, &none, &vec![]).unwrap(), None);
    assert_eq!(
        find_git_root(&dirs, &none, &strings(&["/r/s/t/x"])).unwrap().as_deref(),
        Some("/r/s/t/x")
    );
    assert_eq!(
        find_git_root(&dirs, &none, &strings(&["/r/s/t/x", "/r/s/t/y"])).unwrap_err(),
        "❌ Multiple git repositories found in subdirectories:\n  /r/s/t/x\n  /r/s/t/y\n\n\
         Cannot create a single index spanning multiple repos.\n\
         Run 'codesearch index' inside each repository separately."
    );
}

#[test]
fn the_root_of_a_project() {
    for name in [".git", ".hg", ".svn", "Cargo.toml", "package.json", "pyproject.toml", "go.mod", "App.sln"] {
        assert!(is_project_marker(name), "{}", name);
    }
    assert!(!is_project_marker("cargo.toml"));
    let dirs = vec![
        Listing { dir: "/a/b".to_string(), entries: strings(&["x.rs"]) },
        Listing { dir: "/a".to_string(), entries: strings(&["README.md", "go.mod"]) },
        Listing { dir: "/".to_string(), entries: strings(&[".git"]) },
    ];
    assert_eq!(find_project_root(&dirs).as_deref(), Some("/a"));
    assert_eq!(find_project_root(&vec![]), None);
}

fn found(db: &str, project: &str, is_global: bool) -> Option<FoundDatabase> {
    Some(FoundDatabase {
        db_path: db.to_string(),
        project_path: project.to_string(),
        is_global,
    })
}

fn at(place: Place) -> (String, String) {
    match place {
        Place::At(d) => (d.db_path, d.project_path),
        Place::Global => panic!("expected a known place"),
    }
}

#[test]
fn an_existing_database_is_used() {
    let db = found("/p/.codesearch.db", "/p", false);
    let plan = plan_database("/p/sub", false, false, false, &db, &None).unwrap();
    assert_eq!(plan.delete, None);
    assert_eq!(at(plan.place), ("/p/.codesearch.db".to_string(), "/p".to_string()));
}

#[test]
fn a_new_database_goes_to_the_root_of_the_repository() {
    let root = Some("/p".to_string());
    for dir in ["/p", "/p/sub", "/p/sub/deep"] {
        let plan = plan_database(dir, false, false, false, &None, &root).unwrap();
        assert_eq!(at(plan.place), ("/p/.codesearch.db".to_string(), "/p".to_string()));
    }
    let plan = plan_database("/q", false, false, false, &None, &None).unwrap();
    assert_eq!(at(plan.place), ("/q/.codesearch.db".to_string(), "/q".to_string()));
}

#[test]
fn force_deletes_what_is_there() {
    let plan = plan_database("/p", false, true, true, &None, &None).unwrap();
    assert_eq!(plan.delete.as_deref(), Some("/p/.codesearch.db"));
    let db = found("/p/.codesearch.db", "/p", false);
    let plan = plan_database("/p/sub", false, true, false, &db, &Some("/p".to_string())).unwrap();
    assert_eq!(plan.delete.as_deref(), Some("/p/.codesearch.db"));
    assert_eq!(at(plan.place).1, "/p");
    assert!(!needs_search(true, true));
    assert!(needs_search(true, false));
    assert!(needs_git_root(true, false, &db));
    assert!(!needs_git_root(false, false, &db));
    assert!(!needs_git_root(true, true, &None));
}

#[test]
fn another_projects_database_is_never_deleted() {
    let db = found("/other/.codesearch.db", "/other", false);
    assert!(!is_database_of(db.as_ref().unwrap(), "/p"));
    let e = plan_database("/p", false, true, false, &db, &None).unwrap_err();
    assert_eq!(
        e,
        "Found database at /other/.codesearch.db for project '/other', but you are indexing '/p'. \
         Cowardly refusing to delete another project's database. If the database is stale, delete \
         it manually or run from the correct directory."
    );
}

#[test]
fn a_local_database_moves_to_the_global_ones() {
    let local = found("/p/.codesearch.db", "/p", false);
    let plan = plan_database("/p", true, false, true, &local, &None).unwrap();
    assert_eq!(plan.delete.as_deref(), Some("/p/.codesearch.db"));
    assert!(matches!(plan.place, Place::Global));
    let global = found("/h/.codesearch.dbs/p/.codesearch.db", "/p", true);
    let plan = plan_database("/p", true, false, false, &global, &None).unwrap();
    assert_eq!(plan.delete, None);
    assert_eq!(at(plan.place).0, "/h/.codesearch.dbs/p/.codesearch.db");
}

#[test]
fn global_databases() {
    let d = get_global_db_path(&Some("/home/me".to_string()), "/work/proj").unwrap();
    assert_eq!(d.db_path, "/home/me/.codesearch.dbs/proj/.codesearch.db");
    assert_eq!(d.project_path, "/work/proj");
    let d = get_global_db_path(&Some("/home/me".to_string()), "/").unwrap();
    assert_eq!(d.db_path, "/home/me/.codesearch.dbs/unknown/.codesearch.db");
    assert_eq!(get_global_db_path(&None, "/w").unwrap_err(), "No home directory found");
}

#[test]
fn the_branch_is_watched_at_the_root() {
    assert_eq!(head_watch_root(Ok(Some("/git".to_string())), "/git/sub"), "/git");
    assert_eq!(head_watch_root(Ok(None), "/p"), "/p");
    assert_eq!(head_watch_root(Err("several".to_string()), "/p"), "/p");
}

#[test]
fn a_dry_run_deletes_nothing() {
    let plan = plan_database("/p", false, true, true, &None, &None).unwrap();
    assert_eq!(plan.delete.as_deref(), Some("/p/.codesearch.db"));
    let work = work_of(plan, true);
    assert_eq!(work.delete, None);
    assert!(!work.write);
    assert!(matches!(work.place, Place::At(_)));
    assert!(!offers_to_server(true));
    let plan = plan_database("/p", false, true, true, &None, &None).unwrap();
    let work = work_of(plan, false);
    assert_eq!(work.delete.as_deref(), Some("/p/.codesearch.db"));
    assert!(work.write);
    assert!(offers_to_server(false));
}
