use codesearch::cli::{logs_to_console, on_interrupt, scan_args, Interrupt};
use codesearch::commands::{
    add_error, confirms_clear, listed_order, lists_current, plan_add, plan_remove, prune_report,
    removal_target, AddPlan, ExistingIndex, RemovedIndex,
};
use codesearch::logger::LogLevel;
use codesearch::routing::{RepoEntry, ServeConfig};

fn args(all: &[&str]) -> Vec<String> {
    all.iter().map(|s| s.to_string()).collect()
}

#[test]
fn arguments_are_scanned() {
    let flags = scan_args(&args(&["codesearch", "search", "x"]));
    assert!(!flags.quiet && !flags.json && !flags.server);
    assert_eq!(flags.level, LogLevel::Info);
    assert!(logs_to_console(flags));
    let flags = scan_args(&args(&["codesearch", "-q", "--json", "-l", "DEBUG", "mcp"]));
    assert!(flags.quiet && flags.json && flags.server);
    assert_eq!(flags.level, LogLevel::Debug);
    assert!(!logs_to_console(flags));
    let flags = scan_args(&args(&["codesearch", "--quiet", "serve", "--loglevel"]));
    assert!(flags.quiet && flags.server);
    assert_eq!(flags.level, LogLevel::Info);
    let flags = scan_args(&args(&["codesearch", "-l", "loud", "-l", "error"]));
    assert_eq!(flags.level, LogLevel::Info);
}

#[test]
fn the_second_interrupt_ends_the_program() {
    let loud = scan_args(&args(&["codesearch"]));
    let quiet = scan_args(&args(&["codesearch", "-q"]));
    assert_eq!(on_interrupt(false, loud), Interrupt::Stop { announce: true });
    assert_eq!(on_interrupt(false, quiet), Interrupt::Stop { announce: false });
    assert_eq!(on_interrupt(true, loud), Interrupt::ForceExit);
}

#[test]
fn adding_a_project() {
    let here = Some(ExistingIndex { is_global: false, is_current: true });
    let above = Some(ExistingIndex { is_global: false, is_current: false });
    let global = Some(ExistingIndex { is_global: true, is_current: true });
    assert!(matches!(plan_add(here, true, false, false), AddPlan::Register));
    match plan_add(above, false, false, false) {
        AddPlan::Served(t) => {
            assert_eq!(t, "The parent directory index will be used for this subdirectory.")
        }
        _ => panic!("the index above serves"),
    }
    match plan_add(global, false, true, false) {
        AddPlan::Served(t) => assert_eq!(t, "The global index will be used for all projects."),
        _ => panic!("the global index serves"),
    }
    assert!(matches!(plan_add(None, true, false, true), AddPlan::LocalExists));
    assert!(matches!(plan_add(None, true, false, false), AddPlan::Indexed));
    assert!(matches!(plan_add(None, false, true, true), AddPlan::Indexed));
    assert!(matches!(plan_add(None, false, false, true), AddPlan::Create { global: true }));
    assert_eq!(add_error(&AddPlan::LocalExists).as_deref(), Some("Local index exists"));
    assert_eq!(
        add_error(&AddPlan::Served(String::new())).as_deref(),
        Some("Index already exists in parent or current directory")
    );
    assert_eq!(add_error(&AddPlan::Indexed), None);
}

fn entry(alias: &str, path: &str) -> RepoEntry {
    RepoEntry { alias: alias.to_string(), path: path.to_string() }
}

fn config() -> ServeConfig {
    ServeConfig { repos: vec![entry("web", "/w"), entry("api", "/a")], groups: vec![] }
}

#[test]
fn removing_an_index() {
    let plan = plan_remove(true, true, false);
    assert!(plan.unregister);
    assert_eq!(plan.index, RemovedIndex::LocalBeforeGlobal);
    assert_eq!(plan_remove(true, false, true).index, RemovedIndex::Local);
    assert!(!plan_remove(true, false, true).unregister);
    assert_eq!(plan_remove(false, true, false).index, RemovedIndex::Global);
    let none = plan_remove(false, false, false);
    assert_eq!(none.index, RemovedIndex::Nothing);
    assert!(!none.unregister);
    let c = config();
    assert_eq!(removal_target(Some(&c), Some("api")), "/a");
    assert_eq!(removal_target(Some(&c), Some("./other")), "./other");
    assert_eq!(removal_target(None, Some("api")), "api");
    assert_eq!(removal_target(Some(&c), None), ".");
}

#[test]
fn clearing_asks_first() {
    assert!(confirms_clear(true, ""));
    assert!(confirms_clear(false, " y\n"));
    assert!(confirms_clear(false, "Y"));
    assert!(!confirms_clear(false, "yes"));
    assert!(!confirms_clear(false, ""));
}

#[test]
fn repositories_are_listed_by_name() {
    assert_eq!(listed_order(&config()), vec![1, 0]);
    assert!(lists_current(true, false));
    assert!(!lists_current(true, true));
    assert!(!lists_current(false, false));
}

#[test]
fn pruning_tells_what_it_did() {
    assert_eq!(
        prune_report(&vec![], &vec![]),
        vec!["✅ No stale repositories found — repos.json is clean."]
    );
    assert_eq!(
        prune_report(&vec![entry("web", "/new")], &vec!["api".to_string()]),
        vec![
            "📍 relocated 'web' → /new",
            "🗑️  removed stale entry 'api'",
            "✅ Prune complete: 1 relocated, 1 removed.",
        ]
    );
}
