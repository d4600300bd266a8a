use codesearch::proxy::{
    after_try, check_health, dead_session_text, is_transport_error_msg,
    serve_url_from_env, sse_data, Answer, HealthBody, LoopAction, LoopEvent, McpProxy,
    ReconnectLoop, ServerReply, TryAction, TryEvent,
};
use codesearch::server::{
    choose_startup, dimensions_or_default, first_work, local_database, mode_of_name, needs_probe,
    next_work, parse_mode, service_database, Background, Database, LocalDatabase, McpMode, Startup,
};

#[test]
fn the_address_comes_from_the_setting() {
    assert_eq!(serve_url_from_env(None), "http://127.0.0.1:39725");
    assert_eq!(serve_url_from_env(Some("8123")), "http://127.0.0.1:8123");
    assert_eq!(serve_url_from_env(Some("port")), "http://127.0.0.1:39725");
    assert_eq!(serve_url_from_env(Some("65536")), "http://127.0.0.1:39725");
}

fn health(server: bool, version: &str) -> Option<HealthBody> {
    Some(HealthBody { codesearch_server: server, version: version.to_string() })
}

#[test]
fn only_a_server_of_the_same_version_is_healthy() {
    assert_eq!(check_health(&None, "1.0"), Ok(false));
    assert_eq!(check_health(&health(false, "1.0"), "1.0"), Ok(false));
    assert_eq!(check_health(&health(true, "1.0"), "1.0"), Ok(true));
    assert_eq!(
        check_health(&health(true, "0.9"), "1.0").unwrap_err(),
        "codesearch serve version mismatch: serve=0.9 mcp=1.0. Restart serve or update the mcp binary."
    );
}

#[test]
fn a_lost_server_ends_the_session() {
    let mut proxy = McpProxy::new("http://h:1".to_string());
    assert_eq!(proxy.base_url(), "http://h:1");
    assert!(proxy.before_forward().is_none());
    assert!(matches!(
        proxy.after_forward(ServerReply::Result { usable: true }),
        Answer::PassOn
    ));
    assert!(matches!(proxy.after_forward(ServerReply::NoResult), Answer::Text(_)));
    assert!(!proxy.is_dead());
    match proxy.after_forward(ServerReply::Broken) {
        Answer::Text(t) => assert_eq!(t, dead_session_text("http://h:1")),
        Answer::PassOn => panic!("nothing to pass on"),
    }
    assert!(proxy.is_dead());
    assert!(matches!(
        proxy.after_forward(ServerReply::Events { has_result: true }),
        Answer::PassOn
    ));
    assert!(proxy.is_dead());
    match proxy.before_forward() {
        Some(Answer::Text(t)) => assert!(t.starts_with(
            "codesearch serve is no longer reachable at http://h:1. This MCP session cannot recover."
        )),
        _ => panic!("a dead session answers at once"),
    }
}

#[test]
fn unusable_replies_end_the_session() {
    for reply in [
        ServerReply::Events { has_result: false },
        ServerReply::Result { usable: false },
    ] {
        let mut proxy = McpProxy::new("u".to_string());
        proxy.after_forward(reply);
        assert!(proxy.is_dead());
    }
}

#[test]
fn events_hold_data() {
    let body = "event: message\r\ndata: {\"a\":1} \r\n\r\n: comment\ndata:none\ndata: last";
    assert_eq!(sse_data(body), vec!["{\"a\":1}", "last"]);
    assert!(sse_data("").is_empty());
}

#[test]
fn broken_connections_are_recognised() {
    for msg in [
        "Transport send error: x",
        "error sending request for url",
        "Transport error",
        "connection closed before message completed",
        "error decoding response body",
        "Session not found",
        "status 404",
    ] {
        assert!(is_transport_error_msg(msg), "{}", msg);
    }
    assert!(!is_transport_error_msg("tool failed"));
}

#[test]
fn requests_are_tried_three_times() {
    assert!(matches!(after_try(0, TryEvent::Answered), TryAction::Return));
    assert!(matches!(after_try(0, TryEvent::NoPeer), TryAction::Wait));
    assert!(matches!(after_try(1, TryEvent::NoPeer), TryAction::Wait));
    match after_try(2, TryEvent::NoPeer) {
        TryAction::Fail(m) => {
            assert_eq!(m, "codesearch serve is reconnecting — please retry in a moment")
        }
        _ => panic!("the last try fails"),
    }
    let broken = || TryEvent::Failed("Transport error".to_string());
    assert!(matches!(after_try(1, broken()), TryAction::Reconnect));
    assert!(matches!(after_try(2, broken()), TryAction::Fail(m) if m == "Transport error"));
    assert!(matches!(
        after_try(0, TryEvent::Failed("bad argument".to_string())),
        TryAction::Fail(m) if m == "bad argument"
    ));
}

#[test]
fn the_proxy_gives_up_after_five_minutes() {
    let mut state = ReconnectLoop::new();
    assert_eq!(state.on_event(LoopEvent::Disconnected { now: 100 }), LoopAction::Retry);
    assert_eq!(state.on_event(LoopEvent::ConnectFailed { now: 104 }), LoopAction::Requeue);
    assert_eq!(state.on_event(LoopEvent::Disconnected { now: 400 }), LoopAction::Retry);
    assert_eq!(state.on_event(LoopEvent::Disconnected { now: 401 }), LoopAction::GiveUp);
    assert_eq!(state.on_event(LoopEvent::Connected), LoopAction::Wait);
    assert_eq!(state.down_since, None);
    assert_eq!(state.on_event(LoopEvent::Disconnected { now: 500 }), LoopAction::Retry);
    assert_eq!(state.on_event(LoopEvent::ClientClosed), LoopAction::Exit);
    assert_eq!(state.on_event(LoopEvent::Cancelled), LoopAction::Exit);
}

#[test]
fn modes_and_their_names() {
    assert_eq!(mode_of_name("client"), Ok(McpMode::Client));
    assert_eq!(
        parse_mode("Remote").unwrap_err(),
        "invalid MCP mode 'remote': must be 'auto', 'client', or 'local'"
    );
    assert!(needs_probe(McpMode::Auto));
    assert!(needs_probe(McpMode::Client));
    assert!(!needs_probe(McpMode::Local));
}

#[test]
fn starting_up() {
    assert!(matches!(choose_startup(McpMode::Auto, true, "u"), Startup::Client));
    assert!(matches!(choose_startup(McpMode::Auto, false, "u"), Startup::Local));
    assert!(matches!(choose_startup(McpMode::Local, true, "u"), Startup::Local));
    assert!(matches!(choose_startup(McpMode::Client, true, "u"), Startup::Client));
    match choose_startup(McpMode::Client, false, "http://h:1") {
        Startup::Fail(m) => assert_eq!(
            m,
            "codesearch serve is not running at http://h:1. Start it with `codesearch serve` or use --mode auto/local."
        ),
        _ => panic!("a client needs a server"),
    }
}

#[test]
fn the_local_database() {
    let found = Database { project_path: "/p".to_string(), db_path: "/p/.codesearch.db".to_string() };
    assert!(matches!(
        local_database(Some(found), false, "/q", &None),
        LocalDatabase::Existing(d) if d.project_path == "/p"
    ));
    assert!(matches!(
        local_database(None, false, "/q", &None),
        LocalDatabase::Missing(m) if m.starts_with("No database found in current directory")
    ));
    assert!(matches!(
        local_database(None, true, "/q/sub", &Some("/q".to_string())),
        LocalDatabase::Create(d) if d.db_path == "/q/.codesearch.db" && d.project_path == "/q/sub"
    ));
    assert!(matches!(
        local_database(None, true, "/q/sub", &None),
        LocalDatabase::Create(d) if d.db_path == "/q/sub/.codesearch.db"
    ));
    assert_eq!(dimensions_or_default(None), 384);
    assert_eq!(dimensions_or_default(Some(768)), 768);
}

#[test]
fn background_work_in_order() {
    assert_eq!(first_work(true), Background::Idle);
    let first = first_work(false);
    assert_eq!(first, Background::CollectEvents);
    let second = next_work(first, false, false);
    assert_eq!(second, Background::Refresh);
    assert_eq!(next_work(second, true, false), Background::Watch);
    assert_eq!(next_work(second, true, true), Background::Idle);
    assert_eq!(next_work(second, false, false), Background::Idle);
    assert_eq!(next_work(Background::Watch, true, false), Background::Idle);
}

#[test]
fn a_server_needs_a_database() {
    let database =
        Database { project_path: "/p".to_string(), db_path: "/p/.codesearch.db".to_string() };
    assert_eq!(service_database(Some(database)).unwrap().project_path, "/p");
    assert!(service_database(None)
        .unwrap_err()
        .ends_with("Run 'codesearch index' first to index the codebase."));
}
