use codesearch::delegate::{
    added_alias, after_add, after_probe, after_reindex, after_removal, alias_for_reindex, alias_for_removal,
    auth_failure_hint, base_url, build_serve_client_with_key, client_key, health_for_removal,
    index_way, path_key, probe_error, reindex_url, repo_url, serve_delegate_with_warmup_wait,
    DelegateError, HttpReply, IndexWay, ProbeEvent, Reception, ReindexAction, ReindexStage,
    ServeProbe, Waiting, SERVE_API_KEY_ENV,
};

#[test]
fn auth_failure_hint_for_401_names_env_var() {
    let hint = auth_failure_hint(reqwest::StatusCode::UNAUTHORIZED.as_u16())
        .expect("401 must yield a hint");
    assert!(hint.contains("401"), "hint should mention the status: {hint}");
    assert!(
        hint.contains(SERVE_API_KEY_ENV),
        "hint should name the env var so users know what to set: {hint}"
    );
}

#[test]
fn auth_failure_hint_none_for_other_statuses() {
    for status in [
        reqwest::StatusCode::FORBIDDEN,
        reqwest::StatusCode::NOT_FOUND,
        reqwest::StatusCode::INTERNAL_SERVER_ERROR,
        reqwest::StatusCode::OK,
    ] {
        assert!(
            auth_failure_hint(status.as_u16()).is_none(),
            "{status} must NOT trigger the auth-failure hint"
        );
    }
}

#[test]
fn build_serve_client_with_invalid_key_fails_with_env_var_name() {
    let err = build_serve_client_with_key(Some("bad\r\nkey"))
        .expect_err("invalid header chars must produce an error");
    assert!(
        err.contains(SERVE_API_KEY_ENV),
        "error should name the env var so the user knows which var to fix: {err}"
    );
    assert_eq!(
        err,
        "invalid CODESEARCH_SERVE_API_KEY value: failed to parse header value"
    );
}

#[test]
fn build_serve_client_with_key_attaches_bearer_header() {
    let header = build_serve_client_with_key(Some("hunter2")).unwrap();
    assert_eq!(header.as_deref(), Some("Bearer hunter2"));
}

#[test]
fn build_serve_client_without_key_sends_no_auth_header() {
    assert_eq!(build_serve_client_with_key(None).unwrap(), None);
}

#[test]
fn inner_builder_attaches_header_for_any_some_value() {
    let header = build_serve_client_with_key(Some("any-value")).unwrap();
    assert_eq!(header.as_deref(), Some("Bearer any-value"));
    let header = build_serve_client_with_key(Some("")).unwrap();
    assert_eq!(header.as_deref(), Some("Bearer "));
}

#[test]
fn header_characters_are_those_of_the_http_crate() {
    for code in 0u32..300 {
        if let Some(c) = char::from_u32(code) {
            let key = c.to_string();
            let theirs = reqwest::header::HeaderValue::from_str(&key).is_ok();
            assert_eq!(build_serve_client_with_key(Some(&key)).is_ok(), theirs, "{}", code);
        }
    }
}

#[test]
fn keys_are_trimmed_by_the_caller() {
    assert_eq!(client_key(Some("  abc \n")).as_deref(), Some("abc"));
    assert_eq!(client_key(Some("   ")), None);
    assert_eq!(client_key(None), None);
}

#[test]
fn addresses() {
    assert_eq!(base_url("127.0.0.1", None), "http://127.0.0.1:39725");
    assert_eq!(base_url("localhost", Some("8080")), "http://localhost:8080");
    assert_eq!(base_url("localhost", Some("99999")), "http://localhost:39725");
    assert_eq!(reindex_url("http://h:1", "a", false), "http://h:1/repos/a/reindex");
    assert_eq!(reindex_url("http://h:1", "a", true), "http://h:1/repos/a/reindex?force=true");
    assert_eq!(repo_url("http://h:1", "a"), "http://h:1/repos/a");
}

#[test]
fn probe_reports_up_when_health_responds() {
    assert_eq!(after_probe(0, ProbeEvent::Answered, 3), Some(ServeProbe::Up));
    assert!(probe_error(ServeProbe::Up).is_none());
}

#[test]
fn probe_reports_unresponsive_when_listening_but_slow() {
    let mut timeouts = 0;
    let verdict = loop {
        match after_probe(timeouts, ProbeEvent::TimedOut, 2) {
            Some(v) => break v,
            None => timeouts += 1,
        }
    };
    assert_eq!(verdict, ServeProbe::Unresponsive);
    assert_eq!(timeouts, 2);
    assert!(matches!(probe_error(verdict), Some(DelegateError::ServeUnresponsive)));
}

#[test]
fn a_refused_connection_is_not_tried_again() {
    assert_eq!(after_probe(0, ProbeEvent::Refused, 3), Some(ServeProbe::Down));
    assert!(matches!(probe_error(ServeProbe::Down), Some(DelegateError::ServeDown)));
}

#[test]
fn a_busy_server_is_waited_for() {
    let mut attempts = 0;
    while serve_delegate_with_warmup_wait(attempts, Reception::Busy) == Waiting::Retry {
        attempts += 1;
    }
    assert_eq!(attempts, 6);
    for reception in [Reception::Accepted, Reception::Down, Reception::Failed] {
        assert_eq!(serve_delegate_with_warmup_wait(0, reception), Waiting::Return);
    }
}

#[test]
fn no_index_is_made_beside_a_busy_server() {
    assert!(matches!(index_way(None, "index"), IndexWay::Delegated));
    assert!(matches!(index_way(Some(DelegateError::ServeDown), "index"), IndexWay::Local));
    match index_way(Some(DelegateError::ServeUnresponsive), "index") {
        IndexWay::Refused(m) => assert_eq!(
            m,
            "codesearch serve is running but did not become ready within the wait budget (~2 min). \
             Stop serve first to index locally, or wait for it to finish warming up."
        ),
        _ => panic!("a busy server must be waited for"),
    }
    match index_way(Some(DelegateError::Failed("why".to_string())), "index") {
        IndexWay::LocalWithWarning(m) => assert_eq!(m, "why"),
        _ => panic!("expected a warning"),
    }
}

#[test]
fn errors_in_words() {
    assert_eq!(DelegateError::ServeDown.to_string(), "serve is not running");
    assert_eq!(
        DelegateError::ServeUnresponsive.to_string(),
        "serve is running but did not respond in time (busy)"
    );
    assert_eq!(DelegateError::Failed("x".to_string()).to_string(), "x");
}

fn reply(status: u16, body: &str) -> Result<HttpReply, String> {
    Ok(HttpReply { status, body: body.to_string() })
}

fn failure(action: ReindexAction) -> String {
    match action {
        ReindexAction::Fail(e) => e.to_string(),
        _ => panic!("expected a failure"),
    }
}

#[test]
fn reindexing_recovers_from_an_unknown_alias() {
    assert!(matches!(after_reindex(ReindexStage::Reindex, reply(202, ""), "a"), ReindexAction::Accepted));
    assert!(matches!(
        after_reindex(ReindexStage::Reindex, reply(404, "unknown"), "a"),
        ReindexAction::Next(ReindexStage::Register)
    ));
    assert!(matches!(after_reindex(ReindexStage::Register, reply(202, ""), "a"), ReindexAction::Accepted));
    assert!(matches!(
        after_reindex(ReindexStage::Reindex, reply(500, "Database not found at x"), "a"),
        ReindexAction::Next(ReindexStage::Recreate)
    ));
    assert!(matches!(
        after_reindex(ReindexStage::Recreate, reply(409, "conflict"), "a"),
        ReindexAction::Next(ReindexStage::Force)
    ));
    assert!(matches!(after_reindex(ReindexStage::Force, reply(200, ""), "a"), ReindexAction::Accepted));
}

#[test]
fn reindexing_tells_why_it_failed() {
    assert_eq!(
        failure(after_reindex(ReindexStage::Reindex, Err("timeout".to_string()), "a")),
        "reindex POST failed: timeout"
    );
    assert_eq!(
        failure(after_reindex(ReindexStage::Register, Err("timeout".to_string()), "a")),
        "auto-register POST /repos failed: timeout"
    );
    assert_eq!(
        failure(after_reindex(ReindexStage::Force, Err("timeout".to_string()), "a")),
        "force reindex POST failed: timeout"
    );
    assert_eq!(
        failure(after_reindex(ReindexStage::Reindex, reply(500, "boom"), "a")),
        "serve returned 500 Internal Server Error for alias 'a': boom"
    );
    assert_eq!(
        failure(after_reindex(ReindexStage::Register, reply(409, "taken"), "a")),
        "auto-register returned 409 Conflict for alias 'a': taken"
    );
    assert_eq!(
        failure(after_reindex(ReindexStage::Recreate, reply(404, "x"), "a")),
        "auto-register returned 404 Not Found for alias 'a': x"
    );
    assert_eq!(
        failure(after_reindex(ReindexStage::Force, reply(418, "x"), "a")),
        "force reindex returned 418 I'm a teapot for alias 'a': x"
    );
    assert!(failure(after_reindex(ReindexStage::Reindex, reply(401, ""), "a")).contains(SERVE_API_KEY_ENV));
}

#[test]
fn adding_through_the_server() {
    assert_eq!(after_add(reply(202, "{}"), Some("x".to_string()), "/p/dir").unwrap(), "x");
    assert_eq!(after_add(reply(202, "{}"), None, "/p/dir").unwrap(), "dir");
    assert_eq!(after_add(reply(202, "{}"), None, "/").unwrap(), "unknown");
    assert_eq!(
        after_add(reply(409, "taken"), None, "/p").unwrap_err().to_string(),
        "serve returned 409 Conflict: taken"
    );
    assert_eq!(
        after_add(Err("down".to_string()), None, "/p").unwrap_err().to_string(),
        "add POST failed: down"
    );
    assert!(after_add(reply(401, ""), None, "/p").unwrap_err().to_string().contains("API key"));
}

#[test]
fn the_server_names_what_is_added() {
    assert_eq!(added_alias(reply(202, "{\"alias\": \"api\"}"), "/p/dir").unwrap(), "api");
    assert_eq!(added_alias(reply(201, "{\"alias\": 3}"), "/p/dir").unwrap(), "dir");
    assert_eq!(added_alias(reply(200, "created"), "/p/dir").unwrap(), "dir");
    assert_eq!(
        added_alias(reply(409, "{\"alias\": \"api\"}"), "/p").unwrap_err().to_string(),
        "serve returned 409 Conflict: {\"alias\": \"api\"}"
    );
    assert_eq!(
        added_alias(Err("down".to_string()), "/p").unwrap_err().to_string(),
        "add POST failed: down"
    );
    assert!(added_alias(reply(401, ""), "/p").unwrap_err().to_string().contains("API key"));
}

#[test]
fn the_first_reception_that_is_not_busy_is_returned() {
    let returned = |receptions: &[Reception]| {
        receptions
            .iter()
            .enumerate()
            .position(|(n, r)| serve_delegate_with_warmup_wait(n as u32, *r) == Waiting::Return)
    };
    assert_eq!(returned(&[Reception::Busy; 9]), Some(6));
    assert_eq!(returned(&[Reception::Busy; 6]), None);
    let mut late = [Reception::Busy; 7];
    late[3] = Reception::Accepted;
    assert_eq!(returned(&late), Some(3));
}

#[test]
fn removing_through_the_server() {
    assert!(health_for_removal(reply(200, ""), "http://h").is_ok());
    assert_eq!(
        health_for_removal(reply(503, ""), "http://h").unwrap_err(),
        "serve health check returned 503 Service Unavailable"
    );
    assert_eq!(
        health_for_removal(Err("refused".to_string()), "http://h").unwrap_err(),
        "serve not reachable at http://h (refused). Is 'codesearch serve' running?"
    );
    assert!(health_for_removal(reply(401, ""), "http://h").unwrap_err().contains("401"));
    assert!(after_removal(reply(204, ""), "a").is_ok());
    assert_eq!(
        after_removal(reply(404, "none"), "a").unwrap_err(),
        "serve returned 404 Not Found for alias 'a': none"
    );
    assert_eq!(after_removal(Err("x".to_string()), "a").unwrap_err(), "delete failed: x");
}

#[test]
fn aliases_by_path() {
    let aliases = vec!["one".to_string(), "two".to_string()];
    let keys = vec![path_key(r"C:\Work\One"), path_key("/srv/Two")];
    assert_eq!(keys[0], "c:/work/one");
    let two = path_key("/SRV/two");
    assert_eq!(alias_for_reindex(&aliases, &keys, &two, "/SRV/two"), "two");
    let other = path_key("/srv/three");
    assert_eq!(alias_for_reindex(&aliases, &keys, &other, "/srv/three"), "three");
    assert_eq!(alias_for_removal(&aliases, &keys, &two, "/SRV/two").unwrap(), "two");
    assert_eq!(
        alias_for_removal(&aliases, &keys, &other, "/srv/three").unwrap_err(),
        "path '/srv/three' not found in repos.json"
    );
}
