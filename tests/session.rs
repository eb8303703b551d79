use codex_monitor::json::Json;
use codex_monitor::table::Table;
use codex_monitor::session::{
    connected_event, inbound_cwds, notification_message, parse_error_event, stderr_event, Delivery,
    InboundOutcome, SessionState,
};

fn s(x: &str) -> Json {
    Json::Str(x.to_string())
}

fn obj(pairs: Vec<(&str, Json)>) -> Json {
    Json::Object(pairs.into_iter().map(|(k, v)| (k.to_string(), v)).collect())
}

fn from_serde(v: serde_json::Value) -> Json {
    match v {
        serde_json::Value::Null => Json::Null,
        serde_json::Value::Bool(b) => Json::Bool(b),
        serde_json::Value::Number(n) => match (n.as_u64(), n.as_i64()) {
            (Some(u), _) => Json::UInt(u),
            (None, Some(i)) => Json::Int(i),
            _ => Json::Real(n.to_string()),
        },
        serde_json::Value::String(t) => Json::Str(t),
        serde_json::Value::Array(items) => Json::Array(items.into_iter().map(from_serde).collect()),
        serde_json::Value::Object(map) => {
            Json::Object(map.into_iter().map(|(k, v)| (k, from_serde(v))).collect())
        }
    }
}

fn text_at<'a>(value: &'a Json, path: &[&str]) -> Option<&'a str> {
    let mut cur = value;
    for key in path {
        cur = cur.get(key)?;
    }
    cur.as_str().map(|t| t.as_str())
}

fn emitted_to(outcome: &InboundOutcome) -> Option<String> {
    match &outcome.delivery {
        Delivery::Emit { workspace_id, .. } => Some(workspace_id.clone()),
        _ => None,
    }
}

fn two_workspace_session() -> SessionState {
    let mut session = SessionState::new("A".to_string(), "/tmp/a".to_string());
    session.register_workspace_with_path("B", Some("/tmp/b"), None);
    session
}

#[test]
fn request_is_answered_and_tracking_cleared() {
    let mut session = SessionState::new("A".to_string(), "/tmp/a".to_string());
    let (id, line) = session
        .begin_request("A", "initialize", obj(vec![]))
        .expect("an id");
    assert_eq!(id, 1);
    assert_eq!(text_at(&line, &["method"]), Some("initialize"));
    assert_eq!(session.pending.len(), 1);
    assert_eq!(session.request_context.len(), 1);
    let reply = obj(vec![("id", Json::UInt(1)), ("result", obj(vec![("ok", Json::Bool(true))]))]);
    let outcome = session.handle_inbound(reply, None, &Table::new());
    match outcome.delivery {
        Delivery::Response { id, value } => {
            assert_eq!(id, 1);
            let ok = value.get("result").and_then(|r| r.get("ok")).and_then(|v| v.as_bool());
            assert_eq!(ok, Some(true));
        }
        _ => panic!("expected a response"),
    }
    assert!(session.pending.is_empty());
    assert!(session.request_context.is_empty());
}

#[test]
fn ids_increase_and_abandoned_requests_are_forgotten() {
    let mut session = SessionState::new("A".to_string(), "/tmp/a".to_string());
    let (first, _) = session.begin_request("A", "x", obj(vec![])).unwrap();
    let (second, _) = session.begin_request("A", "y", obj(vec![])).unwrap();
    assert!(second > first);
    session.abandon_request(first);
    assert_eq!(session.pending, vec![second]);
    assert_eq!(session.request_context.len(), 1);
    let canceled = session.close();
    assert_eq!(canceled, vec![second]);
    assert!(session.pending.is_empty() && session.request_context.is_empty());
}

#[test]
fn started_thread_routes_by_cwd_across_workspaces() {
    let mut session = two_workspace_session();
    let started = obj(vec![
        ("method", s("thread/started")),
        ("params", obj(vec![("thread", obj(vec![("id", s("T")), ("cwd", s("/tmp/b/sub"))]))])),
    ]);
    let outcome = session.handle_inbound(started, None, &Table::new());
    assert_eq!(emitted_to(&outcome), Some("B".to_string()));
    let completed = obj(vec![
        ("method", s("turn/completed")),
        ("params", obj(vec![("threadId", s("T")), ("turnId", s("U"))])),
    ]);
    let outcome = session.handle_inbound(completed, None, &Table::new());
    assert_eq!(emitted_to(&outcome), Some("B".to_string()));
}

#[test]
fn ambiguous_thread_event_is_dropped() {
    let mut session = two_workspace_session();
    let completed = obj(vec![("method", s("turn/completed")), ("params", obj(vec![("threadId", s("T"))]))]);
    let outcome = session.handle_inbound(completed, None, &Table::new());
    assert!(matches!(outcome.delivery, Delivery::Dropped));
}

#[test]
fn unplaceable_started_thread_drops_or_goes_to_owner() {
    let started = || {
        obj(vec![
            ("method", s("thread/started")),
            (
                "params",
                obj(vec![(
                    "thread",
                    obj(vec![
                        ("id", s("T")),
                        ("cwd", s("/elsewhere")),
                        ("source", obj(vec![("thread_spawn", obj(vec![("parent_thread_id", s("P"))]))])),
                    ]),
                )]),
            ),
        ])
    };
    let mut two = two_workspace_session();
    assert!(matches!(two.handle_inbound(started(), None, &Table::new()).delivery, Delivery::Dropped));
    let mut one = SessionState::new("A".to_string(), "/tmp/a".to_string());
    assert_eq!(emitted_to(&one.handle_inbound(started(), None, &Table::new())), Some("A".to_string()));
}

#[test]
fn request_thread_mapping_routes_later_notifications() {
    let mut session = two_workspace_session();
    let _ = session.begin_request("B", "turn/start", obj(vec![("threadId", s("T"))])).unwrap();
    let note = obj(vec![("method", s("item/completed")), ("params", obj(vec![("threadId", s("T"))]))]);
    assert_eq!(emitted_to(&session.handle_inbound(note, None, &Table::new())), Some("B".to_string()));
}

#[test]
fn thread_list_maps_threads_and_replay_keeps_the_map() {
    let mut session = two_workspace_session();
    let (id, _) = session.begin_request("A", "thread/list", obj(vec![])).unwrap();
    let listing = |id: u64| {
        obj(vec![
            ("id", Json::UInt(id)),
            ("result", obj(vec![("data", Json::Array(vec![obj(vec![("id", s("T")), ("cwd", s("/tmp/b/x"))])]))])),
        ])
    };
    let _ = session.handle_inbound(listing(id), None, &Table::new());
    assert_eq!(session.thread_workspace.get("T").cloned(), Some("B".to_string()));
    let before = session.thread_workspace.entries.len();
    let (id2, _) = session.begin_request("A", "thread/list", obj(vec![])).unwrap();
    let _ = session.handle_inbound(listing(id2), None, &Table::new());
    assert_eq!(session.thread_workspace.get("T").cloned(), Some("B".to_string()));
    assert_eq!(session.thread_workspace.entries.len(), before);
}

#[test]
fn global_notification_is_broadcast_to_every_workspace() {
    let mut session = two_workspace_session();
    let note = obj(vec![("method", s("account/updated")), ("params", obj(vec![]))]);
    match session.handle_inbound(note, None, &Table::new()).delivery {
        Delivery::Broadcast { workspace_ids, .. } => {
            assert_eq!(workspace_ids, vec!["A".to_string(), "B".to_string()]);
        }
        _ => panic!("expected a broadcast"),
    }
}

#[test]
fn background_thread_notifications_go_to_its_callback() {
    let mut session = SessionState::new("A".to_string(), "/tmp/a".to_string());
    session.add_background_thread("T");
    let note = obj(vec![("method", s("item/completed")), ("params", obj(vec![("threadId", s("T"))]))]);
    match session.handle_inbound(note, None, &Table::new()).delivery {
        Delivery::Background { thread_id, .. } => assert_eq!(thread_id, "T"),
        _ => panic!("expected a background delivery"),
    }
}

#[test]
fn archived_thread_loses_its_mapping() {
    let mut session = two_workspace_session();
    let _ = session.begin_request("B", "turn/start", obj(vec![("threadId", s("T"))])).unwrap();
    let archived = obj(vec![("method", s("thread/archived")), ("params", obj(vec![("threadId", s("T"))]))]);
    assert_eq!(emitted_to(&session.handle_inbound(archived, None, &Table::new())), Some("B".to_string()));
    assert!(session.thread_workspace.get("T").is_none());
}

const LIMIT_MESSAGE: &str = "{\"error\":{\"code\":\"websocket_connection_limit_reached\",\"message\":\"Limit reached. Create a new websocket connection to continue.\"}}";

fn limit_error() -> Json {
    obj(vec![
        ("method", s("error")),
        ("params", obj(vec![("turnId", s("U")), ("error", obj(vec![("message", s(LIMIT_MESSAGE))]))])),
    ])
}

fn nested_payload() -> Option<Json> {
    serde_json::from_str::<serde_json::Value>(LIMIT_MESSAGE).ok().map(from_serde)
}

#[test]
fn turn_start_error_is_retried_once_and_reports_failure() {
    let mut session = SessionState::new("A".to_string(), "/tmp/a".to_string());
    let params = || obj(vec![("threadId", s("T"))]);
    let (id, _) = session.begin_request("A", "turn/start", params()).unwrap();
    let response = obj(vec![("id", Json::UInt(id)), ("result", obj(vec![("turn", obj(vec![("id", s("U"))]))]))]);
    let answered = session.handle_inbound(response, None, &Table::new());
    let response_value = match answered.delivery {
        Delivery::Response { value, .. } => value,
        _ => panic!("expected a response"),
    };
    session.after_response("A", "turn/start", &params(), &response_value);
    assert!(session.retries.get_turn_start_retry_context("U").is_some());

    let outcome = session.handle_inbound(limit_error(), nested_payload(), &Table::new());
    let retry = outcome.retry.expect("a retry");
    assert_eq!(retry.turn_id, "U");
    assert_eq!(retry.workspace_id, "A");
    assert_eq!(text_at(&retry.params, &["threadId"]), Some("T"));
    match &outcome.delivery {
        Delivery::Emit { workspace_id, value } => {
            assert_eq!(workspace_id, "A");
            let flag = value.get("params").and_then(|p| p.get("willRetry")).and_then(|v| v.as_bool());
            assert_eq!(flag, Some(true));
        }
        _ => panic!("expected the error to be emitted"),
    }

    let second = session.handle_inbound(limit_error(), nested_payload(), &Table::new());
    assert!(second.retry.is_none());

    let failure = session
        .finish_turn_start_retry(&retry, Err("connection refused".to_string()))
        .expect("a terminal error");
    assert_eq!(
        text_at(&failure, &["params", "error", "message"]),
        Some("Automatic retry failed: connection refused")
    );
    let flag = failure.get("params").and_then(|p| p.get("willRetry")).and_then(|v| v.as_bool());
    assert_eq!(flag, Some(false));
    assert!(session.retries.get_turn_start_retry_context("U").is_none());
}

#[test]
fn successful_retry_reports_nothing_until_the_turn_completes() {
    let mut session = SessionState::new("A".to_string(), "/tmp/a".to_string());
    let params = obj(vec![("threadId", s("T"))]);
    let response = obj(vec![("result", obj(vec![("turnId", s("U"))]))]);
    session.after_response("A", "turn/start", &params, &response);
    let outcome = session.handle_inbound(limit_error(), nested_payload(), &Table::new());
    let retry = outcome.retry.expect("a retry");
    assert!(session.finish_turn_start_retry(&retry, Ok(obj(vec![("result", obj(vec![]))]))).is_none());
    let completed = obj(vec![("method", s("turn/completed")), ("params", obj(vec![("turnId", s("U"))]))]);
    let _ = session.handle_inbound(completed, None, &Table::new());
    assert!(session.retries.get_turn_start_retry_context("U").is_none());
}

#[test]
fn session_event_builders() {
    assert_eq!(text_at(&parse_error_event("bad", "{"), &["method"]), Some("codex/parseError"));
    assert_eq!(text_at(&parse_error_event("bad", "{"), &["params", "raw"]), Some("{"));
    assert!(stderr_event("   ").is_none());
    assert_eq!(text_at(&stderr_event("oops").unwrap(), &["params", "message"]), Some("oops"));
    assert_eq!(text_at(&connected_event("A"), &["params", "workspaceId"]), Some("A"));
    assert!(notification_message("initialized", None).get("params").is_none());
}

#[test]
fn canonical_directories_are_matched_against_roots() {
    let mut session = SessionState::new("A".to_string(), "/private/tmp/a".to_string());
    session.register_workspace_with_path("B", Some("/tmp/b"), Some("/private/tmp/b"));
    let started = obj(vec![
        ("method", s("thread/started")),
        ("params", obj(vec![("thread", obj(vec![("id", s("T")), ("cwd", s("/tmp/b/sub"))]))])),
    ]);
    let cwds = inbound_cwds(&started);
    assert_eq!(cwds, vec!["/tmp/b/sub".to_string()]);
    let mut canonical = Table::new();
    canonical.insert("/tmp/b/sub".to_string(), "/private/tmp/b/sub".to_string());
    let outcome = session.handle_inbound(started, None, &canonical);
    assert_eq!(emitted_to(&outcome), Some("B".to_string()));
}

#[test]
fn unregistering_a_workspace_drops_its_threads() {
    let mut session = two_workspace_session();
    let _ = session.begin_request("B", "turn/start", obj(vec![("threadId", s("T"))])).unwrap();
    assert_eq!(session.thread_workspace.get("T").cloned(), Some("B".to_string()));
    session.unregister_workspace("B");
    assert!(session.thread_workspace.get("T").is_none());
    assert_eq!(session.workspace_ids_snapshot(), vec!["A".to_string()]);
}

#[test]
fn server_request_with_an_id_does_not_cancel_a_pending_request() {
    let mut session = SessionState::new("A".to_string(), "/tmp/a".to_string());
    let (id, _) = session.begin_request("A", "x", obj(vec![])).unwrap();
    let request = obj(vec![("id", Json::UInt(id)), ("method", s("item/approval")), ("params", obj(vec![]))]);
    let outcome = session.handle_inbound(request, None, &Table::new());
    assert_eq!(emitted_to(&outcome), Some("A".to_string()));
    assert_eq!(session.pending, vec![id]);
}

#[test]
fn non_retried_error_drops_the_turn_record() {
    let mut session = SessionState::new("A".to_string(), "/tmp/a".to_string());
    session.after_response("A", "turn/start", &obj(vec![("threadId", s("T"))]), &obj(vec![("result", obj(vec![("turnId", s("U"))]))]));
    let plain = obj(vec![
        ("method", s("error")),
        ("params", obj(vec![("turnId", s("U")), ("error", obj(vec![("message", s("bad request"))]))])),
    ]);
    let outcome = session.handle_inbound(plain, None, &Table::new());
    assert!(outcome.retry.is_none());
    assert!(session.retries.get_turn_start_retry_context("U").is_none());
}
