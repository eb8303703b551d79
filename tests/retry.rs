use codex_monitor::json::Json;
use codex_monitor::retry::{
    apply_nested_error_payload, can_retry_turn_start_error, extract_response_error_message,
    extract_turn_error_details, is_retry_safe_turn_start_error, normalize_turn_error_code,
    set_turn_error_will_retry, RetryContexts, TurnErrorDetails,
};

fn s(x: &str) -> Json {
    Json::Str(x.to_string())
}

fn obj(pairs: Vec<(&str, Json)>) -> Json {
    Json::Object(pairs.into_iter().map(|(k, v)| (k.to_string(), v)).collect())
}

fn from_serde(v: serde_json::Value) -> Json {
    match v {
        serde_json::Value::Null => Json::Null,
        serde_json::Value::Bool(b) => Json::Bool(b),
        serde_json::Value::Number(n) => match (n.as_u64(), n.as_i64()) {
            (Some(u), _) => Json::UInt(u),
            (None, Some(i)) => Json::Int(i),
            _ => Json::Real(n.to_string()),
        },
        serde_json::Value::String(t) => Json::Str(t),
        serde_json::Value::Array(items) => Json::Array(items.into_iter().map(from_serde).collect()),
        serde_json::Value::Object(map) => {
            Json::Object(map.into_iter().map(|(k, v)| (k, from_serde(v))).collect())
        }
    }
}

fn details_of(value: &Json) -> Option<TurnErrorDetails> {
    let raw = extract_turn_error_details(value)?;
    let parsed = raw
        .message
        .as_deref()
        .and_then(|m| serde_json::from_str::<serde_json::Value>(m).ok())
        .map(from_serde);
    Some(apply_nested_error_payload(raw, parsed.as_ref()))
}

#[test]
fn extract_turn_error_details_reads_nested_json_error_payload() {
    let value = obj(vec![
        ("method", s("error")),
        (
            "params",
            obj(vec![
                ("turnId", s("turn-1")),
                (
                    "error",
                    obj(vec![(
                        "message",
                        s("{\"error\":{\"type\":\"invalid_request_error\",\"code\":\"websocket_connection_limit_reached\",\"message\":\"Responses websocket connection limit reached (60 minutes). Create a new websocket connection to continue.\"}}"),
                    )]),
                ),
            ]),
        ),
    ]);
    let details = details_of(&value).expect("details");
    assert_eq!(details.code.as_deref(), Some("websocket_connection_limit_reached"));
    assert_eq!(
        details.message.as_deref(),
        Some("Responses websocket connection limit reached (60 minutes). Create a new websocket connection to continue.")
    );
    assert!(!details.will_retry);
}

#[test]
fn can_retry_turn_start_error_retries_only_retry_safe_cases() {
    let safe = TurnErrorDetails {
        code: Some("websocket_connection_limit_reached".to_string()),
        message: Some(
            "Responses websocket connection limit reached (60 minutes). Create a new websocket connection to continue."
                .to_string(),
        ),
        will_retry: false,
    };
    assert!(can_retry_turn_start_error(&safe, true, 0));
    assert!(!can_retry_turn_start_error(&safe, false, 0));
    assert!(!can_retry_turn_start_error(&safe, true, 1));

    let not_safe = TurnErrorDetails {
        code: Some("invalid_request_error".to_string()),
        message: Some("Request failed.".to_string()),
        will_retry: false,
    };
    assert!(!can_retry_turn_start_error(&not_safe, true, 0));

    let already_retrying = TurnErrorDetails {
        code: Some("websocket_connection_limit_reached".to_string()),
        message: Some("Websocket issue.".to_string()),
        will_retry: true,
    };
    assert!(!can_retry_turn_start_error(&already_retrying, true, 0));
}

#[test]
fn set_turn_error_will_retry_sets_params_field() {
    let mut value = obj(vec![
        ("method", s("error")),
        (
            "params",
            obj(vec![
                ("threadId", s("thread-1")),
                ("turnId", s("turn-1")),
                ("error", obj(vec![("message", s("boom"))])),
            ]),
        ),
    ]);
    set_turn_error_will_retry(&mut value, true);
    let flag = value
        .get("params")
        .and_then(|params| params.get("willRetry"))
        .and_then(|will_retry| will_retry.as_bool());
    assert_eq!(flag, Some(true));
}

#[test]
fn set_turn_error_will_retry_replaces_an_existing_flag() {
    let mut value = obj(vec![("params", obj(vec![("willRetry", Json::Bool(true))]))]);
    set_turn_error_will_retry(&mut value, false);
    let params = value.get("params").unwrap();
    assert_eq!(params.get("willRetry").and_then(|v| v.as_bool()), Some(false));
    let mut bare = obj(vec![("method", s("error"))]);
    set_turn_error_will_retry(&mut bare, true);
    assert!(bare.get("params").is_none());
}

#[test]
fn extract_response_error_message_reads_string_and_object_messages() {
    let string_error = obj(vec![("error", s("boom"))]);
    assert_eq!(extract_response_error_message(&string_error).as_deref(), Some("boom"));
    let object_error = obj(vec![("error", obj(vec![("message", s("nope"))]))]);
    assert_eq!(extract_response_error_message(&object_error).as_deref(), Some("nope"));
    let blank = obj(vec![("error", s("   "))]);
    assert_eq!(extract_response_error_message(&blank), None);
    assert_eq!(extract_response_error_message(&obj(vec![("result", Json::Null)])), None);
}

#[test]
fn nested_error_code_takes_precedence() {
    let value = obj(vec![(
        "params",
        obj(vec![(
            "error",
            obj(vec![
                ("code", s("outer_code")),
                ("message", s("{\"error\":{\"code\":\"websocket_closed\",\"message\":\"inner\"}}")),
            ]),
        )]),
    )]);
    let details = details_of(&value).expect("details");
    assert_eq!(details.code.as_deref(), Some("websocket_closed"));
    assert_eq!(details.message.as_deref(), Some("inner"));
}

#[test]
fn normalize_turn_error_code_trims_and_lowercases() {
    assert_eq!(normalize_turn_error_code(Some("  WebSocket_Closed ")), Some("websocket_closed".to_string()));
    assert_eq!(normalize_turn_error_code(Some("   ")), None);
    assert_eq!(normalize_turn_error_code(None), None);
}

#[test]
fn retry_safety_by_code_or_message() {
    let by_message = TurnErrorDetails {
        code: None,
        message: Some("WebSocket closed; please create a new WebSocket connection".to_string()),
        will_retry: false,
    };
    assert!(is_retry_safe_turn_start_error(&by_message));
    let half = TurnErrorDetails {
        code: None,
        message: Some("websocket closed".to_string()),
        will_retry: false,
    };
    assert!(!is_retry_safe_turn_start_error(&half));
}

#[test]
fn error_details_fall_back_to_params_message_and_flag() {
    let value = obj(vec![(
        "params",
        obj(vec![
            ("will_retry", Json::Bool(true)),
            ("message", s("  plain failure  ")),
            ("error", obj(vec![("errorCode", s(" Rate_Limited "))])),
        ]),
    )]);
    let details = details_of(&value).expect("details");
    assert_eq!(details.code.as_deref(), Some("rate_limited"));
    assert_eq!(details.message.as_deref(), Some("plain failure"));
    assert!(details.will_retry);
    assert!(extract_turn_error_details(&obj(vec![("params", s("x"))])).is_none());
}

fn turn_start_response(turn: &str) -> Json {
    obj(vec![("result", obj(vec![("turn", obj(vec![("id", s(turn))]))]))])
}

#[test]
fn retry_records_one_per_thread_with_one_retry() {
    let mut retries = RetryContexts::new();
    let params = obj(vec![("threadId", s("T"))]);
    retries.register_turn_start_retry_context("ws", &params, &turn_start_response("U1"));
    retries.register_turn_start_retry_context("ws", &params, &turn_start_response("U2"));
    assert_eq!(retries.len(), 1);
    assert!(retries.get_turn_start_retry_context("U1").is_none());
    let first = retries.reserve_turn_start_retry("U2").expect("first retry");
    assert_eq!(first.attempts, 1);
    assert_eq!(first.thread_id, "T");
    assert!(retries.reserve_turn_start_retry("U2").is_none());
    assert_eq!(retries.get_turn_start_retry_context("U2").unwrap().attempts, 1);
    retries.clear_turn_start_retry_contexts_for_thread("T");
    assert_eq!(retries.len(), 0);
}

#[test]
fn retry_record_needs_turn_and_thread_ids() {
    let mut retries = RetryContexts::new();
    retries.register_turn_start_retry_context("ws", &obj(vec![]), &turn_start_response("U"));
    retries.register_turn_start_retry_context("ws", &obj(vec![("threadId", s("T"))]), &obj(vec![]));
    assert_eq!(retries.len(), 0);
}
