use codex_monitor::audio::mime_to_extension;
use codex_monitor::json::Json;
use codex_monitor::launch::{
    check_installation_outcome, join_path, merge_path_entries, posix_extra_dirs, resolve_codex_bin,
    windows_extra_dirs,
};
use codex_monitor::push::{
    clamp_preview, default_client_kind, default_true, fcm_message, has_non_afk_desktop_for_workspace,
    make_dedupe_key, make_thread_key, normalize_client_kind, normalize_optional_non_empty,
    normalize_platform, prune_stale_entries, redact_token_preview, relay_retry_delay_ms,
    PersistedPushState, PlatformError, PresenceHeartbeatInput, PushBrokerState,
    PushDeviceRegistrationInput, PushEvent, PushKind, PushNotificationConfigPatch,
};
use codex_monitor::text::decimal_string;

fn s(x: &str) -> Json {
    Json::Str(x.to_string())
}

fn obj(pairs: Vec<(&str, Json)>) -> Json {
    Json::Object(pairs.into_iter().map(|(k, v)| (k.to_string(), v)).collect())
}

fn empty_broker() -> PushBrokerState {
    PushBrokerState::load(PersistedPushState { relay_url: None, relay_auth_token: None, devices: vec![] })
}

fn device(id: &str) -> PushDeviceRegistrationInput {
    PushDeviceRegistrationInput {
        device_id: id.to_string(),
        platform: "Android".to_string(),
        token: "token-abcdefghij".to_string(),
        label: None,
    }
}

fn heartbeat(afk: bool, workspaces: Vec<&str>) -> PresenceHeartbeatInput {
    PresenceHeartbeatInput {
        client_id: "desk".to_string(),
        client_kind: default_client_kind(),
        platform: None,
        is_supported: default_true(),
        is_focused: true,
        is_afk: afk,
        active_workspace_ids: workspaces.into_iter().map(String::from).collect(),
    }
}

fn completed(thread: &str, turn: &str) -> Json {
    obj(vec![
        ("method", s("turn/completed")),
        ("params", obj(vec![("threadId", s(thread)), ("turnId", s(turn))])),
    ])
}

#[test]
fn push_is_gated_by_attentive_desktop_presence() {
    let mut broker = empty_broker();
    broker.register_device(device("phone"), 1_000).unwrap();
    broker.record_presence(heartbeat(false, vec!["A"]), 100_000).unwrap();
    assert!(broker.handle_app_server_event("A", None, &completed("T", "U1"), 100_100).is_none());
    broker.record_presence(heartbeat(true, vec!["A"]), 100_200).unwrap();
    let delivery = broker
        .handle_app_server_event("A", None, &completed("T", "U2"), 100_300)
        .expect("a delivery");
    assert_eq!(delivery.devices.len(), 1);
    assert_eq!(delivery.title, "Agent Complete");
    assert_eq!(delivery.body, "Your agent finished a task.");
}

#[test]
fn presence_of_another_workspace_does_not_hold_back() {
    let mut broker = empty_broker();
    broker.record_presence(heartbeat(false, vec!["B"]), 10_000).unwrap();
    assert!(!has_non_afk_desktop_for_workspace(&broker, "A"));
    assert!(has_non_afk_desktop_for_workspace(&broker, "B"));
    broker.record_presence(heartbeat(false, vec![]), 10_001).unwrap();
    assert!(has_non_afk_desktop_for_workspace(&broker, "A"));
}

#[test]
fn dedupe_suppresses_repeats_within_the_window() {
    let mut broker = empty_broker();
    broker.register_device(device("phone"), 0).unwrap();
    assert!(broker.handle_app_server_event("A", None, &completed("T", "U"), 100_000).is_some());
    assert!(broker.handle_app_server_event("A", None, &completed("T", "U"), 104_999).is_none());
    assert!(broker.handle_app_server_event("A", None, &completed("T", "U"), 105_001).is_some());
}

#[test]
fn a_never_sent_push_goes_out_early_in_the_clock() {
    let mut broker = empty_broker();
    broker.register_device(device("phone"), 0).unwrap();
    assert!(broker.handle_app_server_event("A", None, &completed("T", "U"), 0).is_some());
}

#[test]
fn stale_presence_and_stamps_are_pruned() {
    let mut broker = empty_broker();
    broker.record_presence(heartbeat(false, vec![]), 1_000).unwrap();
    prune_stale_entries(&mut broker, 46_000);
    assert_eq!(broker.presence_by_client.entries.len(), 1);
    prune_stale_entries(&mut broker, 46_001);
    assert_eq!(broker.presence_by_client.entries.len(), 0);
}

#[test]
fn preview_is_clamped_to_two_hundred_characters() {
    let long = "x".repeat(512);
    let preview = clamp_preview(long);
    assert_eq!(preview.chars().count(), 201);
    assert!(preview.ends_with('…'));
    assert_eq!(clamp_preview("  short  ".to_string()), "short");
    assert_eq!(clamp_preview("   ".to_string()), "");
}

#[test]
fn agent_message_becomes_the_completion_preview_once() {
    let mut broker = empty_broker();
    broker.register_device(device("phone"), 0).unwrap();
    let item = obj(vec![
        ("method", s("item/completed")),
        (
            "params",
            obj(vec![
                ("threadId", s("T")),
                ("item", obj(vec![("type", s("agentMessage")), ("text", s(&"y".repeat(512)))])),
            ]),
        ),
    ]);
    assert!(broker.handle_app_server_event("A", Some("Proj".to_string()), &item, 10_000).is_none());
    let delivery = broker
        .handle_app_server_event("A", Some("Proj".to_string()), &completed("T", "U"), 10_001)
        .expect("a delivery");
    assert_eq!(delivery.body.chars().count(), 201);
    assert_eq!(delivery.title, "Agent Complete — Proj");
    let next = broker
        .handle_app_server_event("A", None, &completed("T", "V"), 20_000)
        .expect("a delivery");
    assert_eq!(next.body, "Your agent finished a task.");
}

#[test]
fn empty_agent_message_keeps_the_default_preview() {
    let mut broker = empty_broker();
    broker.register_device(device("phone"), 0).unwrap();
    let item = obj(vec![
        ("method", s("item/completed")),
        ("params", obj(vec![("threadId", s("T")), ("item", obj(vec![("type", s("agentMessage")), ("text", s(""))]))])),
    ]);
    let _ = broker.handle_app_server_event("A", None, &item, 10_000);
    let delivery = broker.handle_app_server_event("A", None, &completed("T", "U"), 10_001).unwrap();
    assert_eq!(delivery.body, "Your agent finished a task.");
}

#[test]
fn turn_error_pushes_unless_the_server_retries() {
    let mut broker = empty_broker();
    broker.register_device(device("phone"), 0).unwrap();
    let retrying = obj(vec![
        ("method", s("error")),
        ("params", obj(vec![("threadId", s("T")), ("willRetry", Json::Bool(true))])),
    ]);
    assert!(broker.handle_app_server_event("A", None, &retrying, 10_000).is_none());
    let failed = obj(vec![
        ("method", s("error")),
        ("params", obj(vec![("threadId", s("T")), ("error", obj(vec![("message", s(" boom "))]))])),
    ]);
    let delivery = broker.handle_app_server_event("A", Some("W".to_string()), &failed, 10_001).unwrap();
    assert_eq!(delivery.title, "Agent Error — W");
    assert_eq!(delivery.body, "boom");
}

#[test]
fn register_then_unregister_restores_the_state_file() {
    let mut broker = empty_broker();
    broker.register_device(device("first"), 5).unwrap();
    let before = broker.persisted();
    let registered = broker.register_device(device("  second "), 6).unwrap();
    assert_eq!(registered.device_id, "second");
    assert_eq!(registered.platform, "android");
    assert!(registered.enabled);
    broker.unregister_device("second".to_string()).unwrap();
    let after = broker.persisted();
    assert_eq!(after.devices.len(), before.devices.len());
    assert_eq!(after.devices[0].device_id, before.devices[0].device_id);
    assert_eq!(after.devices[0].last_seen_at_ms, before.devices[0].last_seen_at_ms);
    assert_eq!(after.relay_url, before.relay_url);
}

#[test]
fn registration_errors_name_the_missing_field() {
    let mut broker = empty_broker();
    let mut input = device(" ");
    assert_eq!(broker.register_device(input, 0).unwrap_err(), "missing `deviceId`");
    input = device("d");
    input.token = "  ".to_string();
    assert_eq!(broker.register_device(input, 0).unwrap_err(), "missing `token`");
    input = device("d");
    input.platform = "".to_string();
    assert_eq!(broker.register_device(input, 0).unwrap_err(), "missing `platform`");
    input = device("d");
    input.platform = "web".to_string();
    assert_eq!(broker.register_device(input, 0).unwrap_err(), "`platform` must be `android` or `ios`");
    assert_eq!(broker.unregister_device("  ".to_string()).unwrap_err(), "missing `deviceId`");
    let mut beat = heartbeat(false, vec![]);
    beat.client_id = " ".to_string();
    assert_eq!(broker.record_presence(beat, 0).unwrap_err(), "missing `clientId`");
}

#[test]
fn platform_and_kind_normalisation() {
    assert_eq!(normalize_platform(" IOS ".to_string()).ok(), Some("ios".to_string()));
    assert!(matches!(normalize_platform(" ".to_string()), Err(PlatformError::Missing)));
    assert!(matches!(normalize_platform("web".to_string()), Err(PlatformError::Unsupported)));
    assert_eq!(normalize_client_kind(" Mobile ".to_string()), "mobile");
    assert_eq!(normalize_client_kind("tablet".to_string()), "desktop");
    assert_eq!(normalize_optional_non_empty(Some("  x ".to_string())), Some("x".to_string()));
    assert_eq!(normalize_optional_non_empty(Some("   ".to_string())), None);
}

#[test]
fn keys_and_token_previews() {
    assert_eq!(make_thread_key("ws", "th"), "ws:th");
    let event = PushEvent {
        kind: PushKind::TurnError,
        workspace_id: "ws".to_string(),
        workspace_name: None,
        thread_id: "th".to_string(),
        turn_id: None,
        preview: String::new(),
    };
    assert_eq!(make_dedupe_key(&event), "turn.error:ws:th:-");
    assert_eq!(redact_token_preview(" abcdefghijkl "), "abcd…ijkl");
    assert_eq!(redact_token_preview("short"), "***");
}

#[test]
fn relay_dispatch_lists_every_enabled_device() {
    let mut broker = empty_broker();
    broker.patch_config(PushNotificationConfigPatch {
        relay_url: Some(Some(" https://relay.example ".to_string())),
        relay_auth_token: Some(Some("tok".to_string())),
    });
    assert!(broker.config_snapshot().has_relay_auth_token);
    broker.register_device(device("a"), 0).unwrap();
    broker.register_device(device("b"), 0).unwrap();
    let delivery = broker.handle_app_server_event("A", None, &completed("T", "U"), 50_000).unwrap();
    let dispatch = delivery.into_relay_dispatch().expect("a relay dispatch");
    assert_eq!(dispatch.relay_url, "https://relay.example");
    let devices = dispatch.payload.get("devices").unwrap();
    match devices {
        Json::Array(items) => assert_eq!(items.len(), 2),
        _ => panic!("devices must be an array"),
    }
    assert_eq!(
        dispatch.payload.get("timestampMs").and_then(|v| v.as_u64()),
        Some(50_000)
    );
}

#[test]
fn fcm_message_carries_token_and_decimal_timestamp() {
    let mut broker = empty_broker();
    broker.register_device(device("a"), 0).unwrap();
    let delivery = broker.handle_app_server_event("A", None, &completed("T", "U"), 50_000).unwrap();
    let message = fcm_message(&delivery, &delivery.devices[0]).expect("android is served");
    let inner = message.get("message").unwrap();
    assert_eq!(inner.get("token").and_then(|t| t.as_str()).map(|t| t.as_str()), Some("token-abcdefghij"));
    let stamp = inner.get("data").and_then(|d| d.get("timestampMs")).and_then(|t| t.as_str()).cloned();
    assert_eq!(stamp, Some("50000".to_string()));
}

#[test]
fn relay_retry_schedule() {
    assert_eq!(relay_retry_delay_ms(0, false), Some(250));
    assert_eq!(relay_retry_delay_ms(1, false), Some(1_000));
    assert_eq!(relay_retry_delay_ms(2, false), Some(3_000));
    assert_eq!(relay_retry_delay_ms(3, false), None);
    assert_eq!(relay_retry_delay_ms(0, true), None);
}

#[test]
fn decimal_and_mime_helpers() {
    assert_eq!(decimal_string(0), "0");
    assert_eq!(decimal_string(-42), "-42");
    assert_eq!(decimal_string(i64::MIN), i64::MIN.to_string());
    assert_eq!(mime_to_extension("audio/WEBM;codecs=opus"), "webm");
    assert_eq!(mime_to_extension("audio/mp4"), "m4a");
    assert_eq!(mime_to_extension("audio/x-wav"), "wav");
    assert_eq!(mime_to_extension("audio/unknown"), "webm");
}

#[test]
fn launch_helpers() {
    assert_eq!(resolve_codex_bin(Some("  ".to_string())), "codex");
    assert_eq!(resolve_codex_bin(Some("/opt/codex".to_string())), "/opt/codex");
    assert_eq!(join_path("/home/me", ".cargo/bin"), "/home/me/.cargo/bin");
    let extras = posix_extra_dirs(Some("/home/me"), &vec!["/nvm/bin".to_string()]);
    assert_eq!(extras.len(), 11);
    let merged = merge_path_entries(vec!["/usr/bin".to_string()], extras);
    assert_eq!(merged.len(), 11);
    assert_eq!(merged[0], "/usr/bin");
    assert_eq!(check_installation_outcome(true, " 1.0 \n", ""), Ok(Some("1.0".to_string())));
    assert_eq!(check_installation_outcome(true, "  ", ""), Ok(None));
    assert_eq!(
        check_installation_outcome(false, "", " bad "),
        Err("Codex CLI failed to start: bad. Try running `codex --version` in Terminal.".to_string())
    );
    assert_eq!(
        check_installation_outcome(false, "", ""),
        Err("Codex CLI failed to start. Try running `codex --version` in Terminal.".to_string())
    );
}

#[test]
fn fcm_message_carries_notification_and_data() {
    let mut broker = empty_broker();
    broker.register_device(device("a"), 0).unwrap();
    let delivery = broker.handle_app_server_event("W", Some("Proj".to_string()), &completed("T", "U"), 70_000).unwrap();
    let message = fcm_message(&delivery, &delivery.devices[0]).unwrap();
    let inner = message.get("message").unwrap();
    let text = |j: Option<&Json>| j.and_then(|v| v.as_str()).cloned();
    let note = inner.get("notification");
    assert_eq!(text(note.and_then(|n| n.get("title"))), Some("Agent Complete — Proj".to_string()));
    assert_eq!(text(note.and_then(|n| n.get("body"))), Some("Your agent finished a task.".to_string()));
    let data = inner.get("data");
    assert_eq!(text(data.and_then(|d| d.get("kind"))), Some("turn.completed".to_string()));
    assert_eq!(text(data.and_then(|d| d.get("workspaceId"))), Some("W".to_string()));
    assert_eq!(text(data.and_then(|d| d.get("threadId"))), Some("T".to_string()));
    assert_eq!(text(data.and_then(|d| d.get("turnId"))), Some("U".to_string()));
    let mut ios = delivery.devices[0].copy();
    ios.platform = "web".to_string();
    assert!(fcm_message(&delivery, &ios).is_none());
}

#[test]
fn state_snapshot_shows_devices_and_presence() {
    let mut broker = empty_broker();
    broker.register_device(device("a"), 7).unwrap();
    broker.record_presence(heartbeat(true, vec!["A"]), 1_000).unwrap();
    let snapshot = broker.state_snapshot(2_000);
    let devices = snapshot.get("devices").unwrap();
    let first = match devices {
        Json::Array(items) => &items[0],
        _ => panic!("devices must be an array"),
    };
    assert_eq!(first.get("tokenPreview").and_then(|t| t.as_str()).cloned(), Some("toke…ghij".to_string()));
    assert_eq!(first.get("lastSeenAtMs").and_then(|t| t.as_u64()), Some(7));
    let presence = snapshot.get("presence").unwrap();
    let entry = match presence {
        Json::Array(items) => &items[0],
        _ => panic!("presence must be an array"),
    };
    assert_eq!(entry.get("isAfk").and_then(|v| v.as_bool()), Some(true));
    let count = snapshot.get("config").and_then(|c| c.get("registeredDeviceCount")).and_then(|v| v.as_u64());
    assert_eq!(count, Some(1));
}

#[test]
fn directory_lists_in_order() {
    let dirs = posix_extra_dirs(None, &vec![]);
    assert_eq!(dirs, vec!["/opt/homebrew/bin", "/usr/local/bin", "/usr/bin", "/bin", "/usr/sbin", "/sbin"]);
    let with_home = posix_extra_dirs(Some("/h/"), &vec!["/n/bin".to_string()]);
    assert_eq!(&with_home[6..], &["/h/.local/bin", "/h/.local/share/mise/shims", "/h/.cargo/bin", "/h/.bun/bin", "/n/bin"]);
    let win = windows_extra_dirs(Some("A"), None, Some("H"), Some("P"));
    assert_eq!(win, vec!["A/npm", "H/.cargo/bin", "H/scoop/shims", "P/chocolatey/bin"]);
}
