use codex_monitor::json::Json;
use codex_monitor::path::{normalize_root_path, resolve_workspace_for_cwd};
use codex_monitor::routing::{
    extract_thread_cwd, extract_thread_entries_from_thread_list_result, extract_thread_id,
    extract_thread_spawn_parent_thread_id, extract_turn_id, is_global_workspace_notification,
    resolve_routed_workspace_id, resolve_spawned_thread_workspace,
    resolve_started_thread_workspace, should_broadcast_global_workspace_notification,
};
use codex_monitor::session::build_initialize_params;
use codex_monitor::table::Table;

fn s(x: &str) -> Json {
    Json::Str(x.to_string())
}

fn obj(pairs: Vec<(&str, Json)>) -> Json {
    Json::Object(pairs.into_iter().map(|(k, v)| (k.to_string(), v)).collect())
}

fn table(pairs: Vec<(&str, String)>) -> Table<String> {
    let mut t = Table::new();
    for (k, v) in pairs {
        t.insert(k.to_string(), v);
    }
    t
}

fn started_with_parent(parent_key: &str, spawn_key: &str) -> Json {
    obj(vec![
        ("method", s("thread/started")),
        (
            "params",
            obj(vec![(
                "thread",
                obj(vec![
                    ("id", s("thread-child")),
                    (
                        "source",
                        obj(vec![(spawn_key, obj(vec![(parent_key, s("thread-parent"))]))]),
                    ),
                ]),
            )]),
        ),
    ])
}

#[test]
fn extract_thread_id_reads_camel_case() {
    let value = obj(vec![("params", obj(vec![("threadId", s("thread-123"))]))]);
    assert_eq!(extract_thread_id(&value), Some("thread-123".to_string()));
}

#[test]
fn extract_thread_id_reads_snake_case() {
    let value = obj(vec![("params", obj(vec![("thread_id", s("thread-456"))]))]);
    assert_eq!(extract_thread_id(&value), Some("thread-456".to_string()));
}

#[test]
fn extract_thread_id_returns_none_when_missing() {
    let value = obj(vec![("params", obj(vec![]))]);
    assert_eq!(extract_thread_id(&value), None);
}

#[test]
fn extract_thread_spawn_parent_thread_id_reads_snake_case_source() {
    let value = started_with_parent("parent_thread_id", "thread_spawn");
    assert_eq!(
        extract_thread_spawn_parent_thread_id(&value),
        Some("thread-parent".to_string())
    );
}

#[test]
fn extract_thread_spawn_parent_thread_id_reads_camel_case_source() {
    let value = started_with_parent("parentThreadId", "threadSpawn");
    assert_eq!(
        extract_thread_spawn_parent_thread_id(&value),
        Some("thread-parent".to_string())
    );
}

#[test]
fn resolve_spawned_thread_workspace_uses_parent_thread_mapping() {
    let value = started_with_parent("parent_thread_id", "thread_spawn");
    let thread_workspace = table(vec![("thread-parent", "ws-2".to_string())]);
    assert_eq!(
        resolve_spawned_thread_workspace("thread-child", &value, &thread_workspace),
        Some("ws-2".to_string())
    );
}

#[test]
fn extract_thread_cwd_reads_thread_started_payload() {
    let value = obj(vec![
        ("method", s("thread/started")),
        (
            "params",
            obj(vec![("thread", obj(vec![("id", s("thread-child")), ("cwd", s("/tmp/project-b"))]))]),
        ),
    ]);
    assert_eq!(extract_thread_cwd(&value), Some("/tmp/project-b".to_string()));
}

fn started_in(cwd: &str, parent: Option<&str>) -> Json {
    let mut thread = vec![("id", s("thread-child")), ("cwd", s(cwd))];
    if let Some(p) = parent {
        thread.push((
            "source",
            obj(vec![("thread_spawn", obj(vec![("parent_thread_id", s(p))]))]),
        ));
    }
    obj(vec![
        ("method", s("thread/started")),
        ("params", obj(vec![("thread", obj(thread))])),
    ])
}

fn two_roots() -> Table<String> {
    table(vec![
        ("ws-a", normalize_root_path("/tmp/project-a")),
        ("ws-b", normalize_root_path("/tmp/project-b")),
    ])
}

#[test]
fn resolve_started_thread_workspace_falls_back_to_cwd_when_parent_missing() {
    let value = started_in("/tmp/project-b/subdir", Some("missing-parent"));
    let thread_workspace = Table::new();
    let workspace_roots = two_roots();
    assert_eq!(
        resolve_started_thread_workspace("thread-child", &value, &thread_workspace, &workspace_roots),
        Some("ws-b".to_string())
    );
}

#[test]
fn resolve_started_thread_workspace_prefers_parent_mapping_over_cwd() {
    let value = started_in("/tmp/project-b/subdir", Some("thread-parent"));
    let thread_workspace = table(vec![("thread-parent", "ws-a".to_string())]);
    let workspace_roots = two_roots();
    assert_eq!(
        resolve_started_thread_workspace("thread-child", &value, &thread_workspace, &workspace_roots),
        Some("ws-a".to_string())
    );
}

#[test]
fn resolve_started_thread_workspace_returns_none_when_unmapped() {
    let value = started_in("/tmp/unknown-project", None);
    let thread_workspace = Table::new();
    let workspace_roots = two_roots();
    assert_eq!(
        resolve_started_thread_workspace("thread-child", &value, &thread_workspace, &workspace_roots),
        None
    );
}

#[test]
fn resolve_routed_workspace_id_prefers_mapped_thread_workspace() {
    assert_eq!(
        resolve_routed_workspace_id(Some("thread-1"), Some("ws-b"), Some("ws-a"), "ws-owner", 2),
        Some("ws-b".to_string())
    );
}

#[test]
fn resolve_routed_workspace_id_uses_request_workspace_when_thread_unmapped() {
    assert_eq!(
        resolve_routed_workspace_id(Some("thread-1"), None, Some("ws-a"), "ws-owner", 2),
        Some("ws-a".to_string())
    );
}

#[test]
fn resolve_routed_workspace_id_drops_ambiguous_thread_events_for_multi_workspace_sessions() {
    assert_eq!(
        resolve_routed_workspace_id(Some("thread-1"), None, None, "ws-owner", 2),
        None
    );
}

#[test]
fn resolve_routed_workspace_id_keeps_single_workspace_fallback_behavior() {
    assert_eq!(
        resolve_routed_workspace_id(Some("thread-1"), None, None, "ws-owner", 1),
        Some("ws-owner".to_string())
    );
    assert_eq!(
        resolve_routed_workspace_id(None, None, None, "ws-owner", 3),
        Some("ws-owner".to_string())
    );
}

#[test]
fn extract_turn_id_reads_turn_object_id() {
    let value = obj(vec![("params", obj(vec![("turn", obj(vec![("id", s("turn-123"))]))]))]);
    assert_eq!(extract_turn_id(&value), Some("turn-123".to_string()));
}

#[test]
fn extract_turn_id_reads_turn_id_field() {
    let value = obj(vec![("params", obj(vec![("turn_id", s("turn-456"))]))]);
    assert_eq!(extract_turn_id(&value), Some("turn-456".to_string()));
}

#[test]
fn build_initialize_params_enables_experimental_api() {
    let params = build_initialize_params("1.2.3");
    let flag = params
        .get("capabilities")
        .and_then(|caps| caps.get("experimentalApi"))
        .and_then(|value| value.as_bool());
    assert_eq!(flag, Some(true));
}

#[test]
fn extract_thread_entries_reads_result_data_items() {
    let value = obj(vec![(
        "result",
        obj(vec![(
            "data",
            Json::Array(vec![
                obj(vec![("id", s("thread-a")), ("cwd", s("/tmp/a"))]),
                obj(vec![("threadId", s("thread-b")), ("cwd", s("/tmp/b"))]),
            ]),
        )]),
    )]);
    let entries = extract_thread_entries_from_thread_list_result(&value);
    assert_eq!(entries.len(), 2);
    assert_eq!(entries[0].thread_id, "thread-a");
    assert_eq!(entries[0].cwd.as_deref(), Some("/tmp/a"));
    assert_eq!(entries[1].thread_id, "thread-b");
    assert_eq!(entries[1].cwd.as_deref(), Some("/tmp/b"));
}

#[test]
fn extract_thread_entries_walks_nested_listings_depth_first() {
    let value = obj(vec![(
        "result",
        obj(vec![
            ("threads", Json::Array(vec![obj(vec![
                ("id", s("outer")),
                ("items", Json::Array(vec![obj(vec![("thread", obj(vec![("id", s("inner")), ("cwd", s("/x"))]))])])),
            ])])),
        ]),
    )]);
    let entries = extract_thread_entries_from_thread_list_result(&value);
    assert_eq!(entries.len(), 2);
    assert_eq!(entries[0].thread_id, "outer");
    assert_eq!(entries[0].cwd, None);
    assert_eq!(entries[1].thread_id, "inner");
    assert_eq!(entries[1].cwd.as_deref(), Some("/x"));
}

#[test]
fn resolve_workspace_for_cwd_normalizes_windows_paths() {
    let roots = table(vec![("ws-1", normalize_root_path("C:\\Dev\\Codex"))]);
    assert_eq!(resolve_workspace_for_cwd("c:/dev/codex", &roots), Some("ws-1".to_string()));
}

#[test]
fn resolve_workspace_for_cwd_normalizes_windows_namespace_paths() {
    let roots = table(vec![("ws-1", normalize_root_path("C:\\Dev\\Codex"))]);
    assert_eq!(
        resolve_workspace_for_cwd("\\\\?\\C:\\Dev\\Codex", &roots),
        Some("ws-1".to_string())
    );
}

#[test]
fn normalize_root_path_normalizes_windows_namespace_unc_paths() {
    assert_eq!(
        normalize_root_path("\\\\?\\UNC\\SERVER\\Share\\Repo\\"),
        "//server/share/repo"
    );
}

#[test]
fn resolve_workspace_for_cwd_matches_nested_paths() {
    let roots = table(vec![("ws-1", normalize_root_path("/tmp/codex"))]);
    assert_eq!(
        resolve_workspace_for_cwd("/tmp/codex/subdir/project", &roots),
        Some("ws-1".to_string())
    );
}

#[test]
fn resolve_workspace_for_cwd_prefers_longest_matching_root() {
    let roots = table(vec![
        ("ws-parent", normalize_root_path("/tmp/codex")),
        ("ws-child", normalize_root_path("/tmp/codex/subdir")),
    ]);
    assert_eq!(
        resolve_workspace_for_cwd("/tmp/codex/subdir/project", &roots),
        Some("ws-child".to_string())
    );
}

#[test]
fn resolve_workspace_for_cwd_longest_root_wins_in_either_order() {
    let roots = table(vec![("ws-ab", "/a/b".to_string()), ("ws-a", "/a".to_string())]);
    assert_eq!(resolve_workspace_for_cwd("/a/b/c", &roots), Some("ws-ab".to_string()));
    let roots = table(vec![("ws-a", "/a".to_string()), ("ws-ab", "/a/b".to_string())]);
    assert_eq!(resolve_workspace_for_cwd("/a/b/c", &roots), Some("ws-ab".to_string()));
}

#[test]
fn resolve_workspace_for_cwd_needs_a_slash_boundary_and_non_empty_roots() {
    let roots = table(vec![("ws-a", "/a".to_string()), ("ws-empty", String::new())]);
    assert_eq!(resolve_workspace_for_cwd("/ab", &roots), None);
    assert_eq!(resolve_workspace_for_cwd("/a", &roots), Some("ws-a".to_string()));
    assert_eq!(resolve_workspace_for_cwd("", &roots), None);
    assert_eq!(resolve_workspace_for_cwd("/other", &roots), None);
}

#[test]
fn normalize_root_path_is_idempotent_on_examples() {
    for input in [
        "C:\\Dev\\Codex\\",
        "\\\\?\\UNC\\SERVER\\Share\\Repo\\",
        "\\\\.\\D:\\Work",
        "/Users/Me/Project///",
        "relative\\Path",
        "",
        "///",
    ] {
        let once = normalize_root_path(input);
        assert_eq!(normalize_root_path(&once), once, "input {input:?}");
    }
}

#[test]
fn normalize_root_path_keeps_case_of_posix_paths() {
    assert_eq!(normalize_root_path("/Users/Me/Project/"), "/Users/Me/Project");
    assert_eq!(normalize_root_path("C:\\Dev\\Codex"), "c:/dev/codex");
    assert_eq!(normalize_root_path("\\\\.\\D:\\Work"), "d:/work");
    assert_eq!(normalize_root_path("//?/"), "//?");
}

#[test]
fn global_notifications_are_the_account_methods() {
    assert!(is_global_workspace_notification("account/updated"));
    assert!(is_global_workspace_notification("account/rateLimits/updated"));
    assert!(is_global_workspace_notification("account/login/completed"));
    assert!(!is_global_workspace_notification("turn/completed"));
    let t = "t".to_string();
    assert!(should_broadcast_global_workspace_notification(Some("account/updated"), None, None));
    assert!(!should_broadcast_global_workspace_notification(Some("account/updated"), Some(&t), None));
    assert!(!should_broadcast_global_workspace_notification(Some("account/updated"), None, Some("ws")));
    assert!(!should_broadcast_global_workspace_notification(None, None, None));
}
