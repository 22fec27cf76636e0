use jarvis::errors::AppError;
use jarvis::permission::{
    check_permission_fast_path, derive_scope_from_description, dispatch_error, emit_failure_denial,
    extract_path_from_description, handle_permission_response, normalize_for_prefix, pick_best_match,
    validate_decision, PendingRequests, PermissionPreference, PermissionResponse, PermissionResult,
    PrefCache, PrefEntry, ResponseOutcome, DEFAULT_TIMEOUT_SECS,
};

fn entry(pattern: Option<&str>, decision: &str) -> PrefEntry {
    PrefEntry { path_pattern: pattern.map(|p| p.to_string()), decision: decision.to_string() }
}

fn is_deny(r: &PermissionResult, reason: &str) -> bool {
    matches!(r, PermissionResult::Deny { reason: got } if got == reason)
}

// ── extract_path_from_description ────────────────────────────────

#[test]
fn extract_path_write_file() {
    let result = extract_path_from_description("Wants to write file at /some/file.txt");
    assert_eq!(result.as_deref(), Some("/some/file.txt"));
}

#[test]
fn extract_path_read_file() {
    let result = extract_path_from_description("Wants to read file at /read/me.md");
    assert_eq!(result.as_deref(), Some("/read/me.md"));
}

#[test]
fn extract_path_list_directory() {
    assert_eq!(extract_path_from_description("Wants to list directory /src").as_deref(), Some("/src"));
}

#[test]
fn extract_path_search_files() {
    assert_eq!(
        extract_path_from_description("Wants to search files in /project").as_deref(),
        Some("/project")
    );
}

#[test]
fn extract_path_grep_files() {
    assert_eq!(extract_path_from_description("Wants to grep files in /src").as_deref(), Some("/src"));
}

#[test]
fn extract_path_strips_trailing_brackets() {
    let result = extract_path_from_description("Wants to write file at /some/file.txt]");
    assert_eq!(result.as_deref(), Some("/some/file.txt"));
    let result = extract_path_from_description("Wants to write file at   [/a b] ] ");
    assert_eq!(result.as_deref(), Some("[/a b"));
}

#[test]
fn extract_path_unknown_prefix_returns_none() {
    assert!(extract_path_from_description("Some unknown description").is_none());
}

#[test]
fn extract_path_empty_after_prefix_returns_none() {
    assert!(extract_path_from_description("Wants to write file at ").is_none());
    assert!(extract_path_from_description("Wants to write file at  ] [").is_none());
}

#[test]
fn extract_path_sandbox_description_matches_prefix() {
    assert_eq!(
        extract_path_from_description("Wants to write file at /tmp/jarvis_sandbox_test/sub.txt").as_deref(),
        Some("/tmp/jarvis_sandbox_test/sub.txt")
    );
}

// ── derive_scope_from_description ───────────────────────────────

#[test]
fn derive_scope_file_context_returns_parent_dir() {
    let result = derive_scope_from_description("Wants to write file at /home/user/docs/foo.txt");
    assert_eq!(result.as_deref(), Some("/home/user/docs"));
}

#[test]
fn derive_scope_dir_context_returns_path_directly() {
    let result = derive_scope_from_description("Wants to list directory /var/log");
    assert_eq!(result.as_deref(), Some("/var/log"));
}

#[test]
fn derive_scope_search_in_dir_context() {
    let result = derive_scope_from_description("Wants to search files in /project/src");
    assert_eq!(result.as_deref(), Some("/project/src"));
}

#[test]
fn derive_scope_grep_in_dir_context() {
    let result = derive_scope_from_description("Wants to grep files in /src");
    assert_eq!(result.as_deref(), Some("/src"));
}

#[test]
fn derive_scope_file_at_root_falls_back_to_slash() {
    let result = derive_scope_from_description("Wants to write file at /foo.txt");
    assert_eq!(result.as_deref(), Some("/"));
}

#[test]
fn derive_scope_no_path_returns_none() {
    let result = derive_scope_from_description("Custom tool");
    assert!(result.is_none());
}

#[test]
fn derive_scope_empty_description_returns_none() {
    let result = derive_scope_from_description("");
    assert!(result.is_none());
}

// ── preference matching ─────────────────────────────────────────

#[test]
fn normalize_adds_one_trailing_slash() {
    assert_eq!(normalize_for_prefix("/a"), "/a/");
    assert_eq!(normalize_for_prefix("/a/"), "/a/");
    assert_eq!(normalize_for_prefix(""), "/");
}

#[test]
fn best_match_prefers_longest_then_global() {
    let entries = vec![
        entry(None, "deny"),
        entry(Some("/home"), "allow"),
        entry(Some("/home/user"), "deny"),
        entry(Some("/home/us"), "allow"),
    ];
    assert_eq!(pick_best_match(&entries, Some("/home/user/x.txt")), Some(2));
    assert_eq!(pick_best_match(&entries, Some("/home/other")), Some(1));
    assert_eq!(pick_best_match(&entries, Some("/etc/passwd")), Some(0));
    assert_eq!(pick_best_match(&entries, None), Some(0));
    let no_global = vec![entry(Some("/a"), "allow")];
    assert_eq!(pick_best_match(&no_global, Some("/b")), None);
    let equal = vec![entry(Some("/x"), "allow"), entry(Some("/x/"), "deny"), entry(Some("/x"), "deny")];
    assert_eq!(pick_best_match(&equal, Some("/x/y")), Some(1));
}

#[test]
fn fast_path_allows_sandbox_paths_and_applies_preferences() {
    let mut cache = PrefCache::new();
    let d = "Wants to write file at /home/user/docs/foo.txt";
    assert!(matches!(check_permission_fast_path(&cache, "write_document", d, true), Some(PermissionResult::Allow)));
    assert!(check_permission_fast_path(&cache, "write_document", d, false).is_none());
    cache.upsert("write_document", "/home/user", "deny");
    let r = check_permission_fast_path(&cache, "write_document", d, false).unwrap();
    assert!(is_deny(&r, "Tool 'write_document' is denied by user preference"));
    cache.upsert("write_document", "/home/user/docs", "allow");
    assert!(matches!(check_permission_fast_path(&cache, "write_document", d, false), Some(PermissionResult::Allow)));
    cache.upsert("write_document", "/home/user/docs", "ask");
    assert!(check_permission_fast_path(&cache, "write_document", d, false).is_none());
    assert!(check_permission_fast_path(&cache, "read_document", d, false).is_none());
}

#[test]
fn always_allow_scopes_to_extracted_path() {
    let scope = derive_scope_from_description("Wants to write file at /home/user/docs/foo.txt");
    assert_eq!(scope.as_deref(), Some("/home/user/docs"));
    let mut cache = PrefCache::new();
    cache.upsert("write_document", scope.as_deref().unwrap(), "allow");
    let entries = cache.get("write_document").unwrap();
    assert_eq!(entries.len(), 1);
    assert_eq!(entries[0].path_pattern.as_deref(), Some("/home/user/docs"));
    assert_eq!(entries[0].decision, "allow");
}

#[test]
fn always_allow_no_path_skips_persistence() {
    assert!(derive_scope_from_description("Custom tool").is_none());
    let mut cache = PrefCache::new();
    let (_, persist) = handle_permission_response(
        &mut cache,
        "custom_tool",
        "Custom tool",
        ResponseOutcome::Answered(PermissionResponse::AllowAlways { path: None }),
        DEFAULT_TIMEOUT_SECS,
    );
    assert!(persist.is_none(), "no preference should be persisted for a tool with no derivable scope");
}

#[test]
fn always_allow_precedence_global_still_works() {
    let cache = PrefCache::from_preferences(vec![PermissionPreference {
        tool_name: "write_document".to_string(),
        path_pattern: None,
        decision: "allow".to_string(),
    }]);
    assert!(matches!(
        check_permission_fast_path(&cache, "write_document", "Wants to write file at /anywhere/x.txt", false),
        Some(PermissionResult::Allow)
    ));
    assert!(matches!(
        check_permission_fast_path(&cache, "write_document", "Custom description", false),
        Some(PermissionResult::Allow)
    ));
}

// ── handle_permission_response ──────────────────────────────────

#[test]
fn handle_allow_always_derives_scope_and_persists() {
    let mut cache = PrefCache::new();
    let (result, persist) = handle_permission_response(
        &mut cache,
        "write_document",
        "Wants to write file at /home/user/docs/foo.txt",
        ResponseOutcome::Answered(PermissionResponse::AllowAlways { path: None }),
        DEFAULT_TIMEOUT_SECS,
    );
    assert!(matches!(result, PermissionResult::Allow));
    let p = persist.unwrap();
    assert_eq!(p.tool_name, "write_document");
    assert_eq!(p.path_pattern, "/home/user/docs");
    assert_eq!(p.decision, "allow");
    let entries = cache.get("write_document").unwrap();
    let e = entries.iter().find(|e| e.path_pattern.as_deref() == Some("/home/user/docs")).unwrap();
    assert_eq!(e.decision, "allow");
    assert!(matches!(
        check_permission_fast_path(&cache, "write_document", "Wants to write file at /home/user/docs/bar.md", false),
        Some(PermissionResult::Allow)
    ));
}

#[test]
fn handle_allow_always_no_path_skips_persistence() {
    let mut cache = PrefCache::new();
    let (result, persist) = handle_permission_response(
        &mut cache,
        "custom_tool",
        "Custom tool",
        ResponseOutcome::Answered(PermissionResponse::AllowAlways { path: None }),
        60,
    );
    assert!(matches!(result, PermissionResult::Allow));
    assert!(persist.is_none());
    assert!(!cache.contains_key("custom_tool"));
}

#[test]
fn handle_deny_always_derives_scope_and_persists() {
    let mut cache = PrefCache::new();
    let (result, persist) = handle_permission_response(
        &mut cache,
        "read_file",
        "Wants to read file at /etc/passwd",
        ResponseOutcome::Answered(PermissionResponse::DenyAlways { path: None }),
        60,
    );
    assert!(is_deny(&result, "Tool 'read_file' is permanently denied by user"));
    let p = persist.unwrap();
    assert_eq!(p.path_pattern, "/etc");
    assert_eq!(p.decision, "deny");
    let entries = cache.get("read_file").unwrap();
    assert_eq!(entries.len(), 1);
    assert_eq!(entries[0].decision, "deny");
}

#[test]
fn handle_always_with_chosen_path_updates_existing_entry() {
    let mut cache = PrefCache::new();
    cache.upsert("t", "/p", "deny");
    let (_, persist) = handle_permission_response(
        &mut cache,
        "t",
        "Custom tool",
        ResponseOutcome::Answered(PermissionResponse::AllowAlways { path: Some("/p".to_string()) }),
        60,
    );
    assert_eq!(persist.unwrap().path_pattern, "/p");
    let entries = cache.get("t").unwrap();
    assert_eq!(entries.len(), 1);
    assert_eq!(entries[0].decision, "allow");
}

#[test]
fn handle_one_time_replies_and_failures() {
    let mut cache = PrefCache::new();
    let (r, p) = handle_permission_response(&mut cache, "t", "d", ResponseOutcome::Answered(PermissionResponse::Allow), 60);
    assert!(matches!(r, PermissionResult::Allow) && p.is_none());
    let (r, _) = handle_permission_response(
        &mut cache,
        "t",
        "d",
        ResponseOutcome::Answered(PermissionResponse::Deny { reason: "no".to_string() }),
        60,
    );
    assert!(is_deny(&r, "no"));
    let (r, _) = handle_permission_response(&mut cache, "t", "d", ResponseOutcome::ChannelClosed, 60);
    assert!(is_deny(&r, "Permission request channel was cancelled"));
    let (r, _) = handle_permission_response(&mut cache, "t", "d", ResponseOutcome::TimedOut, 60);
    assert!(is_deny(&r, "Permission request timed out after 60s"));
    assert_eq!(cache.len(), 0);
    assert!(is_deny(&emit_failure_denial(), "Failed to emit permission request to frontend"));
}

// ── preferences, decisions and pending requests ─────────────────

#[test]
fn cache_from_preferences_groups_by_tool() {
    let prefs = vec![
        PermissionPreference { tool_name: "a".to_string(), path_pattern: None, decision: "allow".to_string() },
        PermissionPreference { tool_name: "b".to_string(), path_pattern: Some("/x".to_string()), decision: "deny".to_string() },
        PermissionPreference { tool_name: "a".to_string(), path_pattern: Some("/y".to_string()), decision: "deny".to_string() },
    ];
    let cache = PrefCache::from_preferences(prefs);
    assert_eq!(cache.len(), 2);
    let a = cache.get("a").unwrap();
    assert_eq!(a.len(), 2);
    assert_eq!(a[1].path_pattern.as_deref(), Some("/y"));
    assert_eq!(cache.get("b").unwrap().len(), 1);
    assert!(cache.get("c").is_none());
}

#[test]
fn decisions_are_validated() {
    assert!(validate_decision("allow").is_ok());
    assert!(validate_decision("deny").is_ok());
    match validate_decision("maybe") {
        Err(AppError::SystemError(m)) => assert_eq!(m, "decision must be 'allow' or 'deny'"),
        _ => panic!("expected error"),
    }
}

#[test]
fn pending_requests_resolve_once() {
    let mut pending: PendingRequests<u8> = PendingRequests::new();
    pending.insert("r1", 1);
    pending.insert("r2", 2);
    pending.insert("r1", 3);
    assert_eq!(pending.len(), 2);
    assert_eq!(pending.resolve("r1").unwrap(), 3);
    match pending.resolve("r1") {
        Err(AppError::PermissionError(m)) => assert_eq!(m, "No pending permission request with id=r1"),
        _ => panic!("expected error"),
    }
    assert_eq!(pending.remove("r2"), Some(2));
    assert_eq!(pending.len(), 0);
    match dispatch_error("r9") {
        AppError::PermissionError(m) => assert_eq!(m, "Failed to dispatch permission response for request_id=r9"),
        _ => panic!("expected error"),
    }
}
