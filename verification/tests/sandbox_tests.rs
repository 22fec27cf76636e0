use jarvis::config::AppConfig;
use jarvis::errors::AppError;
use jarvis::providers::Providers;
use jarvis::sandbox::{finish_root_sync, plan_root_sync, sync_sandbox_roots};

fn make_config(primary: &str, extras: Vec<String>) -> AppConfig {
    AppConfig {
        provider: Providers::OpenAI,
        api_key: String::new(),
        chat_model: String::new(),
        chat_base_url: String::new(),
        mcp_config_path: String::new(),
        transcription_model_path: String::new(),
        database_name: String::new(),
        system_prompt: String::new(),
        compaction_prompt: String::new(),
        compaction_threshold: 0,
        sandbox_dir: primary.to_string(),
        sandbox_roots: extras,
        silence_duration_ms: 0,
        read_extensions: vec![],
        write_extensions: vec![],
        rag_dirs: vec![],
        rag_exclusions: vec![],
        rag_use_gpu: false,
        embedding_model: String::new(),
    }
}

fn apply(current: &mut Vec<String>, remove: &[String], add_canonical: &[String]) {
    current.retain(|r| !remove.contains(r));
    for a in add_canonical {
        current.push(a.clone());
    }
}

#[test]
fn sync_adds_new_root() {
    let config = make_config("/data/primary", vec!["/data/extra".to_string()]);
    let current = vec!["/data/primary".to_string()];
    let canonical = vec![Ok("/data/primary".to_string()), Ok("/data/extra".to_string())];
    let plan = sync_sandbox_roots(Some(&current), &config, &canonical).unwrap().unwrap();
    assert!(plan.remove.is_empty());
    assert_eq!(plan.add, vec!["/data/extra".to_string()]);
    let mut roots = current.clone();
    apply(&mut roots, &plan.remove, &plan.add);
    assert_eq!(roots.len(), 2, "should have 2 roots after sync");
}

#[test]
fn sync_removes_missing_root() {
    let config = make_config("/data/primary", vec![]);
    let current = vec!["/data/primary".to_string(), "/data/extra".to_string()];
    let canonical = vec![Ok("/data/primary".to_string())];
    let plan = sync_sandbox_roots(Some(&current), &config, &canonical).unwrap().unwrap();
    assert_eq!(plan.remove, vec!["/data/extra".to_string()]);
    assert!(plan.add.is_empty());
    let mut roots = current.clone();
    apply(&mut roots, &plan.remove, &plan.add);
    assert_eq!(roots, vec!["/data/primary".to_string()], "should have 1 root after removal");
}

#[test]
fn sync_is_idempotent() {
    let config = make_config("/data/primary", vec!["/data/extra".to_string()]);
    let canonical = vec![Ok("/data/primary".to_string()), Ok("/data/extra".to_string())];
    let mut roots = vec!["/data/primary".to_string()];
    let first = sync_sandbox_roots(Some(&roots), &config, &canonical).unwrap().unwrap();
    apply(&mut roots, &first.remove, &first.add);
    let count_before = roots.len();
    let second = sync_sandbox_roots(Some(&roots), &config, &canonical).unwrap().unwrap();
    assert!(second.remove.is_empty() && second.add.is_empty());
    apply(&mut roots, &second.remove, &second.add);
    assert_eq!(count_before, roots.len(), "idempotent sync should not change root count");
}

#[test]
fn sync_without_shared_sandbox_does_nothing() {
    let config = make_config("/data/primary", vec![]);
    let canonical = vec![Ok("/data/primary".to_string())];
    assert!(sync_sandbox_roots(None, &config, &canonical).unwrap().is_none());
}

#[test]
fn sync_fails_on_unresolvable_root_before_changing_anything() {
    let desired = vec!["/ok".to_string(), "/missing".to_string(), "/also-missing".to_string()];
    let canonical = vec![
        Ok("/ok".to_string()),
        Err("No such file or directory (os error 2)".to_string()),
        Err("second".to_string()),
    ];
    match plan_root_sync(&vec![], &desired, &canonical) {
        Err(AppError::SystemError(m)) => {
            assert_eq!(m, "cannot canonicalize '/missing': No such file or directory (os error 2)")
        }
        _ => panic!("expected error"),
    }
}

#[test]
fn sync_adds_configured_form_and_removes_each_root_once() {
    let desired = vec!["/link".to_string(), "/b".to_string()];
    let canonical = vec![Ok("/real".to_string()), Ok("/b".to_string())];
    let current = vec!["/old".to_string(), "/b".to_string(), "/old".to_string()];
    let plan = plan_root_sync(&current, &desired, &canonical).unwrap();
    assert_eq!(plan.remove, vec!["/old".to_string()]);
    assert_eq!(plan.add, vec!["/link".to_string()]);
}

#[test]
fn sync_reports_last_failure() {
    assert!(finish_root_sync(&vec![None, None]).is_ok());
    match finish_root_sync(&vec![Some("first".to_string()), None, Some("last".to_string()), None]) {
        Err(AppError::SystemError(m)) => assert_eq!(m, "last"),
        _ => panic!("expected error"),
    }
}
