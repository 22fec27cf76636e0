use jarvis::agent_plan::{agent_settings, tool_policy, ToolPolicy, MAX_TURNS};
use jarvis::config::{
    default_compaction_prompt, default_compaction_threshold, default_database_name, default_read_extensions,
    default_sandbox_dir, default_transcription_model_path, default_write_extensions, is_sandbox_dir_unset,
    AppConfig,
};
use jarvis::errors::AppError;
use jarvis::providers::{get_providers, Providers};

fn config() -> AppConfig {
    AppConfig {
        provider: Providers::OpenAI,
        api_key: String::new(),
        chat_model: "m".to_string(),
        chat_base_url: String::new(),
        mcp_config_path: String::new(),
        transcription_model_path: String::new(),
        database_name: "jarvis.db".to_string(),
        system_prompt: "sys".to_string(),
        compaction_prompt: "compact".to_string(),
        compaction_threshold: 32000,
        sandbox_dir: "/vault".to_string(),
        sandbox_roots: vec!["/a".to_string()],
        silence_duration_ms: 500,
        read_extensions: vec![],
        write_extensions: vec![],
        rag_dirs: vec!["/docs".to_string(), "/notes".to_string()],
        rag_exclusions: vec![],
        rag_use_gpu: true,
        embedding_model: "BGESmallENV15".to_string(),
    }
}

#[test]
fn defaults_have_documented_values() {
    assert_eq!(default_transcription_model_path(), "parakeet-tdt-0.6b-v3-int8");
    assert_eq!(default_database_name(), "jarvis.db");
    assert_eq!(default_compaction_prompt(), "Summarize this context briefly, capturing key points.");
    assert_eq!(default_compaction_threshold(), 32000);
    assert_eq!(default_sandbox_dir(), ".");
    let r = default_read_extensions();
    let w = default_write_extensions();
    assert_eq!(r.len(), 11);
    assert_eq!(w.len(), 10);
    assert!(r.iter().any(|e| e == "pdf"));
    assert!(!w.iter().any(|e| e == "pdf"));
}

#[test]
fn sandbox_dir_unset_only_for_empty_or_dot() {
    assert!(is_sandbox_dir_unset(""));
    assert!(is_sandbox_dir_unset("."));
    assert!(!is_sandbox_dir_unset("./"));
    assert!(!is_sandbox_dir_unset("/vault"));
}

#[test]
fn sandbox_roots_added_once_and_removed() {
    let mut c = config();
    assert!(c.has_sandbox_root("/a"));
    c.add_sandbox_root("/a".to_string());
    assert_eq!(c.sandbox_roots.len(), 1);
    c.add_sandbox_root("/b".to_string());
    assert_eq!(c.list_sandbox_roots(), vec!["/vault".to_string(), "/a".to_string(), "/b".to_string()]);
    c.remove_sandbox_root("/a");
    assert_eq!(c.sandbox_roots, vec!["/b".to_string()]);
    c.remove_sandbox_root("/zzz");
    assert_eq!(c.sandbox_roots, vec!["/b".to_string()]);
}

#[test]
fn rag_dir_removal_requires_configured_dir() {
    let mut c = config();
    match c.remove_rag_dir("/other") {
        Err(AppError::SystemError(m)) => assert_eq!(m, "directory is not a configured RAG directory"),
        _ => panic!("expected error"),
    }
    assert_eq!(c.rag_dirs.len(), 2);
    assert!(c.check_rag_dir("/docs").is_ok());
    c.remove_rag_dir("/docs").unwrap();
    assert_eq!(c.rag_dirs, vec!["/notes".to_string()]);
    assert!(!c.has_rag_dir("/docs"));
}

#[test]
fn exclusion_toggles_back_and_forth() {
    let mut c = config();
    assert_eq!(c.toggle_rag_exclusion("Archive").unwrap(), true);
    assert!(c.is_rag_excluded("Archive"));
    assert_eq!(c.toggle_rag_exclusion("Archive").unwrap(), false);
    assert!(!c.is_rag_excluded("Archive"));
    assert!(c.rag_exclusions.is_empty());
    c.sandbox_dir = ".".to_string();
    match c.toggle_rag_exclusion("Archive") {
        Err(AppError::SystemError(m)) => assert_eq!(m, "sandbox_dir is not configured"),
        _ => panic!("expected error"),
    }
    assert!(c.rag_exclusions.is_empty());
}

#[test]
fn rag_fingerprint_names_model_and_gpu() {
    let mut c = config();
    assert_eq!(c.rag_fingerprint(), "BGESmallENV15:true");
    c.rag_use_gpu = false;
    assert_eq!(c.rag_fingerprint(), "BGESmallENV15:false");
}

#[test]
fn provider_names_parse_and_list() {
    assert_eq!(get_providers().unwrap(), vec!["openai", "gemini", "anthropic"]);
    assert_eq!(Providers::parse_name("OpenAI").unwrap(), Providers::OpenAI);
    assert_eq!("GEMINI".parse::<Providers>().unwrap(), Providers::Gemini);
    assert_eq!(Providers::parse_name("anthropic").unwrap(), Providers::Anthropic);
    assert_eq!(Providers::parse_name("llama").unwrap_err(), "Unknown provider: llama");
    for p in Providers::all() {
        assert_eq!(Providers::parse_name(p.as_str()).unwrap(), p);
        assert_eq!(p.to_string(), p.as_str());
    }
}

#[test]
fn provider_switch_keeps_config_on_unknown_name() {
    let mut c = config();
    c.set_provider_named("Gemini").unwrap();
    assert_eq!(c.provider, Providers::Gemini);
    match c.set_provider_named("nope") {
        Err(AppError::SystemError(m)) => assert_eq!(m, "Unknown provider: nope"),
        _ => panic!("expected error"),
    }
    assert_eq!(c.provider, Providers::Gemini);
}

#[test]
fn agent_settings_follow_config() {
    let mut c = config();
    let s = agent_settings(&c);
    assert_eq!(s.api_key, "sk-local");
    assert!(s.base_url.is_none());
    assert_eq!(s.max_turns, MAX_TURNS);
    assert_eq!(s.max_turns, 20);
    assert_eq!(s.model, "m");
    c.provider = Providers::Gemini;
    c.chat_base_url = "http://localhost:8080".to_string();
    let s = agent_settings(&c);
    assert_eq!(s.api_key, "");
    assert_eq!(s.base_url.as_deref(), Some("http://localhost:8080"));
    assert_eq!(s.compaction_threshold, 32000);
    assert_eq!(tool_policy(true), ToolPolicy::AskGate);
    assert_eq!(tool_policy(false), ToolPolicy::DenyAll);
}
