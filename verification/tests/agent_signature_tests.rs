use jarvis::config::AppConfig;
use jarvis::providers::Providers;
use jarvis::signature::{AgentSlot, ConfigSignature};

fn test_config() -> AppConfig {
    AppConfig {
        provider: Providers::OpenAI,
        silence_duration_ms: 500,
        api_key: "sk-test".to_string(),
        chat_model: "gpt-4".to_string(),
        chat_base_url: String::new(),
        mcp_config_path: String::new(),
        transcription_model_path: String::new(),
        database_name: "test.db".to_string(),
        system_prompt: "You are helpful.".to_string(),
        compaction_prompt: "Compact.".to_string(),
        compaction_threshold: 100,
        sandbox_dir: ".".to_string(),
        sandbox_roots: vec![],
        read_extensions: vec!["txt".to_string(), "md".to_string()],
        write_extensions: vec!["rs".to_string(), "toml".to_string()],
        rag_dirs: vec![],
        rag_exclusions: vec![],
        rag_use_gpu: false,
        embedding_model: String::new(),
    }
}

#[test]
fn from_config_produces_deterministic_signature() {
    let config = test_config();
    let sig1 = ConfigSignature::from_config(&config);
    let sig2 = ConfigSignature::from_config(&config);
    assert_eq!(sig1, sig2);
}

#[test]
fn extension_order_insensitivity() {
    let mut config = test_config();
    config.read_extensions = ["md", "txt"].iter().map(|s| s.to_string()).collect();
    config.write_extensions = ["toml", "rs"].iter().map(|s| s.to_string()).collect();
    let sig1 = ConfigSignature::from_config(&config);

    config.read_extensions = ["txt", "md"].iter().map(|s| s.to_string()).collect();
    config.write_extensions = ["rs", "toml"].iter().map(|s| s.to_string()).collect();
    let sig2 = ConfigSignature::from_config(&config);

    assert_eq!(sig1, sig2, "extension ordering should not affect signature");
}

#[test]
fn empty_differs_from_real_config() {
    let config = test_config();
    let sig = ConfigSignature::from_config(&config);
    let empty = ConfigSignature::empty();
    assert_ne!(sig, empty, "real config signature should differ from empty");
}

#[test]
fn different_provider_produces_different_signature() {
    let mut config = test_config();
    let sig_openai = ConfigSignature::from_config(&config);
    config.provider = Providers::Gemini;
    let sig_gemini = ConfigSignature::from_config(&config);
    assert_ne!(sig_openai, sig_gemini);
}

#[test]
fn different_model_produces_different_signature() {
    let mut config = test_config();
    let sig1 = ConfigSignature::from_config(&config);
    config.chat_model = "gpt-3.5-turbo".to_string();
    let sig2 = ConfigSignature::from_config(&config);
    assert_ne!(sig1, sig2);
}

#[test]
fn signature_sorts_and_joins_extensions() {
    let mut config = test_config();
    config.read_extensions = vec!["txt".to_string(), "md".to_string(), "Zed".to_string(), "pdf".to_string()];
    let sig = ConfigSignature::from_config(&config);
    assert_eq!(sig.read_extensions, "Zed,md,pdf,txt");
    assert_eq!(sig.write_extensions, "rs,toml");
    assert!(sig.same_as(&ConfigSignature::from_config(&config)));
    assert!(!sig.same_as(&ConfigSignature::empty()));
}

#[test]
fn repeated_extensions_count_once() {
    let mut config = test_config();
    config.read_extensions = vec!["md".to_string(), "txt".to_string(), "md".to_string()];
    let sig = ConfigSignature::from_config(&config);
    assert_eq!(sig.read_extensions, "md,txt");
    config.read_extensions = vec!["txt".to_string(), "md".to_string()];
    assert!(sig.same_as(&ConfigSignature::from_config(&config)));
}

#[test]
fn agent_slot_rebuilds_only_on_change() {
    let config = test_config();
    let mut slot: AgentSlot<u32> = AgentSlot::new();
    assert!(slot.needs_rebuild(&config));
    assert!(slot.current().is_err());
    assert!(slot.store(&config, 7));
    assert!(!slot.needs_rebuild(&config));
    assert_eq!(*slot.current().unwrap(), 7);
    assert!(!slot.store(&config, 8), "same signature: second build is not stored");
    assert_eq!(*slot.current().unwrap(), 7);

    let mut other = test_config();
    other.compaction_threshold = 200;
    assert!(slot.needs_rebuild(&other));
    assert!(slot.store(&other, 9));
    assert_eq!(*slot.current().unwrap(), 9);
    assert_eq!(slot.signature_snapshot(), ConfigSignature::from_config(&other));
}

#[test]
fn agent_slot_restart_forces_rebuild() {
    let config = test_config();
    let mut slot: AgentSlot<u32> = AgentSlot::new();
    slot.store(&config, 1);
    slot.restart();
    assert!(slot.needs_rebuild(&config));
    assert_eq!(slot.signature_snapshot(), ConfigSignature::empty());
    match slot.current() {
        Err(jarvis::errors::AppError::SystemError(m)) => assert_eq!(m, "Agent failed to initialize"),
        _ => panic!("expected error"),
    }
}
