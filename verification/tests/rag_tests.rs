use jarvis::config::AppConfig;
use jarvis::errors::AppError;
use jarvis::indexing::{
    group_announced, includes_folder, mtime_to_store, nothing_found, optimizing, oversized_skipped, rag_dir_missing,
    save_failed, scan_started, vault_missing, vault_scan, FileAction, IndexingRun, VaultScan,
};
use jarvis::providers::Providers;
use jarvis::rag::{
    assert_within_rag_dirs, discovered_folder, execution_providers, forward_slashes, is_indexable_extension,
    is_oversized, is_vector_index_file, path_is_under, rag_telemetry, sort_entries, telemetry_dirs,
    ExecutionProvider, RagCache, RagDirEntry, TargetOs, MAX_INDEX_FILE_BYTES,
};
use jarvis::search::{chunk_ids, match_hits, parse_i64};
use jarvis::size_format::human_readable_size;

fn config(sandbox: &str) -> AppConfig {
    AppConfig {
        provider: Providers::OpenAI,
        api_key: String::new(),
        chat_model: String::new(),
        chat_base_url: String::new(),
        mcp_config_path: String::new(),
        transcription_model_path: String::new(),
        database_name: String::new(),
        system_prompt: String::new(),
        compaction_prompt: String::new(),
        compaction_threshold: 0,
        sandbox_dir: sandbox.to_string(),
        sandbox_roots: vec![],
        silence_duration_ms: 0,
        read_extensions: vec![],
        write_extensions: vec![],
        rag_dirs: vec!["/docs".to_string()],
        rag_exclusions: vec!["Private".to_string()],
        rag_use_gpu: false,
        embedding_model: String::new(),
    }
}

fn float_size(bytes: u64) -> String {
    let units = ["B", "KB", "MB", "GB"];
    let mut size = bytes as f64;
    let mut unit_idx = 0;
    while size >= 1024.0 && unit_idx < units.len() - 1 {
        size /= 1024.0;
        unit_idx += 1;
    }
    if unit_idx == 0 {
        format!("{} {}", bytes, units[unit_idx])
    } else {
        format!("{:.1} {}", size, units[unit_idx])
    }
}

#[test]
fn human_readable_size_exact_values() {
    assert_eq!(human_readable_size(0), "0 B");
    assert_eq!(human_readable_size(1023), "1023 B");
    assert_eq!(human_readable_size(1024), "1.0 KB");
    assert_eq!(human_readable_size(1536), "1.5 KB");
    assert_eq!(human_readable_size(1048575), "1024.0 KB");
    assert_eq!(human_readable_size(1048576), "1.0 MB");
    assert_eq!(human_readable_size(5 * 1073741824), "5.0 GB");
}

#[test]
fn human_readable_size_matches_float_rendering() {
    let mut samples: Vec<u64> = vec![
        1, 999, 1024, 1025, 1075, 1126, 1177, 10240, 10291, 123456, 999999, 1048576 + 52428, 3 * 1048576 / 2,
        104857600, 1073741824, 1181116006, 1288490188, u64::MAX, u64::MAX - 1, 1 << 53, (1 << 53) + 1,
        (1 << 54) + 3, 9007199254740993, 18014398509481985, 12345678901234567890,
    ];
    let mut x: u64 = 0x9E3779B97F4A7C15;
    for _ in 0..20000 {
        x ^= x << 13;
        x ^= x >> 7;
        x ^= x << 17;
        samples.push(x >> (x % 60));
    }
    for k in 0..4u32 {
        let scale = 1u64 << (10 * k);
        for t in 0..2000u64 {
            samples.push(t * scale / 20 + scale);
            samples.push((t * 2 + 1) * scale / 20);
        }
    }
    for b in samples {
        assert_eq!(human_readable_size(b), float_size(b), "bytes = {}", b);
    }
}

#[test]
fn indexable_and_index_files() {
    assert!(is_indexable_extension(Some("txt")));
    assert!(is_indexable_extension(Some("md")));
    assert!(is_indexable_extension(Some("pdf")));
    assert!(!is_indexable_extension(Some("PDF")));
    assert!(!is_indexable_extension(None));
    assert!(is_vector_index_file(Some("tvim")));
    assert!(!is_vector_index_file(Some("db")));
    assert!(!is_oversized(MAX_INDEX_FILE_BYTES));
    assert!(is_oversized(MAX_INDEX_FILE_BYTES + 1));
    assert_eq!(MAX_INDEX_FILE_BYTES, 200 * 1024 * 1024);
}

#[test]
fn paths_under_rag_dirs() {
    let l = TargetOs::Linux;
    assert!(path_is_under("/docs/a.md", "/docs", l));
    assert!(path_is_under("/docs", "/docs", l));
    assert!(!path_is_under("/docsx/a.md", "/docs", l));
    assert!(path_is_under("/anything", "/", l));
    assert!(!path_is_under("/docs\\a.md", "/docs", l));
    let roots = vec![None, Some("/notes".to_string()), Some("/docs".to_string())];
    assert!(assert_within_rag_dirs("/docs/sub/x.txt", &roots, l).is_ok());
    match assert_within_rag_dirs("/etc/passwd", &roots, l) {
        Err(AppError::SystemError(m)) => assert_eq!(m, "path is not within a configured RAG directory"),
        _ => panic!("expected error"),
    }
}

#[test]
fn windows_paths_under_rag_dirs() {
    let w = TargetOs::Windows;
    assert!(path_is_under("\\\\?\\C:\\Users\\me\\notes\\a.md", "\\\\?\\C:\\Users\\me\\notes", w));
    assert!(!path_is_under("\\\\?\\C:\\Users\\me\\notesx\\a.md", "\\\\?\\C:\\Users\\me\\notes", w));
    assert!(path_is_under("C:\\a.md", "C:\\", w));
    let roots = vec![Some("C:\\docs".to_string())];
    assert!(assert_within_rag_dirs("C:\\docs\\sub\\x.txt", &roots, w).is_ok());
    assert!(assert_within_rag_dirs("C:\\docsx\\x.txt", &roots, w).is_err());
}

#[test]
fn rag_entries_sorted_by_lowercase_name() {
    let e = |n: &str| RagDirEntry { name: n.to_string(), is_dir: false, path: format!("/r/{}", n), size: Some(1) };
    let sorted = sort_entries(vec![e("b.md"), e("A.txt"), e("c/d.pdf"), e("a.md")]);
    let names: Vec<&str> = sorted.iter().map(|x| x.name.as_str()).collect();
    assert_eq!(names, vec!["a.md", "A.txt", "b.md", "c/d.pdf"]);
    assert_eq!(forward_slashes("sub\\dir\\f.md"), "sub/dir/f.md");
}

#[test]
fn rag_entries_with_equal_keys_keep_their_order() {
    let e = |n: &str, p: &str| RagDirEntry { name: n.to_string(), is_dir: false, path: p.to_string(), size: None };
    let sorted = sort_entries(vec![e("Notes", "/1"), e("zeta", "/2"), e("notes", "/3"), e("NOTES", "/4")]);
    let paths: Vec<&str> = sorted.iter().map(|x| x.path.as_str()).collect();
    assert_eq!(paths, vec!["/1", "/3", "/4", "/2"]);
}

#[test]
fn telemetry_counts_and_sizes() {
    let c = config("/vault");
    assert_eq!(telemetry_dirs(&c), vec!["/vault".to_string(), "/docs".to_string()]);
    assert_eq!(telemetry_dirs(&config(".")), vec!["/docs".to_string()]);
    let t = rag_telemetry(&vec![3, 4], 5, 42, 1024, 512);
    assert_eq!(t.total_notes, 7);
    assert_eq!(t.indexed_notes, 5);
    assert_eq!(t.total_chunks, 42);
    assert_eq!(t.db_size, "1.5 KB");
    let f = discovered_folder("id".to_string(), "Private".to_string(), 3, &c);
    assert!(f.excluded);
    assert_eq!(f.count, 3);
    assert!(!discovered_folder("id".to_string(), "Work".to_string(), 0, &c).excluded);
}

#[test]
fn execution_providers_per_platform() {
    assert_eq!(execution_providers(true, TargetOs::Linux), vec![ExecutionProvider::Cuda, ExecutionProvider::Rocm, ExecutionProvider::Cpu]);
    assert_eq!(execution_providers(true, TargetOs::Windows), vec![ExecutionProvider::DirectMl, ExecutionProvider::Cpu]);
    assert_eq!(execution_providers(true, TargetOs::Other), vec![ExecutionProvider::Cpu]);
    assert_eq!(execution_providers(false, TargetOs::Linux), vec![ExecutionProvider::Cpu]);
}

#[test]
fn rag_cache_reuses_matching_fingerprint() {
    let mut cache: RagCache<u8> = RagCache::new();
    assert!(cache.lookup("m:false").is_none());
    cache.store("m:false".to_string(), 7, "/data/rag.tvim".to_string());
    assert_eq!(cache.lookup("m:false"), Some(&7));
    assert!(cache.lookup("m:true").is_none());
    assert_eq!(cache.get(), Some(&7));
    cache.clear();
    assert!(cache.get().is_none());
    assert!(cache.lookup("m:false").is_none());
}

#[test]
fn indexing_messages() {
    assert_eq!(scan_started("/v").message, "[START] Commencing directory scan at \"/v\"");
    assert_eq!(scan_started("/v").level, "INIT");
    assert_eq!(vault_missing("/v").message, "[INDEX] Vault path not found, skipping: /v");
    assert_eq!(rag_dir_missing("/d").message, "[INDEX] Indexed dir missing, skipping: /d");
    assert_eq!(oversized_skipped("/big.pdf").message, "[INDEX] Skipping oversized file (>50 MB): /big.pdf");
    assert_eq!(group_announced(Some("notes"), 12).message, "[INDEX] Indexing notes: 12 files");
    assert_eq!(group_announced(None, 0).message, "[INDEX] Indexing unknown: 0 files");
    let n = nothing_found();
    assert_eq!((n.level.as_str(), n.message.as_str(), n.progress), ("ERROR", "no indexable files found", 0));
    let o = optimizing();
    assert_eq!((o.level.as_str(), o.progress), ("OPTIMIZE", 95));
    let (p, e) = save_failed("disk full");
    assert_eq!(p.message, "failed to save vector index: disk full");
    assert_eq!(p.progress, 95);
    assert!(matches!(e, AppError::SystemError(m) if m == "failed to save vector index: disk full"));
}

#[test]
fn vault_and_folder_choices() {
    assert!(matches!(vault_scan("", false), VaultScan::Skip));
    assert!(matches!(vault_scan("/v", false), VaultScan::Missing));
    assert!(matches!(vault_scan("/v", true), VaultScan::Scan));
    let c = config("/vault");
    assert!(!includes_folder(&c, "Private"));
    assert!(includes_folder(&c, "Work"));
}

#[test]
fn indexing_run_counts_and_reports() {
    assert!(matches!(IndexingRun::start(0, false), Err(AppError::SystemError(m)) if m == "no indexable files found"));
    let mut run = IndexingRun::start(4, false).unwrap();
    assert_eq!(run.action(Some(10), Some(10)), FileAction::Skip);
    assert_eq!(run.action(Some(10), Some(11)), FileAction::Reindex);
    assert_eq!(run.action(Some(10), None), FileAction::Reindex);
    assert_eq!(run.action(None, Some(3)), FileAction::Add);
    let p = run.record_skip(22).unwrap();
    assert_eq!((p.level.as_str(), p.message.as_str(), p.progress), ("INDEX", "", 22));
    let p = run.record_indexed(FileAction::Add, 45).unwrap();
    assert_eq!(p.progress, 45);
    assert!(run.record_indexed(FileAction::Reindex, 45).is_none());
    let (fail, prog) = run.record_failure("/x.md", "boom", 250);
    assert_eq!(fail.message, "[INDEX] Failed to index /x.md: boom \u{2014} skipping");
    assert_eq!(fail.progress, 45);
    assert_eq!(prog.unwrap().progress, 90);
    assert_eq!(run.last_progress(), 90);
    assert!(run.is_complete());
    let s = run.summary();
    assert_eq!(s.message, "[SUCCESS] Ingestion completed. New: 1, Reindexed: 1, Skipped: 1, Failed: 1");
    assert_eq!((s.level.as_str(), s.progress), ("SUCCESS", 100));
    let mut forced = IndexingRun::start(1, true).unwrap();
    assert!(!forced.is_complete());
    assert_eq!(forced.action(Some(10), Some(1)), FileAction::Reindex);
    assert_eq!(forced.action(None, None), FileAction::Reindex);
    forced.record_indexed(FileAction::Reindex, 90);
    assert_eq!(forced.summary().message, "[SUCCESS] Ingestion completed. New: 0, Reindexed: 1, Skipped: 0, Failed: 0");
    assert_eq!(mtime_to_store(true, Some(5)), Some(5));
    assert_eq!(mtime_to_store(false, Some(5)), None);
}

#[test]
fn parse_i64_like_std() {
    for s in [
        "0", "42", "-42", "+7", "007", "-0", "9223372036854775807", "-9223372036854775808",
        "9223372036854775808", "-9223372036854775809", "", "-", "+", "1a", " 1", "1 ", "99999999999999999999999",
        "00000000000000000000000000001", "+-1", "١",
    ] {
        assert_eq!(parse_i64(s), s.parse::<i64>().ok(), "input {:?}", s);
    }
}

#[test]
fn hits_are_joined_with_rows() {
    let hits = vec!["3".to_string(), "x".to_string(), "5".to_string(), "9".to_string(), "3".to_string()];
    assert_eq!(chunk_ids(&hits), vec![3, 5, 9, 3]);
    let rows = vec![5, 3, 7, 3];
    assert_eq!(match_hits(&hits, &rows), vec![(0, 3), (2, 0), (4, 3)]);
}
