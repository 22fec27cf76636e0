use jarvis::documents::{
    assemble_pdf_text, document_kind, read_document_description, read_request_description,
    token_count_response, DocumentKind, JarvisPdfLoader, ReadDocumentArgs,
};
use jarvis::errors::AppError;
use jarvis::history::{AssistantContent, Message, UserContent};
use jarvis::session_store::{
    compaction_shift_sql, decode_rows, message_role, require_session_touched, rows_to_save, MessageRole,
};
use jarvis::stream::{stream_step, StreamConsumer, StreamEvent, StreamItem, StreamStep};

type Msg = Message<String>;

fn history() -> Vec<Msg> {
    vec![
        Message::System { content: "s".to_string() },
        Message::User { content: vec![UserContent::Text("q".to_string())] },
        Message::Assistant { id: None, content: vec![AssistantContent::Text("a".to_string())] },
    ]
}

#[test]
fn message_roles_round_trip() {
    for r in [MessageRole::User, MessageRole::Assistant, MessageRole::Tool, MessageRole::System] {
        assert_eq!(MessageRole::parse_name(r.as_str()).unwrap(), r);
        assert_eq!(r.to_string(), r.as_str());
    }
    assert_eq!("Tool".parse::<MessageRole>().unwrap(), MessageRole::Tool);
    assert_eq!(MessageRole::parse_name("user").unwrap_err(), "Unknown message role: user");
    let h = history();
    assert_eq!(message_role(&h[0]), MessageRole::System);
    assert_eq!(message_role(&h[1]), MessageRole::User);
    assert_eq!(message_role(&h[2]), MessageRole::Assistant);
}

#[test]
fn save_inserts_only_unsaved_messages() {
    let h = history();
    let rows = rows_to_save(&h, None);
    assert_eq!(rows.len(), 3);
    assert_eq!((rows[0].index, rows[0].seq, rows[0].role), (0, 0, MessageRole::System));
    let rows = rows_to_save(&h, Some(0));
    assert_eq!(rows.len(), 2);
    assert_eq!((rows[0].index, rows[0].seq, rows[0].role), (1, 1, MessageRole::User));
    assert_eq!((rows[1].index, rows[1].seq), (2, 2));
    assert!(rows_to_save(&h, Some(2)).is_empty());
    assert!(rows_to_save(&h, Some(10)).is_empty());
    assert!(rows_to_save(&h, Some(-5)).is_empty());
}

fn user(text: &str) -> Msg {
    Message::User { content: vec![UserContent::Text(text.to_string())] }
}

#[test]
fn save_plan_appends_with_correct_seq() {
    let mut h: Vec<Msg> = vec![
        user("msg0"),
        Message::Assistant { id: None, content: vec![AssistantContent::Text("msg1".to_string())] },
        user("msg2"),
    ];
    let first: Vec<i32> = rows_to_save(&h, None).iter().map(|r| r.seq).collect();
    assert_eq!(first, vec![0, 1, 2]);
    h.push(user("msg3_new"));
    let rows = rows_to_save(&h, Some(2));
    assert_eq!(rows.len(), 1, "should have exactly 4 rows after appending one message");
    assert_eq!((rows[0].index, rows[0].seq, rows[0].role), (3, 3, MessageRole::User));
}

#[test]
fn compaction_statement_renumbers_kept_rows() {
    let h: Vec<Msg> = (0..10).map(|i| user(&format!("msg{}", i))).collect();
    assert_eq!(rows_to_save(&h, None).len(), 10);
    // Rows 0..=6 give way to the summary at 0; rows 7, 8, 9 move to 1, 2, 3.
    assert_eq!(compaction_shift_sql(6), "UPDATE session_messages SET seq = seq - 6 WHERE session_id = ?1");
    assert_eq!(message_role(&Message::<()>::Assistant { id: None, content: vec![] }).as_str(), "Assistant");
}

#[test]
fn stored_rows_are_decoded_in_order() {
    let ok: Vec<(String, Result<u8, AppError>)> =
        vec![("User".to_string(), Ok(1)), ("Assistant".to_string(), Ok(2))];
    assert_eq!(decode_rows(ok).unwrap(), vec![1, 2]);
    let bad_role: Vec<(String, Result<u8, AppError>)> = vec![
        ("User".to_string(), Ok(1)),
        ("Robot".to_string(), Ok(2)),
        ("User".to_string(), Err(AppError::SystemError("json".to_string()))),
    ];
    match decode_rows(bad_role) {
        Err(AppError::SystemError(m)) => assert_eq!(m, "Unknown message role: Robot"),
        _ => panic!("expected error"),
    }
    let bad_json: Vec<(String, Result<u8, AppError>)> =
        vec![("User".to_string(), Err(AppError::SystemError("expected value".to_string())))];
    match decode_rows(bad_json) {
        Err(AppError::SystemError(m)) => assert_eq!(m, "expected value"),
        _ => panic!("expected error"),
    }
}

#[test]
fn session_updates_need_a_row_and_compaction_statement() {
    assert!(require_session_touched(1).is_ok());
    match require_session_touched(0) {
        Err(AppError::SystemError(m)) => assert_eq!(m, "Session not found"),
        _ => panic!("expected error"),
    }
    assert_eq!(compaction_shift_sql(12), "UPDATE session_messages SET seq = seq - 12 WHERE session_id = ?1");
    assert_eq!(compaction_shift_sql(-3), "UPDATE session_messages SET seq = seq - -3 WHERE session_id = ?1");
    assert_eq!(
        compaction_shift_sql(i32::MIN),
        format!("UPDATE session_messages SET seq = seq - {} WHERE session_id = ?1", i32::MIN)
    );
}

fn events(step: StreamStep) -> Vec<StreamEvent> {
    match step {
        StreamStep::Emit(evs) => evs,
        _ => panic!("expected events"),
    }
}

#[test]
fn text_delta_sends_text_event() {
    let evs = events(stream_step(StreamItem::Text("hello".to_string())));
    assert_eq!(evs.len(), 1);
    match &evs[0] {
        StreamEvent::Text { delta } => assert_eq!(delta, "hello"),
        other => panic!("expected Text event, got {:?}", other),
    }
}

#[test]
fn tool_call_sends_start_and_end() {
    let evs = events(stream_step(StreamItem::ToolCall {
        internal_call_id: "ic1".to_string(),
        name: "read_file".to_string(),
        arguments: "{\"path\":\"/foo\"}".to_string(),
    }));
    assert_eq!(evs.len(), 2);
    match (&evs[0], &evs[1]) {
        (StreamEvent::ToolCallStart { id, name }, StreamEvent::ToolCallEnd { id: id2, args }) => {
            assert_eq!((id.as_str(), name.as_str()), ("ic1", "read_file"));
            assert_eq!(id2, "ic1");
            assert!(args.contains("/foo"));
        }
        other => panic!("unexpected {:?}", other),
    }
}

#[test]
fn reasoning_and_deltas_map_to_events() {
    match &events(stream_step(StreamItem::Reasoning { id: None, text: "think".to_string() }))[0] {
        StreamEvent::Reasoning { id, delta, is_final } => {
            assert_eq!((id.as_str(), delta.as_str(), *is_final), ("", "think", true))
        }
        other => panic!("unexpected {:?}", other),
    }
    match &events(stream_step(StreamItem::ReasoningDelta { id: Some("r1".to_string()), reasoning: "t".to_string() }))[0] {
        StreamEvent::Reasoning { id, delta, is_final } => {
            assert_eq!((id.as_str(), delta.as_str(), *is_final), ("r1", "t", false))
        }
        other => panic!("unexpected {:?}", other),
    }
    match &events(stream_step(StreamItem::ToolCallArgs { internal_call_id: "c".to_string(), delta: "{".to_string() }))[0] {
        StreamEvent::ToolCallDelta { id, args_delta } => assert_eq!((id.as_str(), args_delta.as_str()), ("c", "{")),
        other => panic!("unexpected {:?}", other),
    }
    match &events(stream_step(StreamItem::ToolCallName { internal_call_id: "c".to_string(), name: "n".to_string() }))[0] {
        StreamEvent::ToolCallStart { id, name } => assert_eq!((id.as_str(), name.as_str()), ("c", "n")),
        other => panic!("unexpected {:?}", other),
    }
}

#[test]
fn final_response_logs_and_completes() {
    assert!(matches!(stream_step(StreamItem::FinalResponse), StreamStep::Skip));
    assert!(matches!(stream_step(StreamItem::Other), StreamStep::Skip));
    assert!(StreamConsumer::new().finish().is_ok());
}

#[test]
fn stream_error_returns_system_error() {
    match stream_step(StreamItem::Failed("test error".to_string())) {
        StreamStep::Fail(AppError::SystemError(m)) => assert!(m.contains("test error")),
        other => panic!("expected SystemError, got {:?}", other),
    }
}

#[test]
fn closed_channel_aborts_stream() {
    let mut c = StreamConsumer::new();
    assert!(c.finish().is_ok());
    assert!(c.record_send(true));
    assert!(!c.is_aborted());
    assert!(!c.record_send(false));
    assert!(c.is_aborted());
    match c.finish() {
        Err(AppError::SystemError(m)) => assert_eq!(m, "Stream aborted: channel closed"),
        _ => panic!("expected abort"),
    }
}

#[test]
fn document_tool_texts_and_kinds() {
    assert_eq!(
        read_document_description(&vec!["txt".to_string(), "pdf".to_string()]),
        "Read the content of a document or text file. Supports: .txt, .pdf. Paths are resolved within the configured sandbox root(s)."
    );
    assert_eq!(read_request_description("a/b.md"), "Wants to read file asset at [a/b.md]");
    let allowed = vec!["md".to_string(), "pdf".to_string()];
    assert_eq!(document_kind("pdf", &allowed).unwrap(), DocumentKind::Pdf);
    assert_eq!(document_kind("md", &allowed).unwrap(), DocumentKind::Text);
    assert_eq!(document_kind("exe", &allowed).unwrap_err(), "exe");
    assert_eq!(document_kind("", &allowed).unwrap_err(), "");
    let args = ReadDocumentArgs { path: "x".to_string() };
    assert_eq!(args.path, "x");
}

#[test]
fn pdf_pages_are_joined() {
    let pages = vec![Ok("one".to_string()), Ok(String::new()), Ok("three".to_string())];
    assert_eq!(assemble_pdf_text(&pages).unwrap(), "one\n\nthree");
    let leading_empty = vec![Ok(String::new()), Ok("two".to_string())];
    assert_eq!(assemble_pdf_text(&leading_empty).unwrap(), "two");
    let failing = vec![Ok("one".to_string()), Err("bad font".to_string()), Err("later".to_string())];
    assert_eq!(assemble_pdf_text(&failing).unwrap_err(), "page 2 extraction failed: bad font");
    let loader = JarvisPdfLoader;
    let meta = loader.metadata(Some("report.pdf"));
    assert_eq!(meta, vec![("source".to_string(), "report.pdf".to_string()), ("file_type".to_string(), "pdf".to_string())]);
    assert_eq!(loader.metadata(None)[0].1, "unknown");
}

#[test]
fn token_counts_add_up() {
    let r = token_count_response(10, 5);
    assert_eq!((r.prompt_tokens, r.response_tokens, r.total_tokens), (10, 5, 15));
}
