use jarvis::compaction::{compaction_plan, count_history_tokens, message_text, user_message_text};
use jarvis::history::{
    assistant_message_text, contains_tool_call, deduplicate_consecutive_assistant_messages,
    final_response_text, prepare_prompt_with_attachments, update_history_with_clean_user_message,
    AssistantContent, Message, UserContent,
};
use jarvis::errors::AppError;

type Msg = Message<String>;

fn user_msg(text: &str) -> Msg {
    Message::User {
        content: vec![UserContent::Text(text.to_string())],
    }
}

fn assistant_msg(text: &str) -> Msg {
    Message::Assistant {
        id: None,
        content: vec![AssistantContent::Text(text.to_string())],
    }
}

fn assistant_msg_with_tool(text: &str, tool_name: &str) -> Msg {
    Message::Assistant {
        id: None,
        content: vec![
            AssistantContent::Text(text.to_string()),
            AssistantContent::ToolCall(tool_name.to_string()),
        ],
    }
}

fn first_user_text(m: &Msg) -> String {
    match m {
        Message::User { content } => match &content[0] {
            UserContent::Text(t) => t.clone(),
            _ => panic!("expected text"),
        },
        _ => panic!("expected user message"),
    }
}

// ── assistant_message_text ──────────────────────────────────────

#[test]
fn assistant_message_text_single_block() {
    let content: Vec<AssistantContent<String>> = vec![AssistantContent::Text("hello".to_string())];
    assert_eq!(assistant_message_text(&content), "hello");
}

#[test]
fn assistant_message_text_multiple_text_blocks() {
    let content: Vec<AssistantContent<String>> = vec![
        AssistantContent::Text("hello".to_string()),
        AssistantContent::Text("world".to_string()),
    ];
    assert_eq!(assistant_message_text(&content), "hello\nworld");
}

#[test]
fn assistant_message_text_mixed_content_filters_non_text() {
    let content: Vec<AssistantContent<String>> = vec![
        AssistantContent::Text("answer".to_string()),
        AssistantContent::ToolCall("search".to_string()),
    ];
    assert_eq!(assistant_message_text(&content), "answer");
}

// ── deduplicate_consecutive_assistant_messages ──────────────────

#[test]
fn dedup_empty_history() {
    let result = deduplicate_consecutive_assistant_messages::<String>(vec![]);
    assert!(result.is_empty());
}

#[test]
fn dedup_no_duplicates() {
    let history = vec![user_msg("hi"), assistant_msg("a"), user_msg("bye")];
    let result = deduplicate_consecutive_assistant_messages(history);
    assert_eq!(result.len(), 3);
}

#[test]
fn dedup_two_consecutive_identical_text_only() {
    let history = vec![assistant_msg("dup"), assistant_msg("dup")];
    let result = deduplicate_consecutive_assistant_messages(history);
    assert_eq!(result.len(), 1);
}

#[test]
fn dedup_three_consecutive_identical() {
    let history = vec![assistant_msg("dup"), assistant_msg("dup"), assistant_msg("dup")];
    let result = deduplicate_consecutive_assistant_messages(history);
    assert_eq!(result.len(), 1);
}

#[test]
fn dedup_non_consecutive_duplicates_kept() {
    let history = vec![assistant_msg("a"), user_msg("q"), assistant_msg("a")];
    let result = deduplicate_consecutive_assistant_messages(history);
    assert_eq!(result.len(), 3);
}

#[test]
fn dedup_user_message_interleaving() {
    let history = vec![user_msg("q1"), assistant_msg("a1"), user_msg("q2"), assistant_msg("a1")];
    let result = deduplicate_consecutive_assistant_messages(history);
    assert_eq!(result.len(), 4);
}

#[test]
fn dedup_all_assistant_identical() {
    let history = vec![
        assistant_msg("x"),
        assistant_msg("x"),
        assistant_msg("x"),
        assistant_msg("x"),
    ];
    let result = deduplicate_consecutive_assistant_messages(history);
    assert_eq!(result.len(), 1);
}

#[test]
fn dedup_with_tools_replaces_text_only() {
    let history = vec![assistant_msg("answer"), assistant_msg_with_tool("answer", "search")];
    let result = deduplicate_consecutive_assistant_messages(history);
    assert_eq!(result.len(), 1);
    if let Message::Assistant { content, .. } = &result[0] {
        assert!(content.iter().any(|item| matches!(item, AssistantContent::ToolCall(_))));
    } else {
        panic!("expected assistant message");
    }
}

#[test]
fn dedup_both_with_tools_not_deduped() {
    let history = vec![
        assistant_msg_with_tool("answer", "search"),
        assistant_msg_with_tool("answer", "read"),
    ];
    let result = deduplicate_consecutive_assistant_messages(history);
    assert_eq!(result.len(), 2);
}

#[test]
fn dedup_tool_version_first_keeps_it() {
    let history = vec![assistant_msg_with_tool("answer", "search"), assistant_msg("answer")];
    let result = deduplicate_consecutive_assistant_messages(history);
    assert_eq!(result.len(), 1);
    if let Message::Assistant { content, .. } = &result[0] {
        assert!(contains_tool_call(content));
    } else {
        panic!("expected assistant message");
    }
}

#[test]
fn dedup_twice_changes_nothing_more() {
    let history = vec![
        user_msg("q"),
        assistant_msg("a"),
        assistant_msg("a"),
        assistant_msg_with_tool("a", "t"),
        user_msg("q2"),
    ];
    let once = deduplicate_consecutive_assistant_messages(history);
    let n = once.len();
    let twice = deduplicate_consecutive_assistant_messages(once);
    assert_eq!(twice.len(), n);
    assert_eq!(n, 3);
}

// ── update_history_with_clean_user_message ──────────────────────

#[test]
fn clean_user_msg_replaces_attachment_metadata() {
    let mut history = vec![
        user_msg("[Attached Document: /path/file.txt]\nOriginal prompt"),
        assistant_msg("response"),
    ];
    update_history_with_clean_user_message(&mut history, "New prompt", Some(&["/path/file.txt".to_string()]));
    let text = first_user_text(&history[0]);
    assert!(text.starts_with("[Attached: /path/file.txt]"));
    assert!(text.contains("New prompt"));
    assert!(!text.contains("[Attached Document:"));
}

#[test]
fn clean_user_msg_noop_without_attachments() {
    let mut history = vec![user_msg("hello")];
    update_history_with_clean_user_message(&mut history, "hello", None);
    assert_eq!(first_user_text(&history[0]), "hello");
}

#[test]
fn clean_user_msg_noop_with_empty_attachments() {
    let mut history = vec![user_msg("hello")];
    update_history_with_clean_user_message(&mut history, "hello", Some(&[]));
    assert_eq!(first_user_text(&history[0]), "hello");
}

#[test]
fn clean_user_msg_exact_text_and_last_match() {
    let mut history = vec![
        user_msg("[Attached Document: /a]\nold"),
        assistant_msg("r1"),
        user_msg("[Attached Document: /b]\nnewer"),
        assistant_msg("r2"),
    ];
    update_history_with_clean_user_message(
        &mut history,
        "question",
        Some(&["/b".to_string(), "/c".to_string()]),
    );
    assert_eq!(first_user_text(&history[2]), "[Attached: /b]\n[Attached: /c]\nquestion");
    assert_eq!(first_user_text(&history[0]), "[Attached Document: /a]\nold");
}

#[test]
fn clean_user_msg_without_attachment_message_changes_nothing() {
    let mut history = vec![user_msg("plain"), assistant_msg("r")];
    update_history_with_clean_user_message(&mut history, "x", Some(&["/p".to_string()]));
    assert_eq!(first_user_text(&history[0]), "plain");
    assert_eq!(history.len(), 2);
}

// ── prepare_prompt_with_attachments ─────────────────────────────

#[test]
fn prepare_prompt_no_attachments() {
    let result = prepare_prompt_with_attachments("hello", None);
    assert_eq!(result, "hello");
}

#[test]
fn prepare_prompt_with_attachment_paths() {
    let result = prepare_prompt_with_attachments(
        "hello",
        Some(&["/path/a.txt".to_string(), "/path/b.txt".to_string()]),
    );
    assert!(result.contains("[Attached Document: /path/a.txt]"));
    assert!(result.contains("[Attached Document: /path/b.txt]"));
    assert!(result.ends_with("hello"));
}

#[test]
fn prepare_prompt_exact_hint_text() {
    let result = prepare_prompt_with_attachments("q", Some(&["/x.md".to_string()]));
    assert_eq!(
        result,
        "[Attached Document: /x.md]\nUse the 'read_document' tool to read this file if you need to access its contents.\n\nq"
    );
}

// ── final_response_text ─────────────────────────────────────────

#[test]
fn final_response_takes_first_text_of_last_message() {
    let history = vec![
        user_msg("q"),
        Message::Assistant {
            id: None,
            content: vec![
                AssistantContent::ToolCall("t".to_string()),
                AssistantContent::Text("first".to_string()),
                AssistantContent::Text("second".to_string()),
            ],
        },
    ];
    assert_eq!(final_response_text(&history).unwrap(), "first");
}

#[test]
fn final_response_without_assistant_fails() {
    let history = vec![user_msg("q")];
    match final_response_text(&history) {
        Err(AppError::SystemError(m)) => assert_eq!(
            m,
            "Streaming response completed but no assistant message was appended to history"
        ),
        other => panic!("unexpected {:?}", other),
    }
    let empty: Vec<Msg> = vec![];
    assert!(final_response_text(&empty).is_err());
}

#[test]
fn final_response_without_text_fails() {
    let history = vec![Message::Assistant {
        id: None,
        content: vec![AssistantContent::ToolCall("t".to_string())],
    }];
    match final_response_text(&history) {
        Err(AppError::SystemError(m)) => assert_eq!(
            m,
            "Streaming response completed but did not contain any text content"
        ),
        other => panic!("unexpected {:?}", other),
    }
}

// ── token text and compaction ───────────────────────────────────

#[test]
fn message_text_joins_per_role() {
    let u: Msg = Message::User {
        content: vec![
            UserContent::Text("a".to_string()),
            UserContent::Other("img".to_string()),
            UserContent::Text("b".to_string()),
        ],
    };
    assert_eq!(message_text(&u), "a b");
    let a: Msg = Message::Assistant {
        id: None,
        content: vec![AssistantContent::Text("x".to_string()), AssistantContent::Text("y".to_string())],
    };
    assert_eq!(message_text(&a), "x\ny");
    let s: Msg = Message::System { content: "sys".to_string() };
    assert_eq!(message_text(&s), "sys");
    let c: Vec<UserContent<String>> = vec![];
    assert_eq!(user_message_text(&c), "");
}

#[test]
fn history_tokens_are_summed() {
    assert_eq!(count_history_tokens(&vec![3, 4, 5]), 12);
    assert_eq!(count_history_tokens(&vec![]), 0);
}

fn long_history(n: usize, system_first: bool) -> Vec<Msg> {
    let mut h = Vec::new();
    if system_first {
        h.push(Message::System { content: "rules".to_string() });
    }
    let mut i = 0;
    while h.len() < n {
        if i % 2 == 0 {
            h.push(user_msg(&format!("u{}", i)));
        } else {
            h.push(assistant_msg(&format!("a{}", i)));
        }
        i += 1;
    }
    h
}

#[test]
fn compaction_not_triggered_under_threshold() {
    let h = long_history(30, false);
    assert!(compaction_plan(&h, 100, 100).is_none());
}

#[test]
fn compaction_not_triggered_for_short_history() {
    let h = long_history(20, false);
    assert!(compaction_plan(&h, 1000, 10).is_none());
}

#[test]
fn compaction_summarises_older_messages() {
    let h = long_history(23, false);
    let plan = compaction_plan(&h, 1000, 10).unwrap();
    assert_eq!(plan.up_to_seq, 2);
    assert_eq!(
        plan.summary,
        "[Context compacted \u{2014} summarising 3 earlier messages]\nUser: u0\nAssistant: a1\nUser: u2"
    );
}

#[test]
fn compaction_skips_leading_system_message() {
    let h = long_history(23, true);
    let plan = compaction_plan(&h, 1000, 10).unwrap();
    assert_eq!(plan.up_to_seq, 2);
    assert_eq!(
        plan.summary,
        "[Context compacted \u{2014} summarising 2 earlier messages]\nUser: u0\nAssistant: a1"
    );
    let h2 = long_history(21, true);
    assert!(compaction_plan(&h2, 1000, 10).is_none());
}

fn message_label(m: &Msg) -> String {
    match m {
        Message::User { .. } => format!("user:{}", first_user_text(m)),
        Message::Assistant { content, .. } => {
            format!("assistant:{}:{}", assistant_message_text(content), contains_tool_call(content))
        }
        Message::System { content } => format!("system:{}", content),
    }
}

#[test]
fn dedup_result_is_a_subsequence_of_the_history() {
    let history = vec![
        user_msg("q"),
        assistant_msg("a"),
        assistant_msg_with_tool("a", "search"),
        assistant_msg("a"),
        user_msg("r"),
        assistant_msg("b"),
        assistant_msg("b"),
    ];
    let labels: Vec<String> = history.iter().map(message_label).collect();
    let result = deduplicate_consecutive_assistant_messages(history);
    let kept: Vec<String> = result.iter().map(message_label).collect();
    assert_eq!(kept, vec!["user:q", "assistant:a:true", "user:r", "assistant:b:false"]);
    let mut pos = 0;
    for k in &kept {
        while pos < labels.len() && &labels[pos] != k {
            pos += 1;
        }
        assert!(pos < labels.len(), "kept message not found in order");
        pos += 1;
    }
}
