use stub::context::{CompressStep, ContextManager};
use stub::message::Message;

fn msg(role: &str, content: &str) -> Message {
    Message {
        role: role.to_string(),
        content: Some(content.to_string()),
        tool_calls: None,
        tool_call_id: None,
    }
}

fn compress_without_summary(cm: &ContextManager, messages: &mut Vec<Message>) -> bool {
    match cm.begin_compress(messages) {
        CompressStep::Done(changed) => changed,
        CompressStep::Summarize { .. } => panic!("no summary expected"),
    }
}

#[test]
fn test_maybe_compress_no_change_for_small_messages() {
    let cm = ContextManager::new(1000);
    let mut messages = vec![msg("user", "hello"), msg("assistant", "hi there")];

    let changed = compress_without_summary(&cm, &mut messages);

    assert!(!changed);
    assert_eq!(messages.len(), 2);
    assert_eq!(messages[0].role, "user");
    assert_eq!(messages[0].content.as_deref(), Some("hello"));
    assert_eq!(messages[1].role, "assistant");
    assert_eq!(messages[1].content.as_deref(), Some("hi there"));
}

#[test]
fn test_maybe_compress_snips_tool_output() {
    let cm = ContextManager::new(1000);
    let long_content =
        "line1\nline2\nline3\nline4\nline5\nline6\nline7\nline8\nline9\nline10\nline11\n".repeat(40);
    let mut messages = vec![msg("tool", &long_content)];

    let changed = compress_without_summary(&cm, &mut messages);

    assert!(changed);
    let content = messages[0].content.as_ref().unwrap();
    assert!(content.contains("lines snipped"));
    assert!(content.starts_with("line1\nline2\nline3"));
}

#[test]
fn test_maybe_compress_hard_collapse() {
    let cm = ContextManager::new(10);
    let mut messages = vec![
        msg("user", "abcdefgh"),
        msg("assistant", "ijklmnop"),
        msg("user", "qrstuvwx"),
        msg("assistant", "yzabcdef"),
        msg("user", "ghijklmn"),
        msg("assistant", "opqrstuv"),
    ];

    let changed = compress_without_summary(&cm, &mut messages);

    assert!(changed);
    assert_eq!(messages.len(), 5);
    assert_eq!(messages[0].role, "user");
    assert!(messages[0].content.as_deref().unwrap().contains("Hard Context Collapse"));
}

#[test]
fn thresholds_are_half_seventy_and_ninety_percent() {
    let cm = ContextManager::new(128_000);
    let mut small = vec![msg("user", "x")];
    assert!(!compress_without_summary(&cm, &mut small));
    // 10 tokens: snip above 5, summarize above 7, collapse above 9.
    let cm = ContextManager::new(10);
    let mut nine_tokens = vec![msg("user", &"a".repeat(36)), msg("user", "b"), msg("user", "c"), msg("user", "d"), msg("user", "e")];
    assert_eq!(cm.estimate_tokens(&nine_tokens), 9);
    assert!(!compress_without_summary(&cm, &mut nine_tokens));
    assert_eq!(nine_tokens.len(), 5);
    let mut ten_tokens = vec![msg("user", &"a".repeat(40)), msg("user", "b"), msg("user", "c"), msg("user", "d"), msg("user", "e")];
    assert!(compress_without_summary(&cm, &mut ten_tokens));
    assert_eq!(ten_tokens.len(), 5);
    assert!(ten_tokens[0].content.as_deref().unwrap().contains("Hard Context Collapse"));
}

#[test]
fn estimate_counts_a_quarter_of_content_bytes() {
    let cm = ContextManager::new(1000);
    let messages = vec![
        msg("user", "abcdefg"),
        Message { role: "assistant".to_string(), content: None, tool_calls: None, tool_call_id: None },
        msg("user", "\u{e9}\u{e9}\u{e9}\u{e9}"),
    ];
    // 7 / 4 = 1; no content = 0; four two-byte characters = 8 / 4 = 2.
    assert_eq!(cm.estimate_tokens(&messages), 3);
}

#[test]
fn snipping_keeps_short_and_non_tool_outputs() {
    let cm = ContextManager::new(1000);
    let long_content = "l\n".repeat(1200);
    let few_lines = "x".repeat(3000);
    let mut messages = vec![msg("user", &long_content), msg("tool", &few_lines), msg("tool", "short\n")];
    assert!(!cm.snip_tool_outputs(&mut messages));
    assert_eq!(messages[0].content.as_deref(), Some(long_content.as_str()));
    assert_eq!(messages[1].content.as_deref(), Some(few_lines.as_str()));
}

#[test]
fn snipped_output_has_exact_shape_and_is_not_snipped_again() {
    let cm = ContextManager::new(1000);
    let mut content = String::new();
    for i in 1..=500 {
        content.push_str(&format!("row {}\n", i));
    }
    let mut messages = vec![msg("tool", &content)];
    assert!(cm.snip_tool_outputs(&mut messages));
    assert_eq!(
        messages[0].content.as_deref(),
        Some("row 1\nrow 2\nrow 3\n... (494 lines snipped) ...\nrow 498\nrow 499\nrow 500")
    );
    assert!(!cm.snip_tool_outputs(&mut messages));
}

#[test]
fn hard_collapse_keeps_system_message_and_is_idempotent() {
    let cm = ContextManager::new(1000);
    let mut messages = vec![msg("system", "sys")];
    for i in 0..7 {
        messages.push(msg("user", &format!("m{}", i)));
    }
    cm.hard_collapse(&mut messages);
    assert_eq!(messages.len(), 6);
    assert_eq!(messages[0].content.as_deref(), Some("sys"));
    assert_eq!(
        messages[1].content.as_deref(),
        Some("[Hard Context Collapse - keeping only most recent]")
    );
    assert_eq!(messages[2].content.as_deref(), Some("m3"));
    assert_eq!(messages[5].content.as_deref(), Some("m6"));
    cm.hard_collapse(&mut messages);
    assert_eq!(messages.len(), 6);
    assert_eq!(messages[2].content.as_deref(), Some("m3"));
    let mut short = vec![msg("system", "sys"), msg("user", "a"), msg("user", "b"), msg("user", "c"), msg("user", "d")];
    cm.hard_collapse(&mut short);
    assert_eq!(short.len(), 5);
}

#[test]
fn summary_round_keeps_system_and_recent_messages() {
    let cm = ContextManager::new(20);
    let mut messages = vec![msg("system", "sys")];
    for i in 0..11 {
        messages.push(msg("user", &format!("message {:02}", i)));
    }
    // 11 messages of 10 bytes = 22 tokens: above 14, so a summary is asked for.
    match cm.begin_compress(&mut messages) {
        CompressStep::Done(_) => panic!("a summary should be asked for"),
        CompressStep::Summarize { request, resume } => {
            assert_eq!(request.len(), 4);
            assert_eq!(request[0].content.as_deref(), Some("message 00"));
            assert_eq!(request[2].content.as_deref(), Some("message 02"));
            assert_eq!(
                request[3].content.as_deref(),
                Some("Summarize the following conversation history briefly, preserving key decisions and edited files.")
            );
            assert_eq!(messages.len(), 9);
            assert!(cm.resume_compress(&mut messages, resume, Some("it went well".to_string())));
            // 11 messages again, still above the collapse threshold of 18.
            assert_eq!(messages.len(), 6);
            assert_eq!(messages[0].content.as_deref(), Some("sys"));
            assert_eq!(messages[2].content.as_deref(), Some("message 07"));
        }
    }
}

#[test]
fn summary_without_collapse_and_without_text() {
    let cm = ContextManager::new(28);
    let mut messages = Vec::new();
    for i in 0..12 {
        messages.push(msg("user", &format!("message {:02}", i)));
    }
    // 24 tokens: above 19 (summary), not above 25 (collapse).
    match cm.begin_compress(&mut messages) {
        CompressStep::Done(_) => panic!("a summary should be asked for"),
        CompressStep::Summarize { request, resume } => {
            assert_eq!(request.len(), 5);
            assert!(cm.resume_compress(&mut messages, resume, None));
            assert_eq!(messages.len(), 10);
            assert_eq!(messages[0].role, "user");
            assert_eq!(messages[0].content.as_deref(), Some("[Context Summary]\nNo summary generated"));
            assert_eq!(messages[1].role, "assistant");
            assert_eq!(messages[1].content.as_deref(), Some("I have summarized the previous context."));
            assert_eq!(messages[2].content.as_deref(), Some("message 04"));
        }
    }
}

#[test]
fn thresholds_match_double_arithmetic() {
    let mut budgets: Vec<usize> = (0..2000).collect();
    budgets.extend([90, 170, 180, 330, 128_000, 1 << 40, (1 << 53) + 1, usize::MAX, usize::MAX - 1, 12_345_678_901]);
    for m in budgets {
        let cm = ContextManager::new(m);
        assert_eq!(cm.snip_threshold(), (m as f64 * 0.5) as usize, "half of {}", m);
        assert_eq!(cm.summarize_threshold(), (m as f64 * 0.7) as usize, "70% of {}", m);
        assert_eq!(cm.collapse_threshold(), (m as f64 * 0.9) as usize, "90% of {}", m);
    }
    let cm = ContextManager::new(90);
    assert_eq!(cm.summarize_threshold(), 62);
    let cm = ContextManager::new(128_000);
    assert_eq!((cm.snip_threshold(), cm.summarize_threshold(), cm.collapse_threshold()), (64_000, 89_600, 115_200));
}

#[test]
fn thresholds_are_ordered_and_within_budget() {
    for m in [0usize, 1, 2, 3, 7, 10, 90, 999, 128_000, 1 << 53, (1 << 53) + 1, usize::MAX] {
        let cm = ContextManager::new(m);
        assert!(cm.snip_threshold() <= cm.summarize_threshold());
        assert!(cm.summarize_threshold() <= cm.collapse_threshold());
        assert!(cm.collapse_threshold() <= m);
        if m < (1 << 53) {
            assert_eq!(cm.snip_threshold(), m / 2);
        }
    }
}
