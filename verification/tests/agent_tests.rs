use stub::agent::{decide, iteration_limit_message, system_message, tool_message, user_message, Step, ToolOutcome, Turn, TurnStep, MAX_ITERATIONS};
use stub::message::{FunctionCall, Message, ToolCall};

fn call(id: &str, name: &str) -> ToolCall {
    ToolCall {
        id: id.to_string(),
        function: FunctionCall { name: name.to_string(), arguments: "{}".to_string() },
    }
}

fn reply(content: Option<&str>, calls: Option<Vec<ToolCall>>) -> Message {
    Message {
        role: "assistant".to_string(),
        content: content.map(|c| c.to_string()),
        tool_calls: calls,
        tool_call_id: None,
    }
}

#[test]
fn replies_are_decided() {
    match decide(reply(Some("done"), None)) {
        Step::Reply(t) => assert_eq!(t, "done"),
        _ => panic!("expected a reply"),
    }
    assert!(matches!(decide(reply(None, None)), Step::Stop));
    assert!(matches!(decide(reply(None, Some(vec![]))), Step::Continue));
    match decide(reply(Some("thinking"), Some(vec![]))) {
        Step::Reply(t) => assert_eq!(t, "thinking"),
        _ => panic!("expected a reply"),
    }
    match decide(reply(Some("ignored"), Some(vec![call("1", "bash"), call("2", "glob")]))) {
        Step::RunTools(calls) => {
            assert_eq!(calls.len(), 2);
            assert_eq!(calls[1].function.name, "glob");
        }
        _ => panic!("expected tool calls"),
    }
}

#[test]
fn tool_results_are_reported() {
    let c = call("call_7", "bash");
    let m = tool_message(&c, ToolOutcome::Output("ok".to_string()));
    assert_eq!(m.role, "tool");
    assert_eq!(m.content.as_deref(), Some("ok"));
    assert_eq!(m.tool_call_id.as_deref(), Some("call_7"));
    let m = tool_message(&c, ToolOutcome::Failed("no such file".to_string()));
    assert_eq!(m.content.as_deref(), Some("Error executing bash: no such file"));
    let m = tool_message(&c, ToolOutcome::BadArguments("EOF".to_string()));
    assert_eq!(m.content.as_deref(), Some("Error parsing arguments for bash: EOF"));
}

#[test]
fn conversation_messages() {
    let s = system_message("be brief".to_string());
    assert_eq!(s.role, "system");
    assert_eq!(s.content.as_deref(), Some("be brief"));
    let u = user_message("hi");
    assert_eq!(u.role, "user");
    assert!(u.tool_calls.is_none() && u.tool_call_id.is_none());
    assert_eq!(MAX_ITERATIONS, 30);
    assert_eq!(iteration_limit_message(MAX_ITERATIONS), "Reached maximum iterations (30)");
}

#[test]
fn a_turn_records_replies_and_results_and_counts_requests() {
    let mut messages = vec![system_message("sys".to_string())];
    let mut turn = Turn::start(&mut messages, "hello", 2);
    assert_eq!(messages.len(), 2);
    assert_eq!(messages[1].role, "user");
    assert_eq!(messages[1].content.as_deref(), Some("hello"));

    assert!(turn.next_request());
    let c = call("c1", "bash");
    match turn.record_reply(&mut messages, reply(Some("let me look"), Some(vec![c]))) {
        TurnStep::RunTools(calls) => {
            assert_eq!(calls.len(), 1);
            let result = tool_message(&calls[0], ToolOutcome::Output("42".to_string()));
            turn.record_results(&mut messages, vec![result]);
        }
        _ => panic!("expected tool calls"),
    }
    assert_eq!(messages.len(), 4);
    assert_eq!(messages[2].tool_calls.as_ref().unwrap()[0].id, "c1");
    assert_eq!(messages[3].tool_call_id.as_deref(), Some("c1"));

    assert!(turn.next_request());
    assert!(matches!(turn.record_reply(&mut messages, reply(None, Some(vec![]))), TurnStep::AskAgain));
    assert!(!turn.next_request());
    assert_eq!(turn.limit_message(), "Reached maximum iterations (2)");
    match turn.record_reply(&mut messages, reply(None, None)) {
        TurnStep::GiveUp(e) => assert_eq!(e, "Reached maximum iterations (2)"),
        _ => panic!("expected to give up"),
    }
    match turn.record_reply(&mut messages, reply(Some("done"), None)) {
        TurnStep::Answer(t) => assert_eq!(t, "done"),
        _ => panic!("expected an answer"),
    }
    assert_eq!(messages.len(), 7);
}

#[test]
fn duplicates_are_equal_copies() {
    let m = reply(Some("x"), Some(vec![call("a", "glob")]));
    let d = m.duplicate();
    assert_eq!(d.role, m.role);
    assert_eq!(d.content, m.content);
    assert_eq!(d.tool_calls.as_ref().unwrap()[0].function.name, "glob");
    assert_eq!(d.tool_calls.as_ref().unwrap()[0].function.arguments, "{}");
}
