use openresearch_cli::json::get;
use openresearch_cli::json::JsonValue;
use openresearch_cli::oh_my_pi::StreamParts;
use openresearch_cli::omp_events::{
    apply_omp_action, decide_omp_event, new_stream, omp_action_allowed, OmpAction,
};
use openresearch_cli::transcript::{WirePart, WireToolState};

fn s(v: &str) -> JsonValue {
    JsonValue::Str(v.to_string())
}

fn obj(entries: Vec<(&str, JsonValue)>) -> JsonValue {
    JsonValue::Object(entries.into_iter().map(|(k, v)| (k.to_string(), v)).collect())
}

fn update(ev: JsonValue) -> JsonValue {
    obj(vec![("type", s("message_update")), ("assistantMessageEvent", ev)])
}

fn delta(kind: &str, text: &str) -> JsonValue {
    update(obj(vec![("type", s(kind)), ("delta", s(text))]))
}

fn step(stream: &mut StreamParts, parts: &mut Vec<WirePart>, event: JsonValue) -> OmpAction {
    let action = decide_omp_event(stream, event);
    match action {
        OmpAction::Delta { .. }
        | OmpAction::StartTool(_)
        | OmpAction::FinishTool { .. }
        | OmpAction::Error(_) => {
            assert!(omp_action_allowed(parts, &action));
            apply_omp_action(parts, action);
            OmpAction::Nothing
        }
        other => other,
    }
}

fn ids(parts: &[WirePart]) -> Vec<String> {
    parts.iter().map(|p| p.id.clone()).collect()
}

#[test]
fn text_deltas_accumulate_in_one_part() {
    let mut stream = new_stream();
    let mut parts = Vec::new();
    step(&mut stream, &mut parts, update(obj(vec![("type", s("text_start"))])));
    step(&mut stream, &mut parts, delta("text_delta", "Hel"));
    step(&mut stream, &mut parts, delta("text_delta", "lo"));
    assert_eq!(ids(&parts), vec!["text-1"]);
    assert_eq!(parts[0].kind, "text");
    assert_eq!(parts[0].text.as_deref(), Some("Hello"));
}

#[test]
fn a_closed_text_part_is_followed_by_a_new_one() {
    let mut stream = new_stream();
    let mut parts = Vec::new();
    step(&mut stream, &mut parts, delta("text_delta", "a"));
    step(&mut stream, &mut parts, update(obj(vec![("type", s("text_end"))])));
    step(&mut stream, &mut parts, delta("thinking_delta", "hmm"));
    step(&mut stream, &mut parts, delta("text_delta", "b"));
    assert_eq!(ids(&parts), vec!["text-1", "think-2", "text-3"]);
    assert_eq!(parts[1].kind, "reasoning");
    assert_eq!(parts[2].text.as_deref(), Some("b"));
}

#[test]
fn a_delta_drops_the_retry_row() {
    let mut stream = new_stream();
    let mut parts = vec![WirePart::tool("turn-retry", "retry", "running", None)];
    step(&mut stream, &mut parts, delta("text_delta", "x"));
    assert_eq!(ids(&parts), vec!["text-1"]);
}

#[test]
fn a_tool_call_opens_a_running_part_that_its_result_closes() {
    let mut stream = new_stream();
    let mut parts = Vec::new();
    let call = obj(vec![
        ("id", s("call_7")),
        ("name", s("bash")),
        ("arguments", obj(vec![("command", s("ls"))])),
    ]);
    step(
        &mut stream,
        &mut parts,
        update(obj(vec![("type", s("toolcall_end")), ("toolCall", call)])),
    );
    assert_eq!(ids(&parts), vec!["call_7"]);
    let state = parts[0].state.as_ref().unwrap();
    assert_eq!(parts[0].tool.as_deref(), Some("bash"));
    assert_eq!(state.status, "running");
    assert!(matches!(state.input, Some(JsonValue::Object(ref es)) if es.len() == 1));
    let result = obj(vec![(
        "content",
        JsonValue::Array(vec![
            obj(vec![("text", s("a.txt"))]),
            obj(vec![("type", s("image"))]),
            obj(vec![("text", s("b.txt"))]),
        ]),
    )]);
    step(
        &mut stream,
        &mut parts,
        obj(vec![
            ("type", s("tool_execution_end")),
            ("toolCallId", s("call_7")),
            ("result", result),
        ]),
    );
    let state = parts[0].state.as_ref().unwrap();
    assert_eq!(state.status, "completed");
    assert_eq!(state.output.as_deref(), Some("a.txt\nb.txt"));
    assert_eq!(state.error, None);
}

#[test]
fn a_failed_tool_call_without_output_reports_completion_text_and_an_error() {
    let mut stream = new_stream();
    let mut parts = Vec::new();
    let call = obj(vec![("arguments", JsonValue::Null)]);
    step(
        &mut stream,
        &mut parts,
        update(obj(vec![("type", s("toolcall_end")), ("toolCall", call)])),
    );
    assert_eq!(ids(&parts), vec!["tool-1"]);
    assert_eq!(parts[0].tool.as_deref(), Some("tool"));
    assert!(matches!(
        parts[0].state.as_ref().unwrap().input,
        Some(JsonValue::Object(ref es)) if es.is_empty()
    ));
    step(
        &mut stream,
        &mut parts,
        obj(vec![
            ("type", s("tool_execution_end")),
            ("toolCallId", s("tool-1")),
            ("isError", JsonValue::Bool(true)),
        ]),
    );
    let state = parts[0].state.as_ref().unwrap();
    assert_eq!(state.status, "error");
    assert_eq!(state.output.as_deref(), Some("(completed)"));
    assert_eq!(state.error.as_deref(), Some("tool reported an error"));
}

#[test]
fn errors_become_rows() {
    let mut stream = new_stream();
    let mut parts = Vec::new();
    step(&mut stream, &mut parts, obj(vec![("type", s("error")), ("message", s("quota"))]));
    step(&mut stream, &mut parts, obj(vec![("type", s("error"))]));
    assert_eq!(ids(&parts), vec!["err-0", "err-1"]);
    assert_eq!(parts[0].state.as_ref().unwrap().error.as_deref(), Some("quota"));
    assert_eq!(
        parts[1].state.as_ref().unwrap().error.as_deref(),
        Some("omp reported an error")
    );
}

#[test]
fn session_and_usage_events_are_reported() {
    let mut stream = new_stream();
    match decide_omp_event(&mut stream, obj(vec![("type", s("session")), ("id", s("sess-9"))])) {
        OmpAction::Session(id) => assert_eq!(id, "sess-9"),
        _ => panic!("expected a session id"),
    }
    let start = |role: &str, tokens: &str| {
        obj(vec![
            ("type", s("message_start")),
            (
                "message",
                obj(vec![
                    ("role", s(role)),
                    (
                        "usage",
                        obj(vec![("totalTokens", JsonValue::Number(tokens.to_string()))]),
                    ),
                ]),
            ),
        ])
    };
    assert!(matches!(decide_omp_event(&mut stream, start("assistant", "1234")), OmpAction::Usage(1234)));
    assert!(matches!(decide_omp_event(&mut stream, start("user", "1234")), OmpAction::Nothing));
    assert!(matches!(decide_omp_event(&mut stream, start("assistant", "12.5")), OmpAction::Nothing));
    assert!(matches!(decide_omp_event(&mut stream, start("assistant", "-3")), OmpAction::Nothing));
}

#[test]
fn an_update_without_an_assistant_event_is_skipped() {
    let mut stream = new_stream();
    let event = obj(vec![("type", s("message_update"))]);
    assert!(matches!(decide_omp_event(&mut stream, event), OmpAction::Skip));
    assert!(matches!(
        decide_omp_event(&mut stream, obj(vec![("type", s("agent_end"))])),
        OmpAction::Nothing
    ));
}

#[test]
fn a_call_whose_arguments_cannot_take_recorded_targets_is_refused() {
    let previous = WirePart {
        id: "call_1".to_string(),
        kind: "tool".to_string(),
        text: None,
        tool: Some("bash".to_string()),
        state: Some(WireToolState {
            status: "running".to_string(),
            input: Some(obj(vec![("runTargetIds", JsonValue::Array(vec![s("r1")]))])),
            output: None,
            error: None,
            title: None,
        }),
        prompt: None,
        children: Vec::new(),
    };
    let parts = vec![previous];
    let mut stream = new_stream();
    let call = obj(vec![("id", s("call_1")), ("arguments", s("raw text"))]);
    let action = decide_omp_event(
        &mut stream,
        update(obj(vec![("type", s("toolcall_end")), ("toolCall", call)])),
    );
    assert!(!omp_action_allowed(&parts, &action));
    let call = obj(vec![("id", s("call_1")), ("arguments", obj(vec![]))]);
    let action = decide_omp_event(
        &mut stream,
        update(obj(vec![("type", s("toolcall_end")), ("toolCall", call)])),
    );
    assert!(omp_action_allowed(&parts, &action));
}

#[test]
fn toolcall_end_becomes_running_tool_part() {
    let event = update(obj(vec![
        ("type", s("toolcall_end")),
        ("contentIndex", JsonValue::Number("1".to_string())),
        (
            "toolCall",
            obj(vec![
                ("type", s("toolCall")),
                ("id", s("call_abc")),
                ("name", s("bash")),
                ("arguments", obj(vec![("command", s("echo hi")), ("i", s("greeting"))])),
            ]),
        ),
    ]));
    let mut stream = new_stream();
    let action = decide_omp_event(&mut stream, event);
    let OmpAction::StartTool(part) = action else { panic!("expected a running tool part") };
    assert_eq!(part.id, "call_abc");
    assert_eq!(part.tool.as_deref(), Some("bash"));
    let state = part.state.as_ref().unwrap();
    assert_eq!(state.status, "running");
    let input = state.input.as_ref().unwrap();
    assert!(matches!(get(input, "command"), Some(JsonValue::Str(c)) if c == "echo hi"));
}

#[test]
fn an_unsuccessful_exit_points_at_the_log() {
    let m = openresearch_cli::oh_my_pi::omp_exit_error("exit status: 1", "/data/agent-oh-my-pi.log");
    assert_eq!(m, "omp exited with exit status: 1; see /data/agent-oh-my-pi.log");
}
