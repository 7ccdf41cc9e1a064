use openresearch_cli::transcript::plan_auto_policy;
use openresearch_cli::chat::{PromptAnswer, TextAnnotation};
use openresearch_cli::json::JsonValue;
use openresearch_cli::transcript::{
    adopt_resolved_prompts, ensure_annotation_answer_display, first_unresolved_permission_in_parts,
    flush_due,
    permission_decision_json, resolve_prompt_card, PermissionDecision,
    resolve_stale_prompts_in_parts, CardResolution,
    settle_interrupted_tool_parts, stamp_resolved, tool_state_signature, WirePart, WirePrompt,
};

fn prompt(kind: &str, native_id: Option<&str>) -> WirePrompt {
    WirePrompt {
        kind: kind.into(),
        resolved: false,
        plan: None,
        synthesized: false,
        tool: None,
        tool_input: None,
        question: None,
        header: None,
        options: Vec::new(),
        multi_select: false,
        plan_exit: false,
        native_id: native_id.map(str::to_string),
        answers: Vec::new(),
        approved: None,
        note: None,
        annotations: Vec::new(),
    }
}

fn with_children(mut part: WirePart, children: Vec<WirePart>) -> WirePart {
    part.children = children;
    part
}

#[test]
fn interrupted_reconciliation_settles_running_tools() {
    let mut parts = vec![
        WirePart::tool("a", "bash", "running", None),
        with_children(
            WirePart::tool("b", "spawn", "completed", None),
            vec![WirePart::tool("c", "bash", "running", None)],
        ),
        WirePart::text("t", "hello"),
    ];
    settle_interrupted_tool_parts(&mut parts);
    assert_eq!(parts[0].state.as_ref().unwrap().status, "interrupted");
    assert_eq!(parts[1].state.as_ref().unwrap().status, "completed");
    assert_eq!(parts[1].children[0].state.as_ref().unwrap().status, "interrupted");
    assert_eq!(parts[2].text.as_deref(), Some("hello"));
}

#[test]
fn shared_permission_order_only_activates_the_oldest_unresolved_card() {
    let mut resolved = prompt("permission", None);
    resolved.resolved = true;
    let parts = vec![
        WirePart::prompt("p1", resolved),
        WirePart::prompt("q", prompt("question", None)),
        with_children(
            WirePart::tool("spawn", "agent", "running", None),
            vec![WirePart::prompt("nested", prompt("permission", None))],
        ),
        WirePart::prompt("p2", prompt("permission", None)),
    ];
    assert_eq!(
        first_unresolved_permission_in_parts(&parts).as_deref(),
        Some("nested")
    );
    let mut done = prompt("permission", None);
    done.resolved = true;
    let only_resolved = vec![
        WirePart::prompt("p1", done),
        WirePart::prompt("q", prompt("question", None)),
    ];
    assert_eq!(first_unresolved_permission_in_parts(&only_resolved), None);
}

#[test]
fn stale_native_prompt_sweep_reaches_nested_cards() {
    let mut parts = vec![
        WirePart::prompt("unheld", prompt("plan", None)),
        with_children(
            WirePart::tool("spawn", "agent", "completed", None),
            vec![WirePart::prompt("held", prompt("permission", Some("req-1")))],
        ),
    ];
    assert!(resolve_stale_prompts_in_parts(&mut parts, true));
    assert!(!parts[0].prompt.as_ref().unwrap().resolved);
    assert!(parts[1].children[0].prompt.as_ref().unwrap().resolved);
    assert!(!resolve_stale_prompts_in_parts(&mut parts, true));
    assert!(resolve_stale_prompts_in_parts(&mut parts, false));
    assert!(parts[0].prompt.as_ref().unwrap().resolved);
    assert!(!resolve_stale_prompts_in_parts(&mut parts, false));
}

fn answer(answers: &[&str], approve: bool, note: Option<&str>) -> PromptAnswer {
    PromptAnswer {
        session_id: "s".into(),
        prompt_id: "p".into(),
        approve,
        resume_mode: None,
        answers: answers.iter().map(|a| a.to_string()).collect(),
        note: note.map(str::to_string),
        annotations: vec![TextAnnotation {
            text: "excerpt".into(),
        }],
    }
}

#[test]
fn stamp_resolved_records_the_answer_echo() {
    let mut p = prompt("question", None);
    stamp_resolved(&mut p, Some(&answer(&["A", "B"], true, Some("  why  "))));
    assert!(p.resolved);
    assert_eq!(p.answers, vec!["A".to_string(), "B".to_string()]);
    assert_eq!(p.approved, Some(true));
    assert_eq!(p.note.as_deref(), Some("  why  "));
    assert_eq!(p.annotations.len(), 1);
    assert_eq!(p.annotations[0].text, "excerpt");

    let mut blank = prompt("plan", None);
    stamp_resolved(&mut blank, Some(&answer(&[], false, Some("   "))));
    assert_eq!(blank.note, None);
    assert_eq!(blank.approved, Some(false));
}

#[test]
fn stamp_resolved_without_answer_preserves_an_earlier_echo() {
    let mut p = prompt("question", None);
    stamp_resolved(&mut p, Some(&answer(&["A"], true, None)));
    stamp_resolved(&mut p, None);
    assert!(p.resolved);
    assert_eq!(p.answers, vec!["A".to_string()]);
    assert_eq!(p.approved, Some(true));
}

#[test]
fn tool_states_are_signed_by_nested_path() {
    let parts = vec![
        WirePart::text("t", "x"),
        with_children(
            WirePart::tool("a", "spawn", "running", None),
            vec![
                WirePart::tool("b", "bash", "completed", None),
                with_children(
                    WirePart::text("c", ""),
                    vec![WirePart::tool("d", "bash", "error", None)],
                ),
            ],
        ),
        WirePart::tool("e", "bash", "running", None),
    ];
    let sig = tool_state_signature(&parts);
    let expected: Vec<(String, String)> = [
        ("a", "running"),
        ("a/b", "completed"),
        ("a/c/d", "error"),
        ("e", "running"),
    ]
    .iter()
    .map(|(p, s)| (p.to_string(), s.to_string()))
    .collect();
    assert_eq!(sig, expected);
}

#[test]
fn answering_a_card_stamps_it_once_and_a_cleanup_leaves_it() {
    let card = WirePart::prompt("card", prompt("question", None));
    let mut parts = vec![WirePart::text("t", "hello"), card];
    assert_eq!(resolve_prompt_card(&mut parts, "missing", None), CardResolution::Missing);
    assert_eq!(resolve_prompt_card(&mut parts, "t", None), CardResolution::Missing);
    let a = answer(&["Yes"], true, Some("  "));
    assert_eq!(resolve_prompt_card(&mut parts, "card", Some(&a)), CardResolution::Resolved);
    let q = parts[1].prompt.as_ref().unwrap();
    assert!(q.resolved);
    assert_eq!(q.answers, vec!["Yes".to_string()]);
    assert_eq!(q.approved, Some(true));
    assert_eq!(q.note, None);
    assert_eq!(resolve_prompt_card(&mut parts, "card", None), CardResolution::Unchanged);
    assert_eq!(parts[1].prompt.as_ref().unwrap().answers, vec!["Yes".to_string()]);
    let b = answer(&[], false, Some("later"));
    assert_eq!(resolve_prompt_card(&mut parts, "card", Some(&b)), CardResolution::Resolved);
    let q = parts[1].prompt.as_ref().unwrap();
    assert!(q.answers.is_empty());
    assert_eq!(q.approved, Some(false));
    assert_eq!(q.note.as_deref(), Some("later"));
}

#[test]
fn an_answer_of_excerpts_alone_gets_a_note() {
    let question = prompt("question", None);
    let mut a = answer(&[], true, None);
    a.annotations = vec![TextAnnotation { text: "a passage".into() }];
    ensure_annotation_answer_display(&question, &mut a);
    assert_eq!(a.note.as_deref(), Some("Asked about selected text"));

    let mut chosen = answer(&["B"], true, None);
    chosen.annotations = vec![TextAnnotation { text: "a passage".into() }];
    ensure_annotation_answer_display(&question, &mut chosen);
    assert_eq!(chosen.note, None);

    let mut bare = answer(&[], true, None);
    bare.annotations.clear();
    ensure_annotation_answer_display(&question, &mut bare);
    assert_eq!(bare.note, None);

    let permission = prompt("permission", None);
    let mut excerpt = answer(&[], true, None);
    excerpt.annotations = vec![TextAnnotation { text: "a passage".into() }];
    ensure_annotation_answer_display(&permission, &mut excerpt);
    assert_eq!(excerpt.note, None);
}

fn entries(v: &JsonValue) -> Vec<(String, String)> {
    match v {
        JsonValue::Object(es) => es
            .iter()
            .map(|(k, v)| {
                let shown = match v {
                    JsonValue::Str(s) => s.clone(),
                    JsonValue::Object(_) => "{object}".to_string(),
                    _ => "?".to_string(),
                };
                (k.clone(), shown)
            })
            .collect(),
        _ => panic!("not an object"),
    }
}

#[test]
fn permission_decision_serializes_to_the_cli_contract() {
    let allow = PermissionDecision::Allow {
        updated_input: Some(JsonValue::Object(vec![(
            "command".to_string(),
            JsonValue::Str("orx runs".to_string()),
        )])),
    };
    let json = permission_decision_json(allow);
    assert_eq!(
        entries(&json),
        vec![
            ("behavior".to_string(), "allow".to_string()),
            ("updatedInput".to_string(), "{object}".to_string())
        ]
    );
    match &json {
        JsonValue::Object(es) => match &es[1].1 {
            JsonValue::Object(inner) => {
                assert_eq!(inner[0].0, "command");
                assert!(matches!(&inner[0].1, JsonValue::Str(s) if s == "orx runs"));
            }
            _ => panic!("updatedInput is not an object"),
        },
        _ => panic!("not an object"),
    }
    let allow_bare = PermissionDecision::Allow { updated_input: None };
    assert_eq!(
        entries(&permission_decision_json(allow_bare)),
        vec![("behavior".to_string(), "allow".to_string())]
    );
    let deny = PermissionDecision::deny("no");
    assert_eq!(
        entries(&permission_decision_json(deny)),
        vec![
            ("behavior".to_string(), "deny".to_string()),
            ("message".to_string(), "no".to_string())
        ]
    );
}

#[test]
fn annotation_only_question_has_a_clean_answer_echo() {
    let prompt = prompt("question", None);
    let mut response = answer(&[], true, None);
    response.annotations = vec![TextAnnotation {
        text: "selected excerpt".into(),
    }];
    ensure_annotation_answer_display(&prompt, &mut response);
    assert_eq!(response.note.as_deref(), Some("Asked about selected text"));
}

#[test]
fn persisted_resolutions_are_adopted_but_never_undone() {
    let mut stored_card = prompt("question", None);
    stamp_resolved(&mut stored_card, Some(&answer(&["A"], true, Some("why"))));
    let persisted = vec![WirePart::prompt("card", stored_card), WirePart::prompt("open", prompt("plan", None))];

    let mut echoed = prompt("question", None);
    echoed.answers = vec!["B".to_string()];
    let mut parts = vec![
        WirePart::prompt("card", prompt("question", None)),
        WirePart::prompt("open", prompt("plan", None)),
        WirePart::text("t", "x"),
    ];
    adopt_resolved_prompts(&mut parts, &persisted);
    let card = parts[0].prompt.as_ref().unwrap();
    assert!(card.resolved);
    assert_eq!(card.answers, vec!["A".to_string()]);
    assert_eq!(card.note.as_deref(), Some("why"));
    assert!(!parts[1].prompt.as_ref().unwrap().resolved);

    // An echo already in memory is kept.
    let mut parts = vec![WirePart::prompt("card", echoed)];
    adopt_resolved_prompts(&mut parts, &persisted);
    let card = parts[0].prompt.as_ref().unwrap();
    assert!(card.resolved);
    assert_eq!(card.answers, vec!["B".to_string()]);
    assert_eq!(card.note, None);

    // A resolved in-memory card stays resolved when the stored one is open.
    let mut resolved = prompt("plan", None);
    resolved.resolved = true;
    let mut parts = vec![WirePart::prompt("open", resolved)];
    adopt_resolved_prompts(&mut parts, &persisted);
    assert!(parts[0].prompt.as_ref().unwrap().resolved);
}

#[test]
fn streaming_flushes_on_new_tool_states_or_after_the_interval() {
    let sig = |s: &str| vec![("t1".to_string(), s.to_string())];
    let running = sig("running");
    let done = sig("completed");
    // Nothing new and too soon: wait.
    assert!(!flush_due(&running, &running, &running, 10));
    // A new tool state flushes at once.
    assert!(flush_due(&done, &running, &running, 10));
    // A state already tried is not retried before the interval.
    assert!(!flush_due(&done, &running, &done, 10));
    // The interval passing flushes regardless.
    assert!(flush_due(&running, &running, &running, 75));
}

#[test]
fn plan_auto_policy_decides_the_unambiguous_tiers() {
    let obj = |k: &str, v: &str| JsonValue::Object(vec![(k.to_string(), JsonValue::Str(v.to_string()))]);
    let allow = |d: Option<PermissionDecision>| matches!(d, Some(PermissionDecision::Allow { .. }));
    let deny = |d: Option<PermissionDecision>| matches!(d, Some(PermissionDecision::Deny { .. }));
    // The read-only verdict on each command is the harness registry's.
    assert!(allow(plan_auto_policy("Bash", obj("command", "orx runs 2>&1 | head -50"), true)));
    assert!(allow(plan_auto_policy("Bash", obj("command", "git show origin/b:f.py | head -100"), true)));
    assert!(plan_auto_policy("Bash", obj("command", "cargo metadata"), false).is_none());
    assert!(plan_auto_policy("Bash", obj("command", "rm -rf /"), false).is_none());
    assert!(allow(plan_auto_policy("WebFetch", obj("url", "https://example.com"), false)));
    assert!(allow(plan_auto_policy("WebSearch", obj("query", "x"), false)));
    assert!(plan_auto_policy("AskUserQuestion", obj("questions", "Which?"), false).is_none());
    for tool in ["Write", "Edit", "MultiEdit", "NotebookEdit"] {
        assert!(deny(plan_auto_policy(tool, obj("file_path", "/x"), false)), "{tool}");
    }
    assert!(plan_auto_policy("ExitPlanMode", obj("plan", "x"), false).is_none());
    assert!(plan_auto_policy("mcp__foo__bar", JsonValue::Object(vec![]), false).is_none());
}
