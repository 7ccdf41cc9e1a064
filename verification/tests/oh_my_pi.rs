use openresearch_cli::json::JsonValue;
use openresearch_cli::oh_my_pi::{
    auth_providers, dedupe_by_selector, omp_readiness, tool_outcome, turn_args, turn_text, OhMyPi,
    StreamParts,
};

#[test]
fn identity_and_skills_dir() {
    assert_eq!(OhMyPi.id(), "oh-my-pi");
    assert_eq!(OhMyPi.name(), "Oh My Pi");
    assert!(OhMyPi.supports_chat());
    assert_eq!(OhMyPi.session_skills_dir(), Some(".opencode/skills"));
}

#[test]
fn turn_arguments_resume_and_skip_the_default_level() {
    assert_eq!(
        turn_args(Some("sess-1"), Some("deepseek/v4"), Some("high"), "default"),
        vec![
            "-p",
            "--mode=json",
            "--auto-approve",
            "--no-title",
            "--resume",
            "sess-1",
            "--model",
            "deepseek/v4",
            "--thinking",
            "high"
        ]
    );
    assert_eq!(
        turn_args(None, None, Some("default"), "default"),
        vec!["-p", "--mode=json", "--auto-approve", "--no-title"]
    );
}

#[test]
fn first_turn_carries_the_playbook() {
    assert_eq!(
        turn_text(false, "PLAYBOOK", "hello"),
        "<system-context>\nPLAYBOOK\n</system-context>\n\nhello"
    );
    assert_eq!(turn_text(true, "PLAYBOOK", "hello"), "hello");
}

#[test]
fn deltas_group_into_numbered_parts() {
    let mut s = StreamParts::new();
    assert_eq!(s.text_part(), "text-1");
    assert_eq!(s.text_part(), "text-1");
    assert_eq!(s.reasoning_part(), "think-2");
    s.end_text();
    assert_eq!(s.text_part(), "text-3");
    assert_eq!(s.reasoning_part(), "think-2");
    s.end_reasoning();
    assert_eq!(s.tool_part_id(Some("call_abc")), "call_abc");
    assert_eq!(s.tool_part_id(None), "tool-4");
    assert_eq!(s.reasoning_part(), "think-5");
}

#[test]
fn finished_tools_record_output_and_errors() {
    let ok = tool_outcome(false, &vec!["a".to_string(), "b".to_string()]);
    assert_eq!(ok.status, "completed");
    assert_eq!(ok.output, "a\nb");
    assert_eq!(ok.error, None);
    let failed = tool_outcome(true, &vec![]);
    assert_eq!(failed.status, "error");
    assert_eq!(failed.output, "(completed)");
    assert_eq!(failed.error.as_deref(), Some("tool reported an error"));
}

#[test]
fn models_dedupe_by_selector() {
    let selectors = vec![
        Some("deepseek/deepseek-v4-flash".to_string()),
        Some("deepseek/deepseek-v4-flash".to_string()),
        None,
        Some("opencode-go/deepseek-v4-flash".to_string()),
    ];
    assert_eq!(dedupe_by_selector(&selectors), vec![0, 3]);
}

#[test]
fn readiness_needs_an_install_and_a_credential() {
    let providers = vec!["anthropic".to_string(), "openai".to_string()];
    let ready = omp_readiness(true, &providers, false);
    assert!(ready.authenticated && ready.agent_ready);
    assert_eq!(ready.auth_method, Some("oauth"));
    assert_eq!(ready.account.as_deref(), Some("anthropic, openai"));
    assert_eq!(ready.agent_note, None);

    let key_only = omp_readiness(true, &Vec::new(), true);
    assert_eq!(key_only.auth_method, Some("apiKey"));
    assert_eq!(key_only.account, None);
    assert!(key_only.agent_ready);

    let signed_out = omp_readiness(true, &Vec::new(), false);
    assert!(!signed_out.authenticated && !signed_out.agent_ready);
    assert_eq!(
        signed_out.agent_note,
        Some("Sign in with `opencode auth login` to chat with it here.")
    );

    let missing = omp_readiness(false, &providers, true);
    assert!(missing.authenticated && !missing.agent_ready);
    assert_eq!(
        missing.agent_note,
        Some("Install Oh My Pi (`omp`), then sign in with `opencode auth login`.")
    );
}

#[test]
fn signed_in_providers_are_the_credential_file_keys() {
    let auth = JsonValue::Object(vec![
        ("anthropic".to_string(), JsonValue::Null),
        ("openai".to_string(), JsonValue::Bool(true)),
    ]);
    assert_eq!(auth_providers(&auth), vec!["anthropic".to_string(), "openai".to_string()]);
    assert!(auth_providers(&JsonValue::Array(Vec::new())).is_empty());
}
