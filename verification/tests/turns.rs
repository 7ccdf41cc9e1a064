use openresearch_cli::chat::{SavedAttachment, TextAnnotation, TurnOverrides};
use openresearch_cli::transcript::WirePart;
use openresearch_cli::turns::{
    admit_recovery, bash_env_hook, first_wakeup_per_session, image_ext, plan_reset_pending,
    queued_label, rebase_prepared_attachment_paths, recovery_prompt, resolve_permission_change,
    resolve_plan_change, retained_parts, run_wakeup_text, safe_attachment_name,
    attached_files_block, fallback_title, recovery_card, retry_status_part, shell_hook_files,
    starts_session, stamp_turn_revisions, transcript_parts,
    with_recovery_card, zsh_startup_wrapper,
    zshenv_hook, ChatTurnRecord, RecoveryAdmission, SessionChanges,
};
use openresearch_cli::json::{get, JsonValue};

#[test]
fn detached_queue_plan_change_defers_to_a_newer_revision() {
    let mut changes = SessionChanges::new();
    changes.record("session", 2, false);
    assert_eq!(resolve_plan_change(&changes, "session", true, Some(1)), (2, false));
    assert_eq!(changes.entries[0].1, 2);
    assert!(!changes.entries[0].2);
    assert_eq!(resolve_plan_change(&changes, "session", true, Some(3)), (3, true));
    assert_eq!(resolve_plan_change(&changes, "session", true, None), (3, true));
    assert_eq!(resolve_plan_change(&changes, "other", true, None), (1, true));
}

#[test]
fn detached_queue_permission_defers_to_a_newer_selection() {
    let mut changes = SessionChanges::new();
    changes.record("session", 2, "plan".to_string());
    assert_eq!(
        resolve_permission_change(&changes, "session", "auto".into(), Some(1)),
        (2, "plan".to_string())
    );
}

#[test]
fn queued_changes_get_the_next_revision_of_their_session() {
    let mut plan = SessionChanges::new();
    let mut permission = SessionChanges::new();
    let mut first = TurnOverrides {
        plan_mode: Some(true),
        permission_mode: Some("ask".into()),
        ..Default::default()
    };
    stamp_turn_revisions(&mut first, "s", &mut plan, &mut permission);
    assert_eq!(first.plan_revision, Some(1));
    assert_eq!(first.permission_revision, Some(1));
    let mut second = TurnOverrides {
        plan_mode: Some(false),
        ..Default::default()
    };
    stamp_turn_revisions(&mut second, "s", &mut plan, &mut permission);
    assert_eq!(second.plan_revision, Some(2));
    assert_eq!(second.permission_revision, None);
    assert_eq!(plan.entries.len(), 1);
    assert_eq!(resolve_plan_change(&plan, "s", true, Some(1)), (2, false));
    let mut stamped = TurnOverrides {
        plan_mode: Some(true),
        plan_revision: Some(7),
        ..Default::default()
    };
    stamp_turn_revisions(&mut stamped, "s", &mut plan, &mut permission);
    assert_eq!(stamped.plan_revision, Some(7));
}

fn turn(state: &str, offered: Option<&str>, delivery: &str) -> ChatTurnRecord {
    ChatTurnRecord {
        id: "turn-1".into(),
        state: state.into(),
        recovery_action: offered.map(str::to_string),
        delivery_state: delivery.into(),
        recovered_by_turn_id: None,
    }
}

fn refusal(t: &ChatTurnRecord, action: &str) -> String {
    match admit_recovery(t, action) {
        Err(m) => m,
        Ok(_) => panic!("expected a refusal"),
    }
}

#[test]
fn recovery_only_replays_turns_that_were_never_delivered() {
    assert!(matches!(
        admit_recovery(&turn("failed", Some("retry"), "not_sent"), "retry"),
        Ok(RecoveryAdmission::Retry)
    ));
    assert!(matches!(
        admit_recovery(&turn("failed", Some("retry"), "rejected"), "retry"),
        Ok(RecoveryAdmission::Retry)
    ));
    assert_eq!(
        refusal(&turn("failed", Some("retry"), "accepted"), "retry"),
        "an accepted or uncertain turn cannot be replayed"
    );
    assert!(matches!(
        admit_recovery(&turn("failed", Some("continue"), "unknown"), "continue"),
        Ok(RecoveryAdmission::Continue)
    ));
    assert_eq!(
        refusal(&turn("failed", Some("continue"), "not_sent"), "continue"),
        "a turn that was not accepted should be retried instead"
    );
}

#[test]
fn recovery_answers_with_the_turn_already_working_on_it() {
    let mut t = turn("failed", Some("retry"), "not_sent");
    t.recovered_by_turn_id = Some("turn-2".into());
    assert!(matches!(admit_recovery(&t, "retry"), Ok(RecoveryAdmission::Existing(id)) if id == "turn-2"));
    assert!(matches!(
        admit_recovery(&turn("running", None, "accepted"), "retry"),
        Ok(RecoveryAdmission::Existing(id)) if id == "turn-1"
    ));
    assert_eq!(
        refusal(&turn("failed", Some("continue"), "accepted"), "retry"),
        "this recovery action is no longer available"
    );
    assert_eq!(
        refusal(&turn("failed", Some("other"), "accepted"), "other"),
        "recovery action must be retry or continue"
    );
}

#[test]
fn codex_leaves_plan_only_when_it_was_in_plan() {
    assert!(plan_reset_pending(false, "codex", true, false));
    assert!(plan_reset_pending(false, "codex", false, true));
    assert!(!plan_reset_pending(false, "codex", false, false));
    assert!(!plan_reset_pending(true, "codex", true, true));
    assert!(!plan_reset_pending(false, "opencode", true, true));
}

#[test]
fn retried_answers_drop_recovery_and_error_rows() {
    let parts = vec![
        WirePart::text("t", "hello"),
        WirePart::tool("turn-retry", "retry", "running", None),
        WirePart::tool("e", "error", "error", Some("boom".into())),
        WirePart::tool("ok", "error", "completed", None),
        WirePart::tool("turn-recovery", "recovery", "completed", None),
    ];
    let kept: Vec<String> = retained_parts(parts, true).into_iter().map(|p| p.id).collect();
    assert_eq!(kept, vec!["t".to_string(), "ok".to_string()]);
    let parts = vec![
        WirePart::tool("e", "error", "error", None),
        WirePart::tool("turn-retry", "retry", "running", None),
    ];
    let kept: Vec<String> = retained_parts(parts, false).into_iter().map(|p| p.id).collect();
    assert_eq!(kept, vec!["e".to_string()]);
}

#[test]
fn attachments_get_canonical_extensions_and_safe_names() {
    assert_eq!(image_ext("image/png"), Some("png"));
    assert_eq!(image_ext("image/jpeg"), Some("jpg"));
    assert_eq!(image_ext("application/pdf"), Some("pdf"));
    assert_eq!(image_ext("text/plain"), None);
    assert_eq!(
        safe_attachment_name(Some("C:\\\\docs/My Paper (final).v2.pdf"), "pdf"),
        "My-Paper--final--v2.pdf"
    );
    assert_eq!(safe_attachment_name(Some("../../.."), "png"), "image.png");
    assert_eq!(safe_attachment_name(None, "pdf"), "document.pdf");
    assert_eq!(safe_attachment_name(Some("--x--.jpg"), "jpg"), "x.jpg");
    let long = "a".repeat(100);
    assert_eq!(safe_attachment_name(Some(&long), "png"), format!("{}.png", "a".repeat(60)));
}

#[test]
fn queued_chips_show_text_or_attachment_counts() {
    assert_eq!(queued_label("hello", None, 2), "hello");
    assert_eq!(queued_label("raw", Some("shown"), 0), "shown");
    assert_eq!(queued_label("  ", None, 1), "1 attachment");
    assert_eq!(queued_label("", None, 3), "3 attachments");
    assert_eq!(queued_label("", None, 0), "");
}

#[test]
fn wakeup_messages_are_exact_and_exclude_cancellation() {
    assert_eq!(
        run_wakeup_text("run_x", "done", "p1").as_deref(),
        Some(
            "[orx] Run `run_x` finished with status **done**. You can compare this result \
with other project runs using `orx runs p1` and inspect this run's logs using `orx logs run_x`."
        )
    );
    assert_eq!(
        run_wakeup_text("run_x", "failed", "p1").as_deref(),
        Some(
            "[orx] Run `run_x` finished with status **failed**. You can compare this result \
with other project runs using `orx runs p1` and inspect this run's logs using `orx logs run_x`."
        )
    );
    assert!(run_wakeup_text("run_x", "cancelled", "p1").is_none());
}

#[test]
fn only_earliest_wakeup_per_session_is_attempted_each_tick() {
    let sessions = vec!["owner".to_string(), "owner".to_string(), "other".to_string()];
    assert_eq!(first_wakeup_per_session(&sessions), vec![0, 2]);
}

#[test]
fn hidden_transcript_override_creates_no_user_parts() {
    assert!(transcript_parts("", &vec![], &vec![]).is_empty());
}

#[test]
fn user_parts_carry_text_images_and_trimmed_excerpts() {
    let saved = vec![SavedAttachment {
        file_name: "att-1__a.png".into(),
        path: "/x/att-1__a.png".into(),
        display_name: "a.png".into(),
        is_pdf: false,
    }];
    let ann = vec![TextAnnotation { text: "  quote ".into() }];
    let parts = transcript_parts("hi", &saved, &ann);
    let ids: Vec<&str> = parts.iter().map(|p| p.id.as_str()).collect();
    assert_eq!(ids, vec!["p0", "img0", "annotation0"]);
    assert_eq!(parts[1].text.as_deref(), Some("att-1__a.png"));
    assert_eq!(parts[2].text.as_deref(), Some("quote"));
}

#[test]
fn prepared_attachment_paths_rebase_after_data_directory_moves() {
    let input = "<attached-files>\n- paper — /old/data/chat-attachments/file.pdf\n</attached-files>";
    let rebased = rebase_prepared_attachment_paths(input, "/new/data/chat-attachments");
    assert!(rebased.contains("/new/data/chat-attachments/file.pdf"));
    assert!(!rebased.contains("/old/data/chat-attachments"));
    assert_eq!(
        rebased,
        "<attached-files>\n- paper — /new/data/chat-attachments/file.pdf\n</attached-files>"
    );
    let windows = "- a — C:\\data\\chat-attachments\\f.png";
    assert_eq!(
        rebase_prepared_attachment_paths(windows, "/d/"),
        "- a — /d/f.png"
    );
    assert_eq!(
        rebase_prepared_attachment_paths("- a — /x/chat-attachments/sub/f.png", "/d"),
        "- a — /x/chat-attachments/sub/f.png"
    );
}

#[test]
fn recovery_prompt_quotes_the_original_request() {
    assert_eq!(
        recovery_prompt("do it", "/d"),
        "<orx-recovery>\nA previous turn ended after the request may have been accepted. Inspect the current repository and transcript state before acting. Do not repeat completed tool actions. Continue the unfinished request safely.\n\nOriginal request:\ndo it\n</orx-recovery>"
    );
}

#[test]
fn bash_hook_sources_the_users_bash_env_first() {
    let hook = bash_env_hook(Some("/home/me/my env"));
    assert!(hook.starts_with("_ORX_CHAT_USER_BASH_ENV='/home/me/my env'\n"));
    assert!(hook.contains("export ORX_CHAT_TOOL_SCOPE=\"bash-$$\"\n"));
    assert!(hook.ends_with("fi\n"));
    assert!(bash_env_hook(None).starts_with("export ORX_CHAT_TOOL_SCOPE"));
}

#[test]
fn zsh_hooks_source_the_users_files_and_report_targets() {
    let hook = zshenv_hook("/home/a'b/.config/zsh");
    assert!(hook.starts_with(
        "_ORX_CHAT_SHIM_ZDOTDIR=$ZDOTDIR\n_ORX_CHAT_USER_ZDOTDIR='/home/a'\\''b/.config/zsh'\nZDOTDIR=$_ORX_CHAT_USER_ZDOTDIR\n"
    ));
    assert!(hook.contains("[[ -r \"$ZDOTDIR/.zshenv\" ]] && source \"$ZDOTDIR/.zshenv\"\n"));
    assert!(hook.contains("export ORX_CHAT_TOOL_SCOPE=\"zsh-$$\"\n"));
    assert!(hook.contains("export ORX_CHAT_TOOL_COMMAND=\"${ZSH_EXECUTION_STRING-}\"\n"));
    assert!(hook.ends_with("unset ORX_CHAT_TARGET_FILE\nfi\n"));
    assert_eq!(
        zsh_startup_wrapper(".zshrc"),
        "_ORX_CHAT_SHIM_ZDOTDIR=$ZDOTDIR\nZDOTDIR=$_ORX_CHAT_USER_ZDOTDIR\n[[ -r \"$ZDOTDIR/.zshrc\" ]] && source \"$ZDOTDIR/.zshrc\"\n_ORX_CHAT_USER_ZDOTDIR=$ZDOTDIR\nZDOTDIR=$_ORX_CHAT_SHIM_ZDOTDIR\n"
    );
}

#[test]
fn an_unfinished_turn_gets_one_recovery_card() {
    let card = recovery_card("turn-1", Some("timeout"), Some("harness timed out".into()), None, "accepted");
    assert_eq!(card.id, "turn-recovery");
    assert_eq!(card.tool.as_deref(), Some("error"));
    let state = card.state.as_ref().unwrap();
    assert_eq!(state.status, "error");
    assert_eq!(state.error.as_deref(), Some("harness timed out"));
    let input = state.input.as_ref().unwrap();
    match get(input, "recoveryAction") {
        Some(JsonValue::Str(s)) => assert_eq!(s, "continue"),
        _ => panic!("no action"),
    }
    match get(input, "turnId") {
        Some(JsonValue::Str(s)) => assert_eq!(s, "turn-1"),
        _ => panic!("no turn id"),
    }

    let unsent = recovery_card("turn-2", None, None, None, "not_sent");
    let input = unsent.state.as_ref().unwrap().input.as_ref().unwrap();
    assert!(matches!(get(input, "errorKind"), Some(JsonValue::Null)));
    assert!(matches!(get(input, "recoveryAction"), Some(JsonValue::Str(s)) if s == "retry"));
    let recorded = recovery_card("turn-3", None, None, Some("continue"), "rejected");
    let input = recorded.state.as_ref().unwrap().input.as_ref().unwrap();
    assert!(matches!(get(input, "recoveryAction"), Some(JsonValue::Str(s)) if s == "continue"));

    let mut parts = vec![
        WirePart::text("t", "partial answer"),
        WirePart::tool("turn-retry", "retry", "running", None),
    ];
    with_recovery_card(&mut parts, card);
    let ids: Vec<&str> = parts.iter().map(|p| p.id.as_str()).collect();
    assert_eq!(ids, vec!["t", "turn-recovery"]);
    with_recovery_card(&mut parts, unsent);
    let ids: Vec<&str> = parts.iter().map(|p| p.id.as_str()).collect();
    assert_eq!(ids, vec!["t", "turn-recovery"]);
    let input = parts[1].state.as_ref().unwrap().input.as_ref().unwrap();
    assert!(matches!(get(input, "turnId"), Some(JsonValue::Str(s)) if s == "turn-2"));
}

#[test]
fn a_session_shell_gets_five_zsh_hooks() {
    let files = shell_hook_files("/home/u");
    let names: Vec<&str> = files.iter().map(|(n, _)| *n).collect();
    assert_eq!(names, vec![".zshenv", ".zprofile", ".zshrc", ".zlogin", ".zlogout"]);
    assert_eq!(files[0].1, zshenv_hook("/home/u"));
    assert_eq!(files[2].1, zsh_startup_wrapper(".zshrc"));
}

#[test]
fn a_waiting_retry_shows_its_attempt_and_schedule() {
    let part = retry_status_part("native", "Provider overloaded", 2, Some(5), None, "turn-9");
    assert_eq!(part.id, "turn-retry");
    assert_eq!(part.tool.as_deref(), Some("retry"));
    let state = part.state.as_ref().unwrap();
    assert_eq!(state.status, "running");
    assert_eq!(state.title.as_deref(), Some("Provider overloaded"));
    let input = state.input.as_ref().unwrap();
    assert!(matches!(get(input, "retryOwner"), Some(JsonValue::Str(s)) if s == "native"));
    assert!(matches!(get(input, "attempt"), Some(JsonValue::Number(n)) if n == "2"));
    assert!(matches!(get(input, "maximum"), Some(JsonValue::Number(n)) if n == "5"));
    assert!(matches!(get(input, "nextRetryAt"), Some(JsonValue::Null)));
    assert!(matches!(get(input, "turnId"), Some(JsonValue::Str(s)) if s == "turn-9"));
    let late = retry_status_part("orx", "Reconnecting", -1, None, Some(1_700_000_000_000), "t");
    let input = late.state.as_ref().unwrap().input.as_ref().unwrap();
    assert!(matches!(get(input, "attempt"), Some(JsonValue::Number(n)) if n == "-1"));
    assert!(matches!(get(input, "nextRetryAt"), Some(JsonValue::Number(n)) if n == "1700000000000"));
}

fn saved(display: &str, path: &str, is_pdf: bool) -> SavedAttachment {
    SavedAttachment {
        file_name: "f".into(),
        path: path.into(),
        display_name: display.into(),
        is_pdf,
    }
}

#[test]
fn a_new_session_is_named_from_its_first_line_or_attachment() {
    assert_eq!(fallback_title("\n  \n  Plan the sweep  \nmore", &Vec::new()).as_deref(), Some("Plan the sweep"));
    let long = format!("{} tail", "word ".repeat(20));
    let title = fallback_title(&long, &Vec::new()).unwrap();
    assert_eq!(title, format!("{}…", "word ".repeat(13).trim_end()));
    assert_eq!(title.chars().count(), 65);
    let images = vec![saved("shot.png", "/a/shot.png", false), saved("paper.pdf", "/a/p.pdf", true)];
    assert_eq!(fallback_title("  ", &images).as_deref(), Some("paper.pdf"));
    assert_eq!(fallback_title("", &vec![saved("shot.png", "/a/s.png", false)]).as_deref(), Some("Image"));
    assert_eq!(fallback_title(" \n ", &Vec::new()), None);
}

#[test]
fn attached_files_are_listed_for_the_harness() {
    let files = vec![saved("paper.pdf", "/data/chat-attachments/p.pdf", true), saved("plot", "/d/x.png", false)];
    assert_eq!(
        attached_files_block(&files),
        "\n\n<attached-files>\nThe user attached 2 file(s) to this message, saved on disk at:\n\
         - paper.pdf — /data/chat-attachments/p.pdf\n- plot — /d/x.png\n\
         Open each with your file-reading tool (Read) before responding — it can read PDFs and images.\n</attached-files>"
    );
    assert!(starts_session(None, false, false));
    assert!(!starts_session(Some("shown"), false, false));
    assert!(starts_session(Some("shown"), false, true));
    assert!(!starts_session(None, true, true));
}
