use openresearch_cli::demo::{dialect_for, dialect_parts};
use openresearch_cli::demo::{
    assistant_parts, check_demo_origin, check_demo_worktree, complete_onboarding,
    demo_git_invocation, git_result, repair_installed_origin, session_start_ref,
    ASSISTANT_MESSAGE_ID, BASELINE_SHA, BRANCH, DemoSelection, EXPERIMENT_ID, EXPERIMENT_SHA,
    LocalProject, OWNER, OriginRepair, PROJECT_ID, REPO, RUN_ID, SESSION_ID, StoredDemo,
    StoredExperiment, StoredMessage, StoredRun, StoredSession, ToolDialect, USER_MESSAGE_ID,
};

use openresearch_cli::json::{get, JsonValue};

const CLONE: &str = "/cache/github/openresearch-demo/nanochat";

fn project() -> LocalProject {
    LocalProject {
        id: PROJECT_ID.into(),
        name: "nanochat".into(),
        slug: "nanochat".into(),
        github_owner: OWNER.into(),
        github_repo: REPO.into(),
        github_sync_enabled: false,
        baseline_branch: "main".into(),
        repo_path: CLONE.into(),
        run_command: Some("bash runs/runcpu.sh".into()),
        paper_id: None,
        created_at: 1_785_812_413_316,
        updated_at: 1_785_879_263_859,
    }
}

fn intact() -> StoredDemo {
    StoredDemo {
        project: Some(project()),
        experiments: vec![StoredExperiment {
            id: EXPERIMENT_ID.into(),
            branch_name: BRANCH.into(),
        }],
        runs: vec![StoredRun {
            id: RUN_ID.into(),
            status: "done".into(),
            exit_code: Some(0),
            commit_sha: Some(EXPERIMENT_SHA.into()),
        }],
        sessions: vec![StoredSession {
            id: SESSION_ID.into(),
            harness: "codex".into(),
            model: Some("big-model".into()),
            permission_mode: None,
            reasoning_level: Some("high".into()),
        }],
        messages: vec![
            StoredMessage {
                id: USER_MESSAGE_ID.into(),
                role: "user".into(),
            },
            StoredMessage {
                id: ASSISTANT_MESSAGE_ID.into(),
                role: "assistant".into(),
            },
        ],
    }
}

fn error_of(stored: StoredDemo) -> String {
    match complete_onboarding(CLONE, stored, false) {
        Err(m) => m,
        Ok(_) => panic!("expected a refusal"),
    }
}

#[test]
fn intact_demo_completes_with_the_stored_selection() {
    let done = match complete_onboarding(CLONE, intact(), true) {
        Ok(done) => done,
        Err(m) => panic!("{m}"),
    };
    assert!(done.newly_created);
    assert_eq!(done.project.id, PROJECT_ID);
    let DemoSelection {
        harness,
        model,
        permission_mode,
        reasoning_level,
    } = done.selection;
    assert_eq!(harness, "codex");
    assert_eq!(model.as_deref(), Some("big-model"));
    assert_eq!(permission_mode, None);
    assert_eq!(reasoning_level.as_deref(), Some("high"));
}

#[test]
fn missing_or_foreign_project_is_refused() {
    let mut d = intact();
    d.project = None;
    assert_eq!(error_of(d), "demo project seed did not persist");
    let mut d = intact();
    d.project.as_mut().unwrap().repo_path = "/elsewhere".into();
    assert!(error_of(d).contains("unexpected repository metadata"));
    let mut d = intact();
    d.project.as_mut().unwrap().baseline_branch = "dev".into();
    assert!(error_of(d).contains("unexpected repository metadata"));
}

#[test]
fn modified_records_are_refused() {
    let mut d = intact();
    d.runs[0].exit_code = Some(1);
    assert_eq!(
        error_of(d),
        "the reserved demo project is incomplete or modified; delete it and retry onboarding"
    );
    let mut d = intact();
    d.experiments.push(StoredExperiment {
        id: "other".into(),
        branch_name: "b".into(),
    });
    assert!(error_of(d).contains("incomplete or modified"));
    let mut d = intact();
    d.runs[0].commit_sha = None;
    assert!(error_of(d).contains("demo project is incomplete"));
}

#[test]
fn modified_conversation_is_refused() {
    let mut d = intact();
    d.messages.pop();
    assert_eq!(
        error_of(d),
        "the reserved demo conversation is incomplete or modified; delete it and retry onboarding"
    );
    let mut d = intact();
    d.messages[1].role = "user".into();
    assert!(error_of(d).contains("conversation"));
}

#[test]
fn only_the_demo_session_starts_at_the_experiment_commit() {
    assert_eq!(
        session_start_ref(OWNER, REPO, SESSION_ID),
        Some("346231fe75f91cd62b3040195993f33dc0e1853b")
    );
    assert_eq!(session_start_ref(OWNER, REPO, "chat_other"), None);
    assert_eq!(session_start_ref("someone", REPO, SESSION_ID), None);
}

#[test]
fn moved_data_dir_repairs_the_local_origin() {
    let bare = "/data/demo-repos/nanochat.git";
    assert!(matches!(
        repair_installed_origin(Some(CLONE), CLONE, true, bare, Some("true"), true),
        Ok(OriginRepair::SetUrl(o)) if o == bare
    ));
    assert!(matches!(
        repair_installed_origin(Some(CLONE), CLONE, true, bare, Some("true"), false),
        Ok(OriginRepair::AddOrigin(o)) if o == bare
    ));
    assert!(matches!(
        repair_installed_origin(None, CLONE, true, bare, Some("true"), true),
        Ok(OriginRepair::Unchanged)
    ));
    assert!(matches!(
        repair_installed_origin(Some(CLONE), CLONE, false, bare, None, false),
        Ok(OriginRepair::Unchanged)
    ));
}

#[test]
fn repair_refuses_misplaced_clones_and_non_bare_origins() {
    let bare = "/data/demo-repos/nanochat.git";
    match repair_installed_origin(Some("/other"), CLONE, true, bare, Some("true"), true) {
        Err(m) => assert_eq!(
            m,
            "the installed nanochat demo repository is not at its reserved cache path"
        ),
        Ok(_) => panic!("expected a refusal"),
    }
    match repair_installed_origin(Some(CLONE), CLONE, true, bare, Some("false"), true) {
        Err(m) => assert_eq!(
            m,
            "the moved nanochat demo origin at /data/demo-repos/nanochat.git is not a bare Git repository"
        ),
        Ok(_) => panic!("expected a refusal"),
    }
    assert!(repair_installed_origin(Some(CLONE), CLONE, true, bare, None, true).is_err());
}

/// The id of the harness whose tools are named `Read`, `Edit`, `Bash` (a
/// stand-in: the harness registry supplies the real one).
const TITLE_CASE_HARNESS: &str = "title-case";

#[test]
fn transcript_variants_are_one_turn_and_use_native_tool_names() {
    for (harness, expected) in [
        (TITLE_CASE_HARNESS, ["Read", "Edit", "Bash"]),
        ("codex", ["bash", "edit", "bash"]),
        ("opencode", ["read", "bash", "todowrite"]),
    ] {
        let parts = assistant_parts(harness, TITLE_CASE_HARNESS);
        let names: Vec<&str> = parts.iter().filter_map(|part| part.tool.as_deref()).collect();
        for tool in expected {
            assert!(names.contains(&tool), "{harness} missing {tool}: {names:?}");
        }
        let allowed: &[&str] = match harness {
            TITLE_CASE_HARNESS => &["Read", "Edit", "Bash"],
            "opencode" => &["read", "bash", "todowrite"],
            _ => &["bash", "edit"],
        };
        assert!(names.iter().all(|name| allowed.contains(name)));
        assert_eq!(parts.iter().filter(|part| part.kind == "prompt").count(), 0);
        for command in parts
            .iter()
            .filter_map(|part| part.state.as_ref())
            .filter_map(|state| state.input.as_ref())
            .filter_map(|input| match get(input, "command") {
                Some(JsonValue::Str(s)) => Some(s.clone()),
                _ => None,
            })
        {
            assert!(!command.contains("--slug"));
            assert!(!command.contains("--tail"));
            assert_ne!(command, "apply the reviewed portability and SFT safeguards");
            assert_ne!(command, "write the consolidated result artifact");
        }
        if harness == TITLE_CASE_HARNESS {
            for part in parts
                .iter()
                .filter(|part| matches!(part.tool.as_deref(), Some("Read") | Some("Edit")))
            {
                let input = part.state.as_ref().and_then(|state| state.input.as_ref()).unwrap();
                assert!(get(input, "filePath").is_some());
            }
        }
    }
}

#[test]
fn conversation_parts_come_in_a_fixed_order() {
    let ids = |dialect| -> Vec<String> {
        dialect_parts(dialect).into_iter().map(|part| part.id).collect()
    };
    let base = [
        "intro",
        "inspect",
        "inspection-summary",
        "portable-fixes",
        "experiment-created",
        "launch",
        "base-progress",
        "evaluate",
        "sft-progress",
        "confirm",
        "report",
        "final",
    ];
    assert_eq!(ids(ToolDialect::Patch), base);
    assert_eq!(ids(ToolDialect::TitleCase), base);
    let mut with_todo: Vec<&str> = base.to_vec();
    with_todo.insert(1, "todo");
    assert_eq!(ids(ToolDialect::Opencode), with_todo);
    let parts = assistant_parts("codex", TITLE_CASE_HARNESS);
    let launch = parts.iter().find(|part| part.id == "launch").unwrap();
    let state = launch.state.as_ref().unwrap();
    assert_eq!(state.status, "completed");
    assert_eq!(state.title.as_deref(), Some("Launch the new baseline experiment"));
    match get(state.input.as_ref().unwrap(), "command") {
        Some(JsonValue::Str(s)) => {
            assert_eq!(s, "orx exp run demo_nanochat_cpu_v1 --backend local --force")
        }
        _ => panic!("launch has no command"),
    }
    let report = parts.iter().find(|part| part.id == "report").unwrap();
    assert_eq!(report.tool.as_deref(), Some("edit"));
    assert_eq!(parts.last().unwrap().text.as_deref().unwrap().contains("**Paris**"), true);
}

#[test]
fn demo_git_is_hermetic_and_deterministic() {
    let args = vec!["rev-parse".to_string(), "HEAD".to_string()];
    let git = demo_git_invocation(&args);
    assert_eq!(
        git.args,
        vec![
            "-c",
            "core.attributesFile=/dev/null",
            "-c",
            "core.excludesFile=/dev/null",
            "-c",
            "core.hooksPath=/dev/null",
            "rev-parse",
            "HEAD"
        ]
    );
    assert!(git.cleared.contains(&"GIT_DIR"));
    assert!(git.cleared.contains(&"GIT_CONFIG_PARAMETERS"));
    assert_eq!(git.cleared.len(), 11);
    assert!(git.env.contains(&("GIT_AUTHOR_DATE", "2026-08-04T12:00:00Z")));
    assert!(git.env.contains(&("GIT_COMMITTER_EMAIL", "demo@openresearch.sh")));
    assert_eq!(git.env.len(), 10);

    assert_eq!(git_result(true, &args, " abc123\n", ""), Ok("abc123".to_string()));
    assert_eq!(
        git_result(false, &args, "", "fatal: not a git repository\n"),
        Err("git rev-parse HEAD failed: fatal: not a git repository".to_string())
    );
}

#[test]
fn only_the_intact_demo_checkout_and_origin_are_accepted() {
    let ok = check_demo_worktree(
        "/r",
        true,
        Some(BASELINE_SHA),
        Some(EXPERIMENT_SHA),
        Some(""),
        true,
    );
    assert_eq!(ok, Ok(()));
    let dirty = check_demo_worktree(
        "/r",
        true,
        Some(BASELINE_SHA),
        Some(EXPERIMENT_SHA),
        Some(" M train.py"),
        true,
    );
    assert_eq!(
        dirty,
        Err("the reserved demo path at /r already exists but is not the OpenResearch nanochat demo; move it aside and retry onboarding".to_string())
    );
    assert!(check_demo_worktree("/r", false, Some(BASELINE_SHA), Some(EXPERIMENT_SHA), Some(""), true).is_err());
    assert!(check_demo_worktree("/r", true, None, Some(EXPERIMENT_SHA), Some(""), true).is_err());
    assert!(check_demo_worktree("/r", true, Some(BASELINE_SHA), Some(EXPERIMENT_SHA), Some(""), false).is_err());

    assert_eq!(
        check_demo_origin(
            "/o.git",
            true,
            Some(BASELINE_SHA),
            Some(EXPERIMENT_SHA),
            Some("true"),
            Some("refs/heads/main")
        ),
        Ok(())
    );
    assert_eq!(
        check_demo_origin(
            "/o.git",
            true,
            Some(BASELINE_SHA),
            Some(EXPERIMENT_SHA),
            Some("false"),
            Some("refs/heads/main")
        ),
        Err("the reserved demo origin at /o.git does not contain the expected OpenResearch refs; move it aside and retry onboarding".to_string())
    );
}

#[test]
fn harnesses_map_to_their_tool_dialects() {
    assert_eq!(dialect_for(TITLE_CASE_HARNESS, TITLE_CASE_HARNESS), ToolDialect::TitleCase);
    assert_eq!(dialect_for("opencode", TITLE_CASE_HARNESS), ToolDialect::Opencode);
    assert_eq!(dialect_for("codex", TITLE_CASE_HARNESS), ToolDialect::Patch);
    assert_eq!(dialect_for("oh-my-pi", TITLE_CASE_HARNESS), ToolDialect::Patch);
}
