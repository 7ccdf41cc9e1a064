use openresearch_cli::agent::{check_task_sources, non_empty, task_text, TaskError};

#[test]
fn a_task_is_required_and_comes_from_one_place() {
    assert_eq!(
        task_text(Some("  Sweep the literature  ".into()), None).unwrap(),
        "Sweep the literature"
    );
    assert!(task_text(None, None).is_err());
    assert!(task_text(Some("   ".into()), None).is_err());
    // --stdin and a positional together are ambiguous, so neither is used.
    assert!(task_text(Some("from the args".into()), Some("from stdin".into())).is_err());
}

#[test]
fn stdin_text_is_trimmed_and_must_not_be_blank() {
    assert_eq!(
        task_text(None, Some("\n  Read the papers\n\n".into())).unwrap(),
        "Read the papers"
    );
    assert_eq!(task_text(None, Some(" \t\n".into())), Err(TaskError::Missing));
    assert_eq!(
        task_text(Some("x".into()), Some("y".into())),
        Err(TaskError::BothSources)
    );
}

#[test]
fn sources_are_checked_before_stdin_is_read() {
    assert_eq!(check_task_sources(true, true), Err(TaskError::BothSources));
    assert_eq!(check_task_sources(true, false), Ok(()));
    assert_eq!(check_task_sources(false, true), Ok(()));
    assert_eq!(non_empty("  a b ".into()), Ok("a b".to_string()));
    assert_eq!(
        TaskError::Missing.message(),
        "Describe the task for the spawned agent: `orx agent spawn \"<task>\"`."
    );
    assert_eq!(
        TaskError::BothSources.message(),
        "Pass the task as an argument or --stdin, not both."
    );
}
