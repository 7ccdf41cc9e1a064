use openresearch_cli::stream::{find_part, orx_retry_step, turn_failure};
use openresearch_cli::stream::retry_owner;
use openresearch_cli::stream::{
    append_child_text, append_part_text, clear_retry_status, push_error, upsert_child, upsert_part,
    upsert_part_preserving_children,
};
use openresearch_cli::transcript::WirePart;

fn with_children(mut part: WirePart, children: Vec<WirePart>) -> WirePart {
    part.children = children;
    part
}

fn ids(parts: &[WirePart]) -> Vec<String> {
    parts.iter().map(|p| p.id.clone()).collect()
}

#[test]
fn streamed_deltas_append_to_the_part() {
    let mut parts = vec![WirePart::text("t", "Hel"), WirePart::reasoning("r", "x")];
    append_part_text(&mut parts, "t", "lo");
    append_part_text(&mut parts, "t", ", world");
    assert_eq!(parts[0].text.as_deref(), Some("Hello, world"));
    assert_eq!(parts[1].text.as_deref(), Some("x"));
}

#[test]
fn a_delta_for_an_unknown_part_changes_nothing() {
    let mut parts = vec![WirePart::text("t", "a")];
    append_part_text(&mut parts, "missing", "b");
    assert_eq!(parts.len(), 1);
    assert_eq!(parts[0].text.as_deref(), Some("a"));
}

#[test]
fn a_delta_gives_a_part_without_text_its_text() {
    let mut parts = vec![WirePart::tool("tool-1", "bash", "running", None)];
    append_part_text(&mut parts, "tool-1", "out");
    assert_eq!(parts[0].text.as_deref(), Some("out"));
}

#[test]
fn new_activity_drops_the_retry_row() {
    let mut parts = vec![
        WirePart::text("t", "a"),
        WirePart::tool("turn-retry", "retry", "running", None),
    ];
    append_part_text(&mut parts, "t", "b");
    assert_eq!(ids(&parts), vec!["t"]);
    assert_eq!(parts[0].text.as_deref(), Some("ab"));
}

#[test]
fn clearing_reports_whether_a_retry_row_was_there() {
    let mut parts = vec![WirePart::tool("turn-retry", "retry", "running", None)];
    assert!(clear_retry_status(&mut parts));
    assert!(parts.is_empty());
    assert!(!clear_retry_status(&mut parts));
}

#[test]
fn upsert_replaces_in_place_and_appends_new_parts() {
    let mut parts = vec![WirePart::text("a", "1"), WirePart::text("b", "2")];
    upsert_part(&mut parts, WirePart::text("a", "3"));
    upsert_part(&mut parts, WirePart::text("c", "4"));
    assert_eq!(ids(&parts), vec!["a", "b", "c"]);
    assert_eq!(parts[0].text.as_deref(), Some("3"));
    assert_eq!(parts[2].text.as_deref(), Some("4"));
}

#[test]
fn re_upserting_a_spawn_row_keeps_its_sub_agent_transcript() {
    let spawn = with_children(
        WirePart::tool("spawn", "task", "running", None),
        vec![WirePart::text("child", "working")],
    );
    let mut parts = vec![spawn];
    upsert_part_preserving_children(&mut parts, WirePart::tool("spawn", "task", "completed", None));
    assert_eq!(parts.len(), 1);
    assert_eq!(parts[0].state.as_ref().unwrap().status, "completed");
    assert_eq!(ids(&parts[0].children), vec!["child"]);
}

#[test]
fn sub_agent_parts_hang_under_a_nested_parent() {
    let inner = WirePart::tool("inner", "task", "running", None);
    let outer = with_children(WirePart::tool("outer", "task", "running", None), vec![inner]);
    let mut parts = vec![WirePart::text("t", "x"), outer];
    upsert_child(&mut parts, "inner", WirePart::text("leaf", "hi"));
    assert_eq!(ids(&parts[1].children[0].children), vec!["leaf"]);
    upsert_child(&mut parts, "inner", WirePart::text("leaf", "hello"));
    assert_eq!(parts[1].children[0].children.len(), 1);
    assert_eq!(parts[1].children[0].children[0].text.as_deref(), Some("hello"));
}

#[test]
fn the_first_parent_depth_first_gets_the_child() {
    let a = with_children(
        WirePart::tool("a", "task", "running", None),
        vec![WirePart::tool("dup", "task", "running", None)],
    );
    let b = WirePart::tool("dup", "task", "running", None);
    let mut parts = vec![a, b];
    upsert_child(&mut parts, "dup", WirePart::text("c", "1"));
    assert_eq!(ids(&parts[0].children[0].children), vec!["c"]);
    assert!(parts[1].children.is_empty());
}

#[test]
fn a_child_for_an_absent_parent_is_dropped() {
    let mut parts = vec![WirePart::text("t", "x")];
    upsert_child(&mut parts, "nobody", WirePart::text("c", "1"));
    assert_eq!(ids(&parts), vec!["t"]);
    assert!(parts[0].children.is_empty());
}

#[test]
fn child_text_is_created_then_appended() {
    let mut parts = vec![WirePart::tool("spawn", "task", "running", None)];
    append_child_text(&mut parts, "spawn", "c", "Hel", WirePart::text("c", ""));
    append_child_text(&mut parts, "spawn", "c", "lo", WirePart::text("c", "ignored"));
    assert_eq!(ids(&parts[0].children), vec!["c"]);
    assert_eq!(parts[0].children[0].text.as_deref(), Some("Hello"));
}

#[test]
fn error_rows_are_numbered_by_position() {
    let mut parts = vec![WirePart::text("t", "x")];
    push_error(&mut parts, "boom".to_string());
    push_error(&mut parts, "again".to_string());
    assert_eq!(ids(&parts), vec!["t", "err-1", "err-2"]);
    let state = parts[1].state.as_ref().unwrap();
    assert_eq!(parts[1].tool.as_deref(), Some("error"));
    assert_eq!(state.status, "error");
    assert_eq!(state.error.as_deref(), Some("boom"));
}

#[test]
fn retries_are_owned_by_the_recorded_owner_or_by_the_failure_kind() {
    assert_eq!(retry_owner(Some("native"), "spawn_failed"), "native");
    assert_eq!(retry_owner(None, "provider_terminal"), "native");
    assert_eq!(retry_owner(None, "spawn_failed"), "orx");
}

#[test]
fn retries_fit_inside_the_budget_and_report_exhaustion() {
    let r = orx_retry_step(0, Some(1_000), 0, 10_000);
    assert_eq!((r.scheduled, r.count, r.exhausted), (Some((1, 1_000)), 1, false));
    let r = orx_retry_step(1, Some(5_000), 6_000, 10_000);
    assert_eq!((r.scheduled, r.count, r.exhausted), (None, 1, true));
    let r = orx_retry_step(0, None, 0, 10_000);
    assert_eq!((r.scheduled, r.count, r.exhausted), (None, 0, false));
}

#[test]
fn a_recorded_terminal_error_wins() {
    let recorded = Some(("native_terminal".to_string(), "quota".to_string()));
    let harness = Err(("spawn".to_string(), "exit 1".to_string()));
    assert_eq!(turn_failure(recorded.clone(), harness.clone()), recorded);
    assert_eq!(turn_failure(None, harness), Some(("spawn".to_string(), "exit 1".to_string())));
    assert_eq!(turn_failure(None, Ok(())), None);
    assert_eq!(turn_failure(recorded.clone(), Ok(())), recorded);
}

#[test]
fn parts_are_found_depth_first() {
    let inner = with_children(WirePart::tool("b", "task", "running", None), vec![WirePart::text("c", "deep")]);
    let parts = vec![WirePart::text("a", "x"), inner, WirePart::text("c", "top")];
    assert_eq!(find_part(&parts, "c").unwrap().text.as_deref(), Some("deep"));
    assert!(find_part(&parts, "zz").is_none());
}
