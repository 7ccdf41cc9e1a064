use openresearch_cli::chat::{TOOL_TEXT_CAP, TOOL_TEXT_TRUNCATION_MARKER};
use openresearch_cli::json::JsonValue;
use openresearch_cli::tool_targets::{
    bounded_tool_scan_windows, cap_tool_parts, heuristic_tool_targets, marker_tool_targets,
    normalize_command, preserve_tool_targets, push_tool_target, strip_tool_target_markers,
    tool_command, valid_tool_target, TOOL_TARGET_CAP, TOOL_TARGET_SCAN_BYTES,
};
use openresearch_cli::transcript::{upsert_preserving_children, WirePart, WireToolState};

fn s(v: &str) -> JsonValue {
    JsonValue::Str(v.to_string())
}

fn obj(entries: Vec<(&str, JsonValue)>) -> JsonValue {
    JsonValue::Object(entries.into_iter().map(|(k, v)| (k.to_string(), v)).collect())
}

fn member<'a>(v: &'a JsonValue, key: &str) -> Option<&'a JsonValue> {
    match v {
        JsonValue::Object(entries) => entries.iter().find(|(k, _)| k == key).map(|(_, v)| v),
        _ => None,
    }
}

fn strings(v: Option<&JsonValue>) -> Vec<String> {
    match v {
        Some(JsonValue::Array(items)) => items
            .iter()
            .map(|i| match i {
                JsonValue::Str(x) => x.clone(),
                _ => panic!("not a string"),
            })
            .collect(),
        _ => panic!("not an array"),
    }
}

fn state(input: JsonValue, output: &str) -> WireToolState {
    WireToolState {
        status: "completed".into(),
        input: Some(input),
        output: Some(output.to_string()),
        error: None,
        title: None,
    }
}

#[test]
fn targets_are_eight_hex_digits_or_uuids() {
    assert!(valid_tool_target("deadbeef"));
    assert!(valid_tool_target("11111111-1111-1111-1111-111111111111"));
    assert!(!valid_tool_target("deadbee"));
    assert!(!valid_tool_target("deadbeeg"));
    assert!(!valid_tool_target("11111111-1111-1111-1111x111111111111"));
    assert!(!valid_tool_target("1111111111111111111111111111111111-1"));
}

#[test]
fn pushed_targets_are_trimmed_lowercased_and_unique() {
    let mut t = Vec::new();
    push_tool_target(&mut t, "  (DEADBEEF).");
    push_tool_target(&mut t, "deadbeef");
    push_tool_target(&mut t, "not an id");
    assert_eq!(t, vec!["deadbeef".to_string()]);
}

#[test]
fn commands_are_found_and_normalised() {
    let input = obj(vec![("arguments", obj(vec![("cmd", s("orx   exp\tSTATUS $id"))]))]);
    assert_eq!(tool_command(&input), "orx   exp\tSTATUS $id");
    assert_eq!(normalize_command(&tool_command(&input)), "orx exp status $id");
    let input = obj(vec![("command", JsonValue::Bool(true)), ("cmd", s("orx logs"))]);
    assert_eq!(tool_command(&input), "orx logs");
    assert_eq!(tool_command(&obj(vec![])), "");
}

#[test]
fn markers_and_guesses_are_read_per_line() {
    let mut t = Vec::new();
    marker_tool_targets(
        "x [orx-run:DEADBEEF] y\n[orx-experiment:cafebabe]",
        true,
        &mut t,
    );
    assert_eq!(t, vec!["deadbeef".to_string()]);
    let mut t = Vec::new();
    heuristic_tool_targets(
        "GET /runs/abcdef12/logs\nRun ID: 12345678\nid: 87654321",
        true,
        &mut t,
    );
    assert_eq!(t, vec!["abcdef12".to_string(), "12345678".to_string()]);
    let mut t = Vec::new();
    heuristic_tool_targets("id: 87654321\n/experiments/aaaaaaaa", false, &mut t);
    assert_eq!(t, vec!["87654321".to_string(), "aaaaaaaa".to_string()]);
}

#[test]
fn marker_lines_are_stripped_with_their_line_endings() {
    let mut text = "a\n  [orx-run:deadbeef]  \nb\n[orx-experiment:x]".to_string();
    strip_tool_target_markers(&mut text);
    assert_eq!(text, "a\nb\n");
    let mut kept = "[orx-run:deadbeef] trailing\n".to_string();
    strip_tool_target_markers(&mut kept);
    assert_eq!(kept, "[orx-run:deadbeef] trailing\n");
}

#[test]
fn long_outputs_are_scanned_at_both_ends() {
    assert_eq!(bounded_tool_scan_windows("short"), vec!["short".to_string()]);
    let long = format!("a{}é{}b", "x".repeat(200_000), "y".repeat(200_000));
    let w = bounded_tool_scan_windows(&long);
    assert_eq!(w.len(), 2);
    assert!(w[0].len() <= TOOL_TARGET_SCAN_BYTES / 2 && w[0].starts_with('a'));
    assert!(w[1].len() <= TOOL_TARGET_SCAN_BYTES / 2 && w[1].ends_with('b'));
    let wide = "é".repeat(TOOL_TARGET_SCAN_BYTES);
    let w = bounded_tool_scan_windows(&wide);
    assert_eq!(w[0].len(), TOOL_TARGET_SCAN_BYTES / 2);
    assert_eq!(w[1].len(), TOOL_TARGET_SCAN_BYTES / 2);
}

#[test]
fn semantic_targets_are_resource_specific_and_bounded() {
    let parent = "aaaaaaaa-aaaa-aaaa-aaaa-aaaaaaaaaaaa";
    let latest_run = "bbbbbbbb-bbbb-bbbb-bbbb-bbbbbbbbbbbb";
    let mut output = format!(
        "id: 11111111-1111-1111-1111-111111111111\nparent: {parent}\nlast run: {latest_run}\n"
    );
    for index in 0..300 {
        output.push_str(&format!(
            "[orx-experiment:{index:08x}-1111-1111-1111-111111111111]\n"
        ));
    }
    let mut st = state(
        obj(vec![("arguments", obj(vec![("cmd", s("orx exp status $id"))]))]),
        &output,
    );
    preserve_tool_targets(&mut st);
    let targets = strings(member(st.input.as_ref().unwrap(), "experimentTargetIds"));
    assert_eq!(targets.len(), TOOL_TARGET_CAP);
    assert!(!targets.iter().any(|value| value == parent));
    assert!(!targets.iter().any(|value| value == latest_run));
}

#[test]
fn semantic_markers_are_authoritative_and_preserve_newlines() {
    let target = "11111111-1111-1111-1111-111111111111";
    let mentioned = "22222222-2222-2222-2222-222222222222";
    let mut st = state(
        obj(vec![("command", s("orx logs $id"))]),
        &format!("[orx-run:{target}]\nfirst line\n/runs/{mentioned}\n"),
    );
    st.status = "error".into();
    preserve_tool_targets(&mut st);
    assert_eq!(
        strings(member(st.input.as_ref().unwrap(), "runTargetIds")),
        vec![target.to_string()]
    );
    let expected = format!("first line\n/runs/{mentioned}\n");
    assert_eq!(st.output.as_deref(), Some(expected.as_str()));
}

#[test]
fn semantic_markers_beyond_legacy_scan_limit_are_preserved() {
    let target = "11111111-1111-1111-1111-111111111111";
    let mut st = state(
        obj(vec![("command", s("orx logs $id"))]),
        &format!("{}\n[orx-run:{target}]\n", "x".repeat(TOOL_TARGET_SCAN_BYTES + 1)),
    );
    preserve_tool_targets(&mut st);
    assert_eq!(
        strings(member(st.input.as_ref().unwrap(), "runTargetIds")),
        vec![target.to_string()]
    );
    assert!(!st.output.as_ref().unwrap().contains("[orx-run:"));
}

#[test]
fn later_marker_replaces_heuristic_targets() {
    let target = "11111111-1111-1111-1111-111111111111";
    let mentioned = "22222222-2222-2222-2222-222222222222";
    let mut st = state(
        obj(vec![("command", s("orx logs $id"))]),
        &format!("/runs/{mentioned}\n"),
    );
    st.status = "running".into();
    preserve_tool_targets(&mut st);
    assert_eq!(
        strings(member(st.input.as_ref().unwrap(), "runTargetIds")),
        vec![mentioned.to_string()]
    );
    st.output
        .as_mut()
        .unwrap()
        .push_str(&format!("[orx-run:{target}]\n"));
    preserve_tool_targets(&mut st);
    let input = st.input.as_ref().unwrap();
    assert_eq!(strings(member(input, "runTargetIds")), vec![target.to_string()]);
    assert!(matches!(
        member(input, "runTargetIdsAuthoritative"),
        Some(JsonValue::Bool(true))
    ));
}

#[test]
fn unrelated_tool_calls_are_left_alone() {
    let mut st = state(obj(vec![("command", s("ls -la"))]), "[orx-run:deadbeef]\n");
    preserve_tool_targets(&mut st);
    assert_eq!(st.output.as_deref(), Some("[orx-run:deadbeef]\n"));
    assert!(member(st.input.as_ref().unwrap(), "runTargetIds").is_none());
}

fn tool_part(id: &str, st: WireToolState) -> WirePart {
    let mut p = WirePart::tool(id, "bash", "completed", None);
    p.state = Some(st);
    p
}

#[test]
fn cap_tool_parts_caps_output_and_error() {
    let bloated = |id: &str| {
        let mut st = state(JsonValue::Null, &"y".repeat(1_000_000));
        st.input = None;
        st.error = Some("e".repeat(1_000_000));
        tool_part(id, st)
    };
    let mut spawn = bloated("spawn");
    spawn.children = vec![bloated("sub-t1")];
    let long_text = "z".repeat(TOOL_TEXT_CAP * 2);
    let mut parts = vec![WirePart::text("t0", &long_text), bloated("t1"), spawn];
    cap_tool_parts(&mut parts);
    assert_eq!(parts[0].text.as_ref().unwrap().len(), TOOL_TEXT_CAP * 2);
    let st = parts[1].state.as_ref().unwrap();
    assert_eq!(st.output.as_ref().unwrap().chars().count(), TOOL_TEXT_CAP);
    assert_eq!(st.error.as_ref().unwrap().chars().count(), TOOL_TEXT_CAP);
    let child = parts[2].children[0].state.as_ref().unwrap();
    assert_eq!(child.output.as_ref().unwrap().chars().count(), TOOL_TEXT_CAP);
}

#[test]
fn cap_tool_parts_preserves_semantic_targets() {
    let first = "11111111-1111-1111-1111-111111111111";
    let middle = "22222222-2222-2222-2222-222222222222";
    let last = "33333333-3333-3333-3333-333333333333";
    let output = format!(
        "[orx-run:{first}]\n{}\n[orx-run:{middle}]\n{}\n[orx-run:{last}]",
        "x".repeat(20_000),
        "y".repeat(20_000)
    );
    let mut parts = vec![tool_part("logs", state(obj(vec![("command", s("orx logs $id"))]), &output))];
    cap_tool_parts(&mut parts);
    let st = parts[0].state.as_ref().unwrap();
    let out = st.output.as_ref().unwrap();
    assert!(out.chars().count() <= TOOL_TEXT_CAP);
    assert!(out.contains(TOOL_TEXT_TRUNCATION_MARKER));
    assert_eq!(
        strings(member(st.input.as_ref().unwrap(), "runTargetIds")),
        vec![first.to_string(), middle.to_string(), last.to_string()]
    );
}

#[test]
fn tool_upsert_preserves_out_of_band_targets() {
    let target = "11111111-1111-1111-1111-111111111111";
    let mut running = state(
        obj(vec![
            ("command", s("orx logs $id")),
            ("runTargetIds", JsonValue::Array(vec![s(target)])),
            ("runTargetIdsAuthoritative", JsonValue::Bool(true)),
        ]),
        "",
    );
    running.status = "running".into();
    running.output = None;
    let mut parts = vec![tool_part("logs", running)];
    let replacement = tool_part(
        "logs",
        state(obj(vec![("command", s("orx logs $id"))]), "done"),
    );
    upsert_preserving_children(&mut parts, replacement);
    assert_eq!(parts.len(), 1);
    let input = parts[0].state.as_ref().unwrap().input.as_ref().unwrap();
    assert_eq!(strings(member(input, "runTargetIds")), vec![target.to_string()]);
    assert!(matches!(
        member(input, "runTargetIdsAuthoritative"),
        Some(JsonValue::Bool(true))
    ));
    assert_eq!(parts[0].state.as_ref().unwrap().output.as_deref(), Some("done"));
}

#[test]
fn upsert_keeps_streamed_children_and_appends_new_parts() {
    let mut spawn = WirePart::tool("spawn", "agent", "running", None);
    spawn.children = vec![WirePart::text("c1", "child")];
    let mut parts = vec![spawn];
    upsert_preserving_children(&mut parts, WirePart::tool("spawn", "agent", "completed", None));
    assert_eq!(parts[0].children.len(), 1);
    assert_eq!(parts[0].state.as_ref().unwrap().status, "completed");
    upsert_preserving_children(&mut parts, WirePart::text("t", "new"));
    assert_eq!(parts.len(), 2);
    assert_eq!(parts[1].id, "t");
}

#[test]
fn stored_ids_come_back_distinct_and_lowercased() {
    let mut st = state(
        obj(vec![
            ("command", s("orx logs abc")),
            (
                "runTargetIds",
                JsonValue::Array(vec![s("AAAAAAAA"), s("aaaaaaaa"), JsonValue::Null, s("bbbbbbbb")]),
            ),
        ]),
        "nothing to see",
    );
    preserve_tool_targets(&mut st);
    let targets = strings(member(st.input.as_ref().unwrap(), "runTargetIds"));
    assert_eq!(targets, vec!["aaaaaaaa".to_string(), "bbbbbbbb".to_string()]);
}

#[test]
fn showing_an_output_twice_changes_nothing() {
    let mut text = String::from("head\n  [orx-run:abcdef12]  \nbody\n[orx-experiment:12345678]");
    strip_tool_target_markers(&mut text);
    assert_eq!(text, "head\nbody\n");
    let once = text.clone();
    strip_tool_target_markers(&mut text);
    assert_eq!(text, once);
}
