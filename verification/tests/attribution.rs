use openresearch_cli::attribution::{
    apply_target_event, apply_target_events, attach_target_event, attach_target_to_ids,
    target_candidates, target_command_matches, TargetEvent,
};
use openresearch_cli::json::{get, JsonValue};
use openresearch_cli::transcript::{WirePart, WireToolState};

const TARGET: &str = "11111111-1111-1111-1111-111111111111";

fn object(entries: &[(&str, &str)]) -> JsonValue {
    JsonValue::Object(
        entries
            .iter()
            .map(|(k, v)| (k.to_string(), JsonValue::Str(v.to_string())))
            .collect(),
    )
}

fn tool_with_input(id: &str, input: JsonValue) -> WirePart {
    WirePart {
        id: id.into(),
        kind: "tool".into(),
        text: None,
        tool: Some("bash".into()),
        state: Some(WireToolState {
            status: "completed".into(),
            input: Some(input),
            output: None,
            error: None,
            title: None,
        }),
        prompt: None,
        children: Vec::new(),
    }
}

fn input_of(part: &WirePart) -> &JsonValue {
    part.state.as_ref().unwrap().input.as_ref().unwrap()
}

fn ids_under(part: &WirePart, key: &str) -> Option<Vec<String>> {
    match get(input_of(part), key) {
        Some(JsonValue::Array(items)) => Some(
            items
                .iter()
                .map(|item| match item {
                    JsonValue::Str(s) => s.clone(),
                    _ => panic!("non-string id"),
                })
                .collect(),
        ),
        Some(_) => panic!("ids are not an array"),
        None => None,
    }
}

fn flag_under(part: &WirePart, key: &str) -> Option<bool> {
    match get(input_of(part), key) {
        Some(JsonValue::Bool(b)) => Some(*b),
        _ => None,
    }
}

#[test]
fn out_of_band_target_attaches_to_latest_matching_tool() {
    let mut logs = tool_with_input("logs", object(&[("command", "id=$(lookup); orx logs \"$id\"")]));
    logs.state.as_mut().unwrap().output = Some("ordinary log content".into());
    let mut parts = vec![logs];

    assert!(!attach_target_event(
        &mut parts,
        None,
        &Vec::new(),
        "id=$(lookup); orx logs \"$id\"",
        "",
        "runs",
        TARGET,
    )
    .is_empty());
    assert_eq!(ids_under(&parts[0], "runTargetIds"), Some(vec![TARGET.to_string()]));
    assert_eq!(flag_under(&parts[0], "runTargetIdsAuthoritative"), Some(true));
}

#[test]
fn identical_parallel_commands_are_left_unattributed() {
    let make_part = |id: &str| tool_with_input(id, object(&[("command", "orx logs \"$id\"")]));
    let mut parts = vec![make_part("one"), make_part("two")];
    let ids = attach_target_event(
        &mut parts,
        None,
        &Vec::new(),
        "orx logs \"$id\"",
        "",
        "runs",
        TARGET,
    );
    assert!(ids.is_empty());

    for part in &parts {
        assert!(get(input_of(part), "runTargetIds").is_none());
    }
}

#[test]
fn target_cwd_disambiguates_parallel_commands() {
    let make_part = |id: &str, cwd: &str| {
        tool_with_input(id, object(&[("command", "orx logs \"$id\""), ("cwd", cwd)]))
    };
    let mut parts = vec![make_part("one", "/one"), make_part("two", "/two")];
    let mut ids = attach_target_event(
        &mut parts,
        None,
        &Vec::new(),
        "orx logs \"$id\"",
        "/one",
        "runs",
        TARGET,
    );

    ids.sort();
    assert_eq!(ids, vec!["one"]);
    assert_eq!(ids_under(&parts[0], "runTargetIds"), Some(vec![TARGET.to_string()]));
    assert!(get(input_of(&parts[1]), "runTargetIds").is_none());
}

#[test]
fn command_matching_follows_the_resource() {
    assert!(target_command_matches("orx logs abc", "", "runs"));
    assert!(!target_command_matches("orx logs abc", "", "experiments"));
    assert!(target_command_matches("orx exp status e1", "", "experiments"));
    assert!(target_command_matches("orx exp desc e1", "orx exp desc", "experiments"));
    assert!(target_command_matches("orx logs", "cd x && orx logs", "runs"));
    assert!(!target_command_matches("orx logs a", "orx logs b", "runs"));
}

#[test]
fn candidates_are_latest_first_with_descendants_before_their_part() {
    let mut parent = tool_with_input("parent", object(&[("command", "orx logs p")]));
    parent.children = vec![
        tool_with_input("child-a", object(&[("cmd", "orx  LOGS   a"), ("workdir", "/w")])),
        tool_with_input("child-b", object(&[("command", "ls")])),
    ];
    let parts = vec![
        tool_with_input("first", object(&[("command", "orx logs f"), ("cwd", "/f")])),
        parent,
    ];
    let mut candidates = Vec::new();
    target_candidates(&parts, "", "runs", &mut candidates);
    let seen: Vec<(String, String, Option<String>)> = candidates;
    assert_eq!(
        seen,
        vec![
            ("child-a".to_string(), "orx logs a".to_string(), Some("/w".to_string())),
            ("parent".to_string(), "orx logs p".to_string(), None),
            ("first".to_string(), "orx logs f".to_string(), Some("/f".to_string())),
        ]
    );
}

#[test]
fn a_bound_scope_records_on_its_parts_whatever_their_command() {
    let mut parts = vec![
        tool_with_input("a", object(&[("command", "ls")])),
        tool_with_input("b", object(&[("command", "orx exp status x")])),
    ];
    let bound = vec!["a".to_string(), "a".to_string()];
    let ids = attach_target_event(
        &mut parts,
        Some(&bound),
        &Vec::new(),
        "anything",
        "",
        "experiments",
        "ABCDEF12",
    );
    assert_eq!(ids, vec!["a".to_string()]);
    assert_eq!(
        ids_under(&parts[0], "experimentTargetIds"),
        Some(vec!["abcdef12".to_string()])
    );
    assert_eq!(flag_under(&parts[0], "experimentTargetIdsAuthoritative"), Some(true));
    assert!(get(input_of(&parts[1]), "experimentTargetIds").is_none());
}

#[test]
fn claimed_parts_are_skipped() {
    let mut parts = vec![
        tool_with_input("old", object(&[("command", "orx logs 1")])),
        tool_with_input("new", object(&[("command", "orx logs 2")])),
    ];
    let claimed = vec!["new".to_string()];
    let ids = attach_target_event(&mut parts, None, &claimed, "", "", "runs", TARGET);
    assert_eq!(ids, vec!["old".to_string()]);
    assert!(get(input_of(&parts[1]), "runTargetIds").is_none());
}

#[test]
fn reporting_a_target_twice_records_it_once() {
    let mut parts = vec![tool_with_input(
        "p",
        JsonValue::Object(vec![
            ("command".to_string(), JsonValue::Str("orx logs".to_string())),
            (
                "runTargetIds".to_string(),
                JsonValue::Array(vec![JsonValue::Str("ABCDEF12".to_string()), JsonValue::Null]),
            ),
        ]),
    )];
    let ids = vec!["p".to_string()];
    attach_target_to_ids(&mut parts, &ids, "runs", "abcdef12");
    assert_eq!(ids_under(&parts[0], "runTargetIds"), Some(vec!["ABCDEF12".to_string()]));
    attach_target_to_ids(&mut parts, &ids, "runs", "[orx-run:12345678]");
    attach_target_to_ids(&mut parts, &ids, "runs", "12345678");
    assert_eq!(
        ids_under(&parts[0], "runTargetIds"),
        Some(vec!["ABCDEF12".to_string(), "12345678".to_string()])
    );
    attach_target_to_ids(&mut parts, &ids, "runs", "not an id");
    assert_eq!(ids_under(&parts[0], "runTargetIds").unwrap().len(), 2);
}

fn event(scope: &str, command: &str, target: &str) -> TargetEvent {
    TargetEvent {
        scope: scope.into(),
        command: command.into(),
        cwd: String::new(),
        resource: "runs".into(),
        target: target.into(),
    }
}

#[test]
fn a_scope_keeps_the_parts_its_first_event_went_to() {
    let mut parts = vec![tool_with_input("a", object(&[("command", "orx logs x")]))];
    let mut bindings = Vec::new();
    let mut claimed = Vec::new();
    let ids = apply_target_event(&mut parts, &event("zsh-1", "orx logs x", "aaaaaaaa"), &mut bindings, &mut claimed);
    assert_eq!(ids, vec!["a".to_string()]);
    assert_eq!(bindings, vec![("zsh-1".to_string(), vec!["a".to_string()])]);
    assert_eq!(claimed, vec!["a".to_string()]);

    // A later event of the same scope goes to the same part whatever its command.
    let ids = apply_target_event(&mut parts, &event("zsh-1", "something else", "bbbbbbbb"), &mut bindings, &mut claimed);
    assert_eq!(ids, vec!["a".to_string()]);
    assert_eq!(bindings.len(), 1);
    assert_eq!(
        ids_under(&parts[0], "runTargetIds"),
        Some(vec!["aaaaaaaa".to_string(), "bbbbbbbb".to_string()])
    );

    // Another scope's unbound event cannot take the claimed part.
    let ids = apply_target_event(&mut parts, &event("zsh-2", "orx logs x", "cccccccc"), &mut bindings, &mut claimed);
    assert!(ids.is_empty());
    assert_eq!(bindings.len(), 1);
}

#[test]
fn unattributed_events_stay_pending_in_order() {
    let mut parts = vec![
        tool_with_input("one", object(&[("command", "orx logs r")])),
        tool_with_input("two", object(&[("command", "orx logs r")])),
        tool_with_input("status", object(&[("command", "orx exp status e")])),
    ];
    let mut bindings = vec![("bound".to_string(), vec!["one".to_string()])];
    let pending = vec![
        event("loose", "orx logs r", "11111111"),
        event("bound", "", "22222222"),
        event("other", "orx logs r", "33333333"),
    ];
    let remaining = apply_target_events(&mut parts, pending, &mut bindings);
    // "one" is claimed by "bound", so "loose" pins "two"; "other" then finds
    // every matching part claimed.
    let scopes: Vec<&str> = remaining.iter().map(|e| e.scope.as_str()).collect();
    assert_eq!(scopes, vec!["other"]);
    assert_eq!(ids_under(&parts[0], "runTargetIds"), Some(vec!["22222222".to_string()]));
    assert_eq!(ids_under(&parts[1], "runTargetIds"), Some(vec!["11111111".to_string()]));
    assert_eq!(bindings[0], ("bound".to_string(), vec!["one".to_string()]));
    assert_eq!(bindings[1], ("loose".to_string(), vec!["two".to_string()]));
}
