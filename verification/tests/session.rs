use openresearch_cli::chat::{session_json, SessionRecord};
use openresearch_cli::json::{get, JsonValue};

fn bare_session() -> SessionRecord {
    SessionRecord {
        id: "chat_1".into(),
        project_id: "proj_1".into(),
        harness: "opencode".into(),
        title: None,
        title_source: None,
        model: None,
        plan_mode: false,
        reasoning_level: None,
        archived: false,
        created_at: 1,
        updated_at: 2,
    }
}

fn number(v: &JsonValue) -> Option<&str> {
    match v {
        JsonValue::Number(n) => Some(n.as_str()),
        _ => None,
    }
}

#[test]
fn session_json_includes_context_usage_when_set_null_otherwise() {
    let session = bare_session();
    let value = session_json(&session, None, None, false);
    assert!(matches!(get(&value, "contextUsage"), Some(JsonValue::Null)));

    let usage = JsonValue::Object(vec![
        ("usedTokens".into(), JsonValue::Number("27564".into())),
        ("contextWindow".into(), JsonValue::Number("200000".into())),
    ]);
    let value = session_json(&session, None, Some(usage), false);
    let usage = get(&value, "contextUsage").unwrap();
    assert_eq!(number(get(usage, "usedTokens").unwrap()), Some("27564"));
    assert_eq!(number(get(usage, "contextWindow").unwrap()), Some("200000"));
}

#[test]
fn session_json_carries_title_source() {
    let value = session_json(&bare_session(), None, None, false);
    assert!(matches!(get(&value, "titleSource"), Some(JsonValue::Null)));

    let mut generated = bare_session();
    generated.title_source = Some("generated".into());
    let value = session_json(&generated, None, None, false);
    assert!(matches!(get(&value, "titleSource"), Some(JsonValue::Str(s)) if s == "generated"));
}

#[test]
fn session_json_exposes_plan_and_normalizes_invalid_permissions() {
    let mut session = bare_session();
    session.harness = "codex".into();
    session.plan_mode = true;
    // The stored "plan" is not a codex permission; the harness registry
    // normalizes it to codex's default, which the caller passes in.
    let value = session_json(&session, Some("approve-for-me"), None, false);
    assert!(matches!(get(&value, "permissionMode"), Some(JsonValue::Str(s)) if s == "approve-for-me"));
    assert!(matches!(get(&value, "planMode"), Some(JsonValue::Bool(true))));
}

#[test]
fn session_json_lists_every_field_in_order() {
    let mut session = bare_session();
    session.title = Some("T".into());
    session.created_at = -5;
    let value = session_json(&session, Some("ask"), None, true);
    let JsonValue::Object(entries) = &value else { panic!("expected an object") };
    let keys: Vec<&str> = entries.iter().map(|e| e.0.as_str()).collect();
    assert_eq!(
        keys,
        [
            "id", "projectId", "harness", "title", "titleSource", "model", "permissionMode",
            "planMode", "reasoningLevel", "archived", "createdAt", "updatedAt", "busy",
            "contextUsage"
        ]
    );
    assert_eq!(number(get(&value, "createdAt").unwrap()), Some("-5"));
    assert!(matches!(get(&value, "busy"), Some(JsonValue::Bool(true))));
}
