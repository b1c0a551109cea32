use fragr::mcp::{
    dispatch_mcp_request, ingest_server_frame, push_recent_event, resolve_agent_name,
    server_text_accepted, validate_act_arguments, ActArguments, ArgValue, McpReply, ServerFrame,
    ToolState, RECENT_EVENTS_CAP,
};
use fragr::protocol::WeaponType;

fn object(members: &[(&str, ArgValue)]) -> ActArguments {
    ActArguments::Object(
        members
            .iter()
            .map(|(k, v)| (k.to_string(), v.clone()))
            .collect(),
    )
}

#[test]
fn test_event_buffer_rotation() {
    let mut state = ToolState::default();
    for i in 0..60 {
        push_recent_event(
            &mut state,
            serde_json::Value::from(serde_json::Map::from_iter([
                ("event".to_string(), serde_json::Value::from("test")),
                ("index".to_string(), serde_json::Value::from(i)),
            ])),
        );
    }
    assert_eq!(state.recent_events.len(), 50);
    assert_eq!(state.recent_events.first().unwrap()["index"], 10);
    assert_eq!(state.recent_events.last().unwrap()["index"], 59);
}

#[test]
fn push_recent_event_rotates_at_50() {
    let mut state = ToolState::default();
    for i in 0..55 {
        let mut m = serde_json::Map::new();
        m.insert("i".to_string(), serde_json::Value::from(i));
        push_recent_event(&mut state, serde_json::Value::Object(m));
    }
    assert_eq!(state.recent_events.len(), RECENT_EVENTS_CAP);
    assert_eq!(state.recent_events[0]["i"], 5);
}

#[test]
fn test_validate_act_arguments_unknown_key() {
    let args = object(&[("laser", ArgValue::Bool(true)), ("forward", ArgValue::Bool(true))]);
    let err = validate_act_arguments(&args).unwrap_err();
    assert!(err.contains("schema error"));
    assert!(err.contains("laser"), "err={}", err);
    assert!(!err.contains("forward") || err.contains("unknown"));
}

#[test]
fn test_validate_act_arguments_bad_weapon_swap() {
    let args = object(&[("weapon_swap", ArgValue::Text("potato".to_string()))]);
    let err = validate_act_arguments(&args).unwrap_err();
    assert!(err.contains("schema error"));
    assert!(err.contains("weapon_swap"), "err={}", err);
    assert!(err.contains("potato"), "err={}", err);
}

#[test]
fn test_validate_act_arguments_valid_fire_forward() {
    let args = object(&[("fire", ArgValue::Bool(true)), ("forward", ArgValue::Bool(true))]);
    let action = validate_act_arguments(&args).expect("valid act");
    assert!(action.fire);
    assert!(action.forward);
    assert!(!action.back);
    assert!(action.weapon_swap.is_none());
}

#[test]
fn test_validate_act_arguments_empty_ok() {
    assert!(validate_act_arguments(&ActArguments::Null).is_ok());
    assert!(validate_act_arguments(&object(&[])).is_ok());
}

#[test]
fn act_errors_list_unknown_fields_sorted_and_check_types() {
    let args = object(&[("zeta", ArgValue::Null), ("alpha", ArgValue::Other)]);
    assert_eq!(
        validate_act_arguments(&args).unwrap_err(),
        "schema error: unknown act fields 'alpha', 'zeta'"
    );
    let args = object(&[("laser", ArgValue::Bool(true))]);
    assert_eq!(
        validate_act_arguments(&args).unwrap_err(),
        "schema error: unknown act field 'laser'"
    );
    assert_eq!(
        validate_act_arguments(&ActArguments::NotObject).unwrap_err(),
        "schema error: act arguments must be an object"
    );
    let args = object(&[("weapon_swap", ArgValue::Other)]);
    assert_eq!(
        validate_act_arguments(&args).unwrap_err(),
        "schema error: weapon_swap must be a string (flechette|rail|scatter)"
    );
    let args = object(&[("weapon_swap", ArgValue::Text("potato".to_string()))]);
    assert_eq!(
        validate_act_arguments(&args).unwrap_err(),
        "schema error: weapon_swap must be flechette|rail|scatter, got 'potato'"
    );
    let args = object(&[
        ("weapon_swap", ArgValue::Text("rail".to_string())),
        ("fire", ArgValue::Text("yes".to_string())),
        ("turn_left", ArgValue::Bool(true)),
    ]);
    let action = validate_act_arguments(&args).unwrap();
    assert_eq!(action.weapon_swap, Some(WeaponType::Rail));
    assert!(!action.fire);
    assert!(action.turn_left);
    let args = object(&[("weapon_swap", ArgValue::Null)]);
    assert_eq!(validate_act_arguments(&args).unwrap().weapon_swap, None);
}

#[test]
fn initialize_and_tools_list_and_unknown_method() {
    assert_eq!(
        dispatch_mcp_request("initialize", "", &ActArguments::Null),
        McpReply::Initialize
    );
    assert_eq!(
        dispatch_mcp_request("tools/list", "", &ActArguments::Null),
        McpReply::ToolsList
    );
    match dispatch_mcp_request("nope", "", &ActArguments::Null) {
        McpReply::MethodNotFound(e) => {
            assert_eq!(e.code, -32601);
            assert_eq!(e.message, "Method not found: nope");
        }
        other => panic!("unexpected {other:?}"),
    }
}

#[test]
fn tool_calls_are_dispatched_by_name() {
    assert_eq!(
        dispatch_mcp_request("tools/call", "observe", &ActArguments::Null),
        McpReply::Observe
    );
    match dispatch_mcp_request(
        "tools/call",
        "act",
        &object(&[("forward", ArgValue::Bool(true))]),
    ) {
        McpReply::ActSent(a) => assert!(a.forward),
        other => panic!("unexpected {other:?}"),
    }
    match dispatch_mcp_request("tools/call", "act", &object(&[("x", ArgValue::Null)])) {
        McpReply::ActRejected(m) => assert!(m.contains("schema error")),
        other => panic!("unexpected {other:?}"),
    }
    assert_eq!(
        dispatch_mcp_request(
            "tools/call",
            "get_events",
            &object(&[("clear", ArgValue::Bool(true))])
        ),
        McpReply::Events { clear: true }
    );
    assert_eq!(
        dispatch_mcp_request("tools/call", "get_events", &ActArguments::Null),
        McpReply::Events { clear: false }
    );
    assert_eq!(
        dispatch_mcp_request("tools/call", "dance", &ActArguments::Null),
        McpReply::UnknownTool("Unknown tool: dance".to_string())
    );
}

#[test]
fn ingest_snapshot_event_and_soft_prison() {
    let mut state = ToolState::default();
    let mut snap = serde_json::Map::new();
    snap.insert("tick".to_string(), serde_json::Value::from(9));
    ingest_server_frame(&mut state, ServerFrame::Snapshot(serde_json::Value::Object(snap)));
    assert_eq!(state.last_snapshot.as_ref().unwrap()["tick"], 9);
    let mut ev = serde_json::Map::new();
    ev.insert("event".to_string(), serde_json::Value::from("player_joined"));
    ingest_server_frame(&mut state, ServerFrame::Event(serde_json::Value::Object(ev)));
    assert_eq!(state.recent_events.len(), 1);
    let mut future = serde_json::Map::new();
    future.insert("event".to_string(), serde_json::Value::from("future_thing"));
    ingest_server_frame(&mut state, ServerFrame::Event(serde_json::Value::Object(future)));
    assert_eq!(state.recent_events.len(), 2);
    ingest_server_frame(&mut state, ServerFrame::Ignored);
    assert_eq!(state.recent_events.len(), 2);
    assert_eq!(state.last_snapshot.as_ref().unwrap()["tick"], 9);
}

#[test]
fn oversized_server_text_is_refused() {
    assert!(server_text_accepted("{}"));
    assert!(!server_text_accepted(&"x".repeat(1_000_001)));
    assert!(server_text_accepted(&"x".repeat(1_000_000)));
}

#[test]
fn test_resolve_agent_name_trims_and_defaults() {
    assert_eq!(
        resolve_agent_name(Some("  Clawbot  "), None, "MCP Agent"),
        "Clawbot"
    );
    assert_eq!(resolve_agent_name(Some(""), None, "MCP Agent"), "MCP Agent");
    assert_eq!(resolve_agent_name(None, None, "MCP Agent"), "MCP Agent");
    assert_eq!(resolve_agent_name(None, None, "ScriptedBot"), "ScriptedBot");
    assert_eq!(
        resolve_agent_name(None, Some("EnvFox"), "MCP Agent"),
        "EnvFox"
    );
    assert_eq!(
        resolve_agent_name(Some("Explicit"), Some("EnvFox"), "MCP Agent"),
        "Explicit"
    );
    assert_eq!(
        resolve_agent_name(Some("   "), Some("  "), "MCP Agent"),
        "MCP Agent"
    );
}
