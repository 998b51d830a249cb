use mission_control::json::JsonValue;
use mission_control::schema::events::{EventEnvelope, EventKind, McMethod, PROTOCOL_VERSION};
use mission_control::schema::pane_view::{
    ActivityKind, AgentStatus, Attention, CurrentActivity, Flags, PaneView, Totals, Vitals, VitalsDelta,
};
use mission_control::state::StateStore;
use mission_control::time::Timestamp;
use mission_control::transport::{
    handle_method, json_error, json_response, panes_needing_attention, reply_result, request_id,
    request_line, McReply, PANE_NOT_FOUND, PARSE_ERROR,
};

fn ts() -> Timestamp {
    Timestamp { secs: 1_700_000_000, nanos: 0 }
}

fn pane(id: &str, attention: Attention) -> PaneView {
    PaneView {
        schema_version: 1,
        pane_id: id.to_string(),
        workspace_id: "w1".to_string(),
        workspace_name: None,
        tab_id: "t1".to_string(),
        tab_name: None,
        updated_at: ts(),
        agent: None,
        agent_status: AgentStatus::Working,
        focused: false,
        session_id: None,
        session_path: None,
        project: None,
        last_user_message: None,
        arc: Vec::new(),
        current: CurrentActivity {
            kind: ActivityKind::UserPending,
            tool_name: None,
            snippet: String::new(),
            started_at: ts(),
        },
        vitals: Vitals {
            total_turns: 0,
            total_tool_calls: 0,
            total_cost_micros: 0,
            model: String::new(),
            thinking_level: None,
            session_age_secs: 0,
        },
        vitals_since_last_user: VitalsDelta { tool_calls: 0, cost_micros: 0, errors: 0 },
        flags: Flags {
            attention,
            is_runaway: false,
            is_blocked: false,
            awaiting_user_reply: false,
            idle_long_secs: None,
        },
    }
}

fn totals() -> Totals {
    Totals {
        pane_count: 3,
        working_count: 3,
        idle_count: 0,
        blocked_count: 1,
        total_cost_micros: 1_500_000,
        total_tool_calls: 9,
    }
}

fn ids(panes: &[PaneView]) -> Vec<String> {
    panes.iter().map(|p| p.pane_id.clone()).collect()
}

#[test]
fn needs_attention_drops_nothing_and_sorts_most_urgent_first() {
    let panes = vec![
        pane("a", Attention::Low),
        pane("b", Attention::Nothing),
        pane("c", Attention::Critical),
        pane("d", Attention::Medium),
        pane("e", Attention::Low),
        pane("f", Attention::High),
    ];
    let r = panes_needing_attention(&panes);
    assert_eq!(ids(&r), vec!["c", "f", "d", "a", "e"]);
}

#[test]
fn needs_attention_of_quiet_panes_is_empty() {
    let panes = vec![pane("a", Attention::Nothing), pane("b", Attention::Nothing)];
    assert!(panes_needing_attention(&panes).is_empty());
}

#[test]
fn pane_get_finds_the_first_pane_with_the_id() {
    let store = StateStore::new();
    let mut second = pane("x", Attention::High);
    second.workspace_id = "other".to_string();
    let panes = vec![pane("y", Attention::Low), pane("x", Attention::Low), second];
    match handle_method(&McMethod::PaneGet { pane_id: "x".to_string() }, &store, &panes, totals()) {
        McReply::PaneGet(g) => {
            assert_eq!(g.pane.pane_id, "x");
            assert_eq!(g.pane.workspace_id, "w1");
        }
        _ => panic!("expected a pane"),
    }
}

#[test]
fn pane_get_of_unknown_id_is_an_error() {
    let store = StateStore::new();
    let panes = vec![pane("y", Attention::Low)];
    match handle_method(&McMethod::PaneGet { pane_id: "zz".to_string() }, &store, &panes, totals()) {
        McReply::Error(e) => {
            assert_eq!(e.code, PANE_NOT_FOUND);
            assert_eq!(e.code, -32000);
            assert_eq!(e.message, "pane not found: zz");
            assert!(e.data.is_none());
        }
        _ => panic!("expected an error"),
    }
}

#[test]
fn snapshot_totals_and_sequence() {
    let mut store = StateStore::new();
    store.push(EventEnvelope {
        protocol_version: PROTOCOL_VERSION,
        sequence: 0,
        timestamp: ts(),
        event: EventKind::PaneRemoved { pane_id: "gone".to_string() },
    });
    let panes = vec![pane("a", Attention::Low), pane("b", Attention::High)];
    match handle_method(&McMethod::Snapshot, &store, &panes, totals()) {
        McReply::Snapshot(s) => {
            assert_eq!(ids(&s.panes), vec!["a", "b"]);
            assert_eq!(s.totals, totals());
            assert_eq!(s.sequence, 1);
        }
        _ => panic!("expected a snapshot"),
    }
    match handle_method(&McMethod::Totals, &store, &panes, totals()) {
        McReply::Totals(t) => assert_eq!(t.totals, totals()),
        _ => panic!("expected totals"),
    }
    match handle_method(&McMethod::EventsCurrentSequence, &store, &panes, totals()) {
        McReply::CurrentSequence(c) => assert_eq!(c.sequence, 1),
        _ => panic!("expected a sequence"),
    }
    match handle_method(&McMethod::NeedsAttention, &store, &panes, totals()) {
        McReply::NeedsAttention(n) => assert_eq!(ids(&n.panes), vec!["b", "a"]),
        _ => panic!("expected panes"),
    }
}

fn push(store: &mut StateStore, event: EventKind) {
    store.push(EventEnvelope { protocol_version: PROTOCOL_VERSION, sequence: 0, timestamp: ts(), event });
}

#[test]
fn subscribe_filters_by_sequence_and_kind() {
    let mut store = StateStore::new();
    push(&mut store, EventKind::PaneRemoved { pane_id: "a".to_string() });
    push(&mut store, EventKind::TotalsChanged { totals: totals() });
    push(&mut store, EventKind::AttentionChanged { pane_id: "b".to_string(), from: None, to: Attention::High });
    push(&mut store, EventKind::TotalsChanged { totals: totals() });
    let panes: Vec<PaneView> = Vec::new();
    let all = McMethod::EventsSubscribe { after_seq: 1, kinds: Vec::new() };
    match handle_method(&all, &store, &panes, totals()) {
        McReply::Events(v) => assert_eq!(v.events.iter().map(|e| e.0).collect::<Vec<_>>(), vec![2, 3, 4]),
        _ => panic!("expected events"),
    }
    let some = McMethod::EventsSubscribe { after_seq: 0, kinds: vec!["totals_changed".to_string(), "pane_added".to_string()] };
    match handle_method(&some, &store, &panes, totals()) {
        McReply::Events(v) => assert_eq!(v.events.iter().map(|e| e.0).collect::<Vec<_>>(), vec![2, 4]),
        _ => panic!("expected events"),
    }
    let none = McMethod::EventsSubscribe { after_seq: 0, kinds: vec!["bogus".to_string()] };
    match handle_method(&none, &store, &panes, totals()) {
        McReply::Events(v) => assert!(v.events.is_empty()),
        _ => panic!("expected events"),
    }
}

#[test]
fn response_and_error_lines() {
    assert_eq!(json_response("7", "{\"sequence\":3}"), "{\"id\":\"7\",\"result\":{\"sequence\":3}}");
    assert_eq!(
        json_error("x\"y", PANE_NOT_FOUND, "pane not found: p"),
        "{\"error\":{\"code\":-32000,\"message\":\"pane not found: p\"},\"id\":\"x\\\"y\"}"
    );
    assert_eq!(
        json_error("unknown", PARSE_ERROR, "Parse error: eof"),
        "{\"error\":{\"code\":-32700,\"message\":\"Parse error: eof\"},\"id\":\"unknown\"}"
    );
    assert_eq!(json_error("1", 5, "m"), "{\"error\":{\"code\":5,\"message\":\"m\"},\"id\":\"1\"}");
}

#[test]
fn request_id_falls_back_to_unknown() {
    let with_id = JsonValue::Object(vec![("id".to_string(), JsonValue::Str("abc".to_string()))]);
    let numeric = JsonValue::Object(vec![("id".to_string(), JsonValue::Number("3".to_string()))]);
    assert_eq!(request_id(Some(&with_id)), "abc");
    assert_eq!(request_id(Some(&numeric)), "unknown");
    assert_eq!(request_id(None), "unknown");
}

#[test]
fn request_line_frames_method_and_params() {
    assert_eq!(
        request_line("tui", "mc.snapshot", &JsonValue::Null),
        "{\"id\":\"tui\",\"method\":\"mc.snapshot\",\"params\":null}"
    );
    let params = JsonValue::Object(vec![("pane_id".to_string(), JsonValue::Str("w1:p1".to_string()))]);
    assert_eq!(
        request_line("web", "mc.pane.get", &params),
        "{\"id\":\"web\",\"method\":\"mc.pane.get\",\"params\":{\"pane_id\":\"w1:p1\"}}"
    );
}

#[test]
fn reply_result_reads_error_then_result() {
    let err = JsonValue::Object(vec![
        ("error".to_string(), JsonValue::Object(vec![
            ("code".to_string(), JsonValue::Number("-32000".to_string())),
            ("message".to_string(), JsonValue::Str("nope".to_string())),
        ])),
        ("id".to_string(), JsonValue::Str("1".to_string())),
    ]);
    match reply_result(&err) {
        Err(m) => assert_eq!(m, "api error: {\"code\":-32000,\"message\":\"nope\"}"),
        Ok(_) => panic!("expected an error"),
    }
    let ok = JsonValue::Object(vec![("result".to_string(), JsonValue::Bool(true))]);
    match reply_result(&ok) {
        Ok(Some(JsonValue::Bool(true))) => {}
        _ => panic!("expected the result"),
    }
    let empty = JsonValue::Object(Vec::new());
    assert!(matches!(reply_result(&empty), Ok(None)));
}
