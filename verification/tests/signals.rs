use mission_control::collector::pi::{
    build_child_map, build_signals, build_signals_at, detect_error_since_last_user, find_last_user_message, truncate,
    records_of, walk_deepest, walk_deepest_leaf, Error, RawMessage, RawRecord,
};
use mission_control::config::Config;
use mission_control::daemon::collect_pi_signals;
use mission_control::json::JsonValue;
use mission_control::path_map::PathMap;
use mission_control::reducer::{compute_flags, reduce_at};
use mission_control::schema::pane_view::{AgentStatus, Attention};
use mission_control::schema::project::ProjectProfile;
use mission_control::schema::raw_signals::{
    ContentBlock, HerdrPaneSnapshot, LeafKind, MessageNode, MessageRole, ThinkingLevel,
};
use mission_control::time::Timestamp;

fn s(t: &str) -> String {
    t.to_string()
}

fn obj(entries: Vec<(&str, JsonValue)>) -> JsonValue {
    JsonValue::Object(entries.into_iter().map(|(k, v)| (s(k), v)).collect())
}

fn message(id: &str, parent: Option<&str>, role: &str, content: JsonValue, cost: Option<u64>) -> RawRecord {
    RawRecord::Message {
        parent_id: parent.map(s),
        message: RawMessage { id: Some(s(id)), role: s(role), content, cost_micros: cost },
    }
}

fn session_records() -> Vec<RawRecord> {
    vec![
        RawRecord::Session {
            id: s("550e8400-e29b-41d4-a716-446655440000"),
            cwd: Some(s("/home/user/project")),
            timestamp: s("2024-01-02T03:04:05Z"),
        },
        RawRecord::ModelChange { provider: s("acme"), model_id: s("large-model-4"), parent_id: None },
        RawRecord::ThinkingLevelChange { thinking_level: s("high") },
        message("u0", None, "user", JsonValue::Str(s("hello")), None),
        message("a0", Some("u0"), "assistant", JsonValue::Array(vec![obj(vec![("type", JsonValue::Str(s("text"))), ("text", JsonValue::Str(s("hi")))])]), Some(2_000)),
        message("u1", Some("a0"), "user", JsonValue::Str(s("fix the bug")), None),
        message(
            "a1",
            Some("u1"),
            "assistant",
            JsonValue::Array(vec![obj(vec![
                ("type", JsonValue::Str(s("toolCall"))),
                ("name", JsonValue::Str(s("bash"))),
                ("arguments", obj(vec![("command", JsonValue::Str(s("cargo test")))])),
            ])]),
            Some(1_500),
        ),
        message(
            "r1",
            Some("a1"),
            "toolResult",
            JsonValue::Array(vec![obj(vec![
                ("type", JsonValue::Str(s("toolResult"))),
                ("content", JsonValue::Str(s("command not found"))),
                ("isError", JsonValue::Bool(true)),
            ])]),
            Some(500),
        ),
    ]
}

fn now() -> Timestamp {
    Timestamp { secs: 1_704_164_645, nanos: 0 }
}

#[test]
fn signals_from_a_session() {
    let p = match build_signals_at("/tmp/s.jsonl", &session_records(), now()) {
        Ok(p) => p,
        Err(_) => panic!("expected signals"),
    };
    assert_eq!(p.session_id, 0x550e8400e29b41d4a716446655440000);
    assert_eq!(p.session_path, "/tmp/s.jsonl");
    assert_eq!(p.started_at, Timestamp { secs: 1_704_164_645, nanos: 0 });
    assert_eq!(p.cwd, "/home/user/project");
    assert_eq!(p.model.len(), 1);
    assert_eq!(p.model[0].model_id, "large-model-4");
    assert_eq!(p.thinking_level, Some(ThinkingLevel::High));
    assert_eq!(p.total_turns, 2);
    assert_eq!(p.total_tool_calls, 1);
    assert_eq!(p.total_cost_micros, 4_000);
    assert_eq!(p.cost_since_last_user_micros, 2_000);
    assert_eq!(p.conversation_tree.len(), 5);
    assert_eq!(p.last_user_message, Some(s("fix the bug")));
    assert_eq!(p.tool_calls_since_last_user, 1);
    assert_eq!(p.deepest_leaf_since_last_user.kind, LeafKind::ToolResult);
    assert_eq!(p.deepest_leaf_since_last_user.snippet, Some(s("command not found")));
    let e = p.error_since_last_user.as_ref().expect("an error");
    assert_eq!(e.tool_name, "unknown");
    assert_eq!(e.excerpt, "command not found");
    assert_eq!(p.last_activity_at, now());
}

#[test]
fn session_without_id_is_an_error() {
    let records = vec![message("u0", None, "user", JsonValue::Str(s("hi")), None)];
    match build_signals_at("/tmp/none.jsonl", &records, now()) {
        Err(Error::NoSessionRecord(p)) => assert_eq!(p, "/tmp/none.jsonl"),
        _ => panic!("expected the missing-session error"),
    }
    let bad_id = vec![RawRecord::Session { id: s("not-a-uuid"), cwd: None, timestamp: s("x") }];
    assert!(matches!(build_signals("/tmp/bad.jsonl", &bad_id), Some(Err(Error::NoSessionRecord(_)))));
}

#[test]
fn pi_truncation_replaces_newlines_and_adds_dots() {
    assert_eq!(truncate("a\nb", 10), "a b");
    assert_eq!(truncate("abcdefghij", 8), "abcde...");
    assert_eq!(truncate("abcdef", 2), "...");
}

fn herdr(status: AgentStatus, focused: bool, session: Option<&str>) -> HerdrPaneSnapshot {
    HerdrPaneSnapshot {
        workspace_id: s("w1"),
        workspace_label: None,
        tab_id: s("t1"),
        tab_label: None,
        pane_id: s("w1:p1"),
        agent: Some(s("pi")),
        agent_status: status,
        focused,
        cwd: s("/home/user/project"),
        agent_session_path: session.map(s),
        custom_status: None,
        captured_at: now(),
    }
}

#[test]
fn blocked_on_a_tool_error_is_critical() {
    let p = match build_signals_at("/tmp/s.jsonl", &session_records(), now()) {
        Ok(p) => p,
        Err(_) => panic!("expected signals"),
    };
    let config = Config::default();
    let f = compute_flags(&herdr(AgentStatus::Working, false, None), Some(&p), &config, now());
    assert!(f.is_blocked);
    assert_eq!(f.attention, Attention::Critical);
    assert!(!f.is_runaway);
    let mut low = Config::default();
    low.runaway_threshold = 1;
    let g = compute_flags(&herdr(AgentStatus::Working, false, None), Some(&p), &low, now());
    assert!(g.is_runaway);
    assert_eq!(g.attention, Attention::Critical);
    let later = Timestamp { secs: now().secs + 1000, nanos: 0 };
    let h = compute_flags(&herdr(AgentStatus::Working, false, None), Some(&p), &config, later);
    assert_eq!(h.idle_long_secs, Some(1000));
}

#[test]
fn without_signals_only_the_status_counts() {
    let config = Config::default();
    let working = compute_flags(&herdr(AgentStatus::Working, false, None), None, &config, now());
    assert_eq!(working.attention, Attention::Low);
    assert!(!working.is_blocked && !working.is_runaway && !working.awaiting_user_reply);
    assert_eq!(working.idle_long_secs, None);
    let idle = compute_flags(&herdr(AgentStatus::Idle, false, None), None, &config, now());
    assert_eq!(idle.attention, Attention::Nothing);
}

#[test]
fn reduce_joins_panes_with_their_session() {
    let p = match build_signals_at("/tmp/s.jsonl", &session_records(), now()) {
        Ok(p) => p,
        Err(_) => panic!("expected signals"),
    };
    let signals = collect_pi_signals(&vec![s("/tmp/s.jsonl")], vec![Some(p)]);
    let projects: PathMap<ProjectProfile> = PathMap::new();
    let panes = vec![
        herdr(AgentStatus::Working, false, Some("/tmp/s.jsonl")),
        herdr(AgentStatus::Idle, true, None),
    ];
    let (views, totals) = reduce_at(&panes, &signals, &projects, &Config::default(), now()).expect("no panic");
    assert_eq!(views.len(), 2);
    assert_eq!(views[0].flags.attention, Attention::Critical);
    assert_eq!(views[0].vitals.total_cost_micros, 4_000);
    assert_eq!(views[0].vitals.model, "large-model-4");
    assert_eq!(views[0].last_user_message, Some(s("fix the bug")));
    assert_eq!(views[1].flags.attention, Attention::Nothing);
    assert_eq!(totals.pane_count, 2);
    assert_eq!(totals.working_count, 1);
    assert_eq!(totals.idle_count, 1);
    assert_eq!(totals.blocked_count, 1);
    assert_eq!(totals.total_cost_micros, 4_000);
    assert_eq!(totals.total_tool_calls, 1);
}

fn node(id: &str, parent: Option<&str>, role: MessageRole, text: &str) -> MessageNode {
    MessageNode {
        id: s(id),
        parent_id: parent.map(s),
        role,
        content: vec![ContentBlock::Text { text: s(text) }],
        timestamp: now(),
    }
}

#[test]
fn the_walk_finds_the_deepest_descendant() {
    let nodes = vec![
        node("u", None, MessageRole::User, "go"),
        node("a", Some("u"), MessageRole::Assistant, "first"),
        node("c", Some("u"), MessageRole::Assistant, "shallow"),
        node("b", Some("a"), MessageRole::Assistant, "deep"),
    ];
    let kids = build_child_map(&nodes);
    let mut seen: Vec<String> = Vec::new();
    assert_eq!(walk_deepest(&nodes, &kids, 0, &mut seen), Some((3, 2)));
    let leaf = walk_deepest_leaf(&nodes, &kids).expect("no panic");
    assert_eq!(leaf.kind, LeafKind::AssistantText);
    assert_eq!(leaf.snippet, Some(s("deep")));
}

#[test]
fn the_walk_keeps_the_later_child_on_equal_depth() {
    let nodes = vec![
        node("u", None, MessageRole::User, "go"),
        node("a", Some("u"), MessageRole::Assistant, "first"),
        node("c", Some("u"), MessageRole::Assistant, "second"),
    ];
    let kids = build_child_map(&nodes);
    let leaf = walk_deepest_leaf(&nodes, &kids).expect("no panic");
    assert_eq!(leaf.snippet, Some(s("second")));
}

#[test]
fn a_user_message_without_a_reply_is_pending() {
    let nodes = vec![node("u1", None, MessageRole::User, "hi")];
    let kids = build_child_map(&nodes);
    let leaf = walk_deepest_leaf(&nodes, &kids).expect("no panic");
    assert_eq!(leaf.kind, LeafKind::UserPending);
    assert_eq!(leaf.tool_name, None);
    assert_eq!(leaf.snippet, None);
    assert!(matches!(detect_error_since_last_user(&nodes, &kids), Some(None)));
}

#[test]
fn the_last_user_message_is_cut_to_a_hundred_chars() {
    let long = "x".repeat(150);
    let nodes = vec![node("u1", None, MessageRole::User, &long)];
    let m = find_last_user_message(&nodes).expect("a user message");
    assert_eq!(m, format!("{}...", "x".repeat(97)));
    assert_eq!(m.chars().count(), 100);
    let wide = "é".repeat(120);
    let nodes = vec![node("u1", None, MessageRole::User, &wide)];
    let m = find_last_user_message(&nodes).expect("a user message");
    assert_eq!(m, format!("{}...", "é".repeat(97)));
    let short = "y".repeat(100);
    let nodes = vec![node("u1", None, MessageRole::User, &short)];
    assert_eq!(find_last_user_message(&nodes), Some(short));
    assert_eq!(find_last_user_message(&Vec::new()), None);
}

#[test]
fn pane_views_carry_workspace_and_tab_names() {
    let signals = collect_pi_signals(&Vec::new(), Vec::new());
    let projects: PathMap<ProjectProfile> = PathMap::new();
    let mut h = herdr(AgentStatus::Idle, false, None);
    h.workspace_label = Some(s("backend"));
    h.tab_label = Some(s("api"));
    let (views, _) = reduce_at(&vec![h], &signals, &projects, &Config::default(), now()).expect("no panic");
    assert_eq!(views[0].workspace_name, Some(s("backend")));
    assert_eq!(views[0].tab_name, Some(s("api")));
}

#[test]
fn lines_that_are_no_record_are_skipped() {
    let rs = session_records();
    let mut parsed: Vec<Option<RawRecord>> = Vec::new();
    parsed.push(None);
    for r in rs {
        parsed.push(Some(r));
        parsed.push(None);
    }
    let kept = records_of(parsed);
    assert_eq!(kept.len(), session_records().len());
    let a = build_signals_at("/tmp/s.jsonl", &kept, now()).ok().expect("signals");
    let b = build_signals_at("/tmp/s.jsonl", &session_records(), now()).ok().expect("signals");
    assert_eq!(a.total_turns, b.total_turns);
    assert_eq!(a.total_cost_micros, b.total_cost_micros);
    assert_eq!(a.last_user_message, b.last_user_message);
    assert_eq!(a.tool_calls_since_last_user, b.tool_calls_since_last_user);
}
