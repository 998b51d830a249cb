use mission_control::daemon::{
    collect_pi_signals, collect_projects, daemon_socket_path, emit_events_at, pi_session_dir, project_dirs,
    session_paths,
};
use mission_control::schema::events::EventKind;
use mission_control::schema::pane_view::{
    ActivityKind, AgentStatus, Attention, CurrentActivity, Flags, PaneView, Totals, Vitals, VitalsDelta,
};
use mission_control::schema::project::{ProjectKind, ProjectProfile};
use mission_control::schema::raw_signals::HerdrPaneSnapshot;
use mission_control::state::StateStore;
use mission_control::time::Timestamp;

fn ts() -> Timestamp {
    Timestamp { secs: 1_700_000_000, nanos: 5 }
}

fn pane(id: &str, attention: Attention) -> PaneView {
    PaneView {
        schema_version: 1,
        pane_id: id.to_string(),
        workspace_id: "w".to_string(),
        workspace_name: None,
        tab_id: "t".to_string(),
        tab_name: None,
        updated_at: ts(),
        agent: None,
        agent_status: AgentStatus::Idle,
        focused: false,
        session_id: None,
        session_path: None,
        project: None,
        last_user_message: None,
        arc: Vec::new(),
        current: CurrentActivity { kind: ActivityKind::UserPending, tool_name: None, snippet: String::new(), started_at: ts() },
        vitals: Vitals { total_turns: 0, total_tool_calls: 0, total_cost_micros: 0, model: String::new(), thinking_level: None, session_age_secs: 0 },
        vitals_since_last_user: VitalsDelta { tool_calls: 0, cost_micros: 0, errors: 0 },
        flags: Flags { attention, is_runaway: false, is_blocked: false, awaiting_user_reply: false, idle_long_secs: None },
    }
}

fn totals(n: usize) -> Totals {
    Totals { pane_count: n, working_count: 0, idle_count: n, blocked_count: 0, total_cost_micros: 0, total_tool_calls: 0 }
}

fn kind_names(store: &StateStore, after: u64) -> Vec<String> {
    store
        .events_after(after)
        .iter()
        .map(|(_, e)| match &e.event {
            EventKind::PaneAdded(p) => format!("added {}", p.pane_id),
            EventKind::PaneRemoved { pane_id } => format!("removed {}", pane_id),
            EventKind::PaneViewPatch { pane_id, .. } => format!("patch {}", pane_id),
            EventKind::AttentionChanged { pane_id, from, to } => format!("attention {} {:?}->{:?}", pane_id, from, to),
            EventKind::TotalsChanged { totals } => format!("totals {}", totals.pane_count),
        })
        .collect()
}

#[test]
fn first_poll_adds_every_pane_then_totals() {
    let mut store = StateStore::new();
    let next = vec![pane("a", Attention::Low), pane("b", Attention::Nothing)];
    emit_events_at(&Vec::new(), &next, totals(0), totals(2), &mut store, ts());
    assert_eq!(kind_names(&store, 0), vec!["added a", "added b", "totals 2"]);
    let evs = store.events_after(0);
    assert_eq!(evs[0].1.protocol_version, 1);
    assert_eq!(evs[0].1.sequence, 1);
    assert_eq!(evs[2].1.sequence, 3);
    assert_eq!(evs[0].1.timestamp, ts());
}

#[test]
fn poll_reports_added_removed_and_attention_changes() {
    let mut store = StateStore::new();
    let prev = vec![pane("a", Attention::Low), pane("b", Attention::Nothing), pane("c", Attention::High)];
    let next = vec![pane("c", Attention::Critical), pane("d", Attention::Low), pane("a", Attention::Low)];
    emit_events_at(&prev, &next, totals(2), totals(3), &mut store, ts());
    assert_eq!(
        kind_names(&store, 0),
        vec!["added d", "removed b", "patch c", "attention c Some(High)->Critical", "totals 3"]
    );
    assert_eq!(store.current_sequence(), 5);
}

#[test]
fn unchanged_poll_emits_nothing() {
    let mut store = StateStore::new();
    let panes = vec![pane("a", Attention::Medium)];
    emit_events_at(&panes, &panes, totals(1), totals(1), &mut store, ts());
    assert!(kind_names(&store, 0).is_empty());
    assert_eq!(store.current_sequence(), 0);
}

#[test]
fn totals_are_emitted_only_when_they_change() {
    let mut store = StateStore::new();
    let panes = vec![pane("a", Attention::Medium)];
    let mut moved = totals(1);
    moved.total_tool_calls = 7;
    emit_events_at(&panes, &panes, totals(1), moved, &mut store, ts());
    assert_eq!(kind_names(&store, 0), vec!["totals 1"]);
    match &store.events_after(0)[0].1.event {
        EventKind::TotalsChanged { totals } => assert_eq!(totals.total_tool_calls, 7),
        _ => panic!("expected totals"),
    }
}

#[test]
fn a_changed_field_emits_a_patch_with_only_that_field() {
    let mut store = StateStore::new();
    let prev = vec![pane("a", Attention::Low)];
    let mut b = pane("a", Attention::Low);
    b.focused = true;
    b.last_user_message = Some("hi".to_string());
    b.updated_at = Timestamp { secs: 1_700_000_100, nanos: 0 };
    emit_events_at(&prev, &vec![b], totals(1), totals(1), &mut store, ts());
    let evs = store.events_after(0);
    assert_eq!(evs.len(), 1);
    match &evs[0].1.event {
        EventKind::PaneViewPatch { pane_id, patch } => {
            assert_eq!(pane_id, "a");
            assert_eq!(patch.focused, Some(true));
            assert_eq!(patch.last_user_message, Some(Some("hi".to_string())));
            assert!(patch.agent_status.is_none());
            assert!(patch.current.is_none());
            assert!(patch.vitals_since_last_user.is_none());
            assert!(patch.flags.is_none());
        }
        _ => panic!("expected a patch"),
    }
}

#[test]
fn a_field_change_that_is_not_patchable_emits_no_patch() {
    let mut store = StateStore::new();
    let prev = vec![pane("a", Attention::Low)];
    let mut b = pane("a", Attention::Low);
    b.updated_at = Timestamp { secs: 1_700_000_100, nanos: 0 };
    emit_events_at(&prev, &vec![b], totals(1), totals(1), &mut store, ts());
    assert!(kind_names(&store, 0).is_empty());
}

#[test]
fn attention_change_compares_with_the_last_old_pane_of_that_id() {
    let mut store = StateStore::new();
    let prev = vec![pane("a", Attention::High), pane("a", Attention::Low)];
    let next = vec![pane("a", Attention::Low)];
    emit_events_at(&prev, &next, totals(1), totals(1), &mut store, ts());
    assert!(kind_names(&store, 0).is_empty());
}

#[test]
fn a_reader_current_before_a_poll_reads_back_exactly_its_events() {
    let mut store = StateStore::new();
    emit_events_at(&Vec::new(), &vec![pane("a", Attention::Low)], totals(0), totals(1), &mut store, ts());
    let seen = store.current_sequence();
    let prev = vec![pane("a", Attention::Low)];
    let next = vec![pane("b", Attention::Low)];
    emit_events_at(&prev, &next, totals(1), totals(1), &mut store, ts());
    let back = store.events_after(seen);
    assert_eq!(back.iter().map(|e| e.0).collect::<Vec<_>>(), vec![seen + 1, seen + 2]);
    assert_eq!(back.iter().map(|e| e.1.sequence).collect::<Vec<_>>(), vec![seen + 1, seen + 2]);
    assert_eq!(kind_names(&store, seen), vec!["added b", "removed a"]);
}

fn snapshot(pane_id: &str, cwd: &str, session: Option<&str>) -> HerdrPaneSnapshot {
    HerdrPaneSnapshot {
        workspace_id: "w".to_string(),
        workspace_label: None,
        tab_id: "t".to_string(),
        tab_label: None,
        pane_id: pane_id.to_string(),
        agent: None,
        agent_status: AgentStatus::Idle,
        focused: false,
        cwd: cwd.to_string(),
        agent_session_path: session.map(|s| s.to_string()),
        custom_status: None,
        captured_at: ts(),
    }
}

#[test]
fn session_paths_are_read_once_each() {
    let panes = vec![
        snapshot("p1", "/a", Some("/s/one.jsonl")),
        snapshot("p2", "/b", None),
        snapshot("p3", "/a", Some("/s/two.jsonl")),
        snapshot("p4", "", Some("/s/one.jsonl")),
    ];
    assert_eq!(session_paths(&panes), vec!["/s/one.jsonl", "/s/two.jsonl"]);
    assert_eq!(project_dirs(&panes), vec!["/a", "/b"]);
}

fn profile(cwd: &str) -> ProjectProfile {
    ProjectProfile {
        cwd: cwd.to_string(),
        kind: ProjectKind::Rust,
        name: Some(cwd.to_string()),
        purpose: None,
        stack_summary: Vec::new(),
        recent_artifacts: Vec::new(),
        scanned_at: ts(),
        cwd_mtime: ts(),
    }
}

#[test]
fn collected_values_are_keyed_by_path() {
    let dirs = vec!["/a".to_string(), "/b".to_string(), "/c".to_string()];
    let map = collect_projects(&dirs, vec![Some(profile("/a")), None, Some(profile("/c"))]);
    assert_eq!(map.get("/a").map(|p| p.cwd.clone()), Some("/a".to_string()));
    assert!(map.get("/b").is_none());
    assert_eq!(map.get("/c").and_then(|p| p.name.clone()), Some("/c".to_string()));
    assert!(!map.contains_key("/d"));
    let short = collect_projects(&dirs, vec![Some(profile("/a"))]);
    assert!(short.contains_key("/a"));
    assert!(!short.contains_key("/c"));
    let sessions = collect_pi_signals(&vec!["/s/x.jsonl".to_string()], vec![None]);
    assert!(!sessions.contains_key("/s/x.jsonl"));
}

#[test]
fn first_read_value_wins_for_a_repeated_path() {
    let dirs = vec!["/a".to_string(), "/a".to_string(), "/a".to_string()];
    let mut first = profile("/a");
    first.name = Some("first".to_string());
    let mut second = profile("/a");
    second.name = Some("second".to_string());
    let map = collect_projects(&dirs, vec![None, Some(first), Some(second)]);
    assert_eq!(map.get("/a").and_then(|p| p.name.clone()), Some("first".to_string()));
}

#[test]
fn socket_and_session_locations() {
    assert_eq!(daemon_socket_path(Some("/run/user/1000"), Some("/home/u/.cache")), "/run/user/1000/mc.sock");
    assert_eq!(daemon_socket_path(None, Some("/home/u/.cache/")), "/home/u/.cache/mc.sock");
    assert_eq!(daemon_socket_path(None, None), "/tmp/mc.sock");
    assert_eq!(pi_session_dir(Some("/home/u")), "/home/u/.pi/agent/sessions");
    assert_eq!(pi_session_dir(None), "./.pi/agent/sessions");
}
