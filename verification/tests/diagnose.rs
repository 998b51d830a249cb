use mission_control::diagnose::{
    cwd_label, diagnose, pane_label, paths_equal, pane_session_id, size_kb, try_truncate, try_truncate_mid, truncate, truncate_mid, SessionEntry,
};
use mission_control::json::JsonValue;
use mission_control::schema::pane_view::{
    ActivityKind, AgentStatus, Attention, CurrentActivity, Flags, PaneView, Vitals, VitalsDelta,
};
use mission_control::time::Timestamp;

fn ts() -> Timestamp {
    Timestamp { secs: 0, nanos: 0 }
}

fn pane(id: &str, session: Option<&str>) -> PaneView {
    PaneView {
        schema_version: 1,
        pane_id: id.to_string(),
        workspace_id: "w".to_string(),
        workspace_name: None,
        tab_id: "t".to_string(),
        tab_name: None,
        updated_at: ts(),
        agent: None,
        agent_status: AgentStatus::Idle,
        focused: false,
        session_id: None,
        session_path: session.map(|s| s.to_string()),
        project: None,
        last_user_message: None,
        arc: Vec::new(),
        current: CurrentActivity { kind: ActivityKind::UserPending, tool_name: None, snippet: String::new(), started_at: ts() },
        vitals: Vitals { total_turns: 0, total_tool_calls: 0, total_cost_micros: 0, model: String::new(), thinking_level: None, session_age_secs: 0 },
        vitals_since_last_user: VitalsDelta { tool_calls: 0, cost_micros: 0, errors: 0 },
        flags: Flags { attention: Attention::Nothing, is_runaway: false, is_blocked: false, awaiting_user_reply: false, idle_long_secs: None },
    }
}

fn entry(path: &str, mtime: i64) -> SessionEntry {
    SessionEntry { path: path.to_string(), size_kb: 1, mtime }
}

#[test]
fn report_partitions_panes_and_sessions() {
    let panes = vec![pane("p0", Some("/s/a.jsonl")), pane("p1", None), pane("p2", Some("/s/c.jsonl"))];
    let sessions = vec![
        entry("/s/a.jsonl", 100),
        entry("/s/b.jsonl", 50),
        entry("/s/c.jsonl", 10),
        entry("/s/d.jsonl", 300),
        entry("/s/e.jsonl", 50),
    ];
    let r = diagnose(&panes, &sessions);
    assert_eq!(r.with_session, vec![0, 2]);
    assert_eq!(r.without_session, vec![1]);
    assert_eq!(r.mapped, vec![0, 2]);
    assert_eq!(r.orphaned, vec![3, 1, 4]);
}

#[test]
fn truncate_keeps_short_text_and_cuts_long_text() {
    assert_eq!(truncate("short", 10), "short");
    assert_eq!(truncate("abcdefghij", 5), "abcd…");
    assert_eq!(truncate("abc", 0), "…");
    assert_eq!(try_truncate("éa", 2), None);
    assert_eq!(try_truncate("aé", 2), Some("a…".to_string()));
}

#[test]
fn truncate_mid_keeps_both_ends() {
    assert_eq!(truncate_mid("0123456789abcdef0123456789", 22), expected_mid());
    assert_eq!(truncate_mid("abcdefgh", 4), "abcd");
    assert_eq!(truncate_mid("abc", 4), "abc");
    assert_eq!(try_truncate_mid("éééééé", 3), None);
}

fn expected_mid() -> String {
    // 22 bytes: left 9, ellipsis, right 10
    format!("{}…{}", "012345678", "0123456789")
}

#[test]
fn cwd_label_is_the_last_segment() {
    let h = JsonValue::Object(vec![("cwd".to_string(), JsonValue::Str("/home/u/project".to_string()))]);
    assert_eq!(cwd_label(Some(&h)), "project");
    let trailing = JsonValue::Object(vec![("cwd".to_string(), JsonValue::Str("/home/u/".to_string()))]);
    assert_eq!(cwd_label(Some(&trailing)), "");
    let bare = JsonValue::Object(vec![("cwd".to_string(), JsonValue::Str("proj".to_string()))]);
    assert_eq!(cwd_label(Some(&bare)), "proj");
    assert_eq!(cwd_label(Some(&JsonValue::Null)), "");
    assert_eq!(cwd_label(None), "");
}

#[test]
fn session_ids_and_times() {
    assert_eq!(entry("/s/2024-abc.jsonl", 0).session_id(), "2024-abc");
    assert_eq!(entry("/", 0).session_id(), "?");
    assert_eq!(pane_session_id("/a/b/c.tar.gz"), "c.tar");
    assert_eq!(pane_session_id(""), "");
    assert_eq!(entry("/s/x.jsonl", 0).mtime_str(), "Jan 01 00:00");
    assert_eq!(entry("/s/x.jsonl", 1_700_000_000).mtime_str(), "Nov 14 22:13");
}

#[test]
fn sizes_round_to_the_nearest_kib() {
    assert_eq!(size_kb(0), 0);
    assert_eq!(size_kb(511), 0);
    assert_eq!(size_kb(512), 1);
    assert_eq!(size_kb(1535), 1);
    assert_eq!(size_kb(1536), 2);
}

#[test]
fn a_pane_is_named_by_workspace_and_tab_when_both_are_known() {
    let mut p = pane("w1:p1", None);
    assert_eq!(pane_label(&p), "w1:p1");
    p.workspace_name = Some("backend".to_string());
    assert_eq!(pane_label(&p), "w1:p1");
    p.tab_name = Some(String::new());
    assert_eq!(pane_label(&p), "w1:p1");
    p.tab_name = Some("api".to_string());
    assert_eq!(pane_label(&p), "backend / api");
}

#[test]
fn paths_are_compared_by_their_components() {
    assert!(paths_equal("/s/a.jsonl", "/s//a.jsonl"));
    assert!(paths_equal("/s/./a", "/s/a/"));
    assert!(paths_equal("a/b/.", "a/b"));
    assert!(!paths_equal("./a", "a"));
    assert!(!paths_equal("/a", "a"));
    assert!(!paths_equal("a/../b", "b"));
    assert!(!paths_equal("/s/a", "/s/b"));
    assert!(paths_equal("", ""));
}

#[test]
fn a_session_written_with_a_doubled_slash_is_still_mapped() {
    let panes = vec![pane("p0", Some("/s//a.jsonl"))];
    let sessions = vec![entry("/s/a.jsonl", 100), entry("/s/b.jsonl", 50)];
    let r = diagnose(&panes, &sessions);
    assert_eq!(r.mapped, vec![0]);
    assert_eq!(r.orphaned, vec![1]);
}

#[test]
fn the_session_id_is_the_stem_of_the_file_name() {
    assert_eq!(pane_session_id("/s/abc.jsonl"), "abc");
    assert_eq!(pane_session_id("/s/.hidden"), ".hidden");
    assert_eq!(pane_session_id("/s/a.b.c"), "a.b");
    assert_eq!(pane_session_id("/s/a."), "a");
    assert_eq!(pane_session_id("/s/..."), "..");
    assert_eq!(pane_session_id("/s/.."), "");
    assert_eq!(pane_session_id("/s/x//"), "x");
    assert_eq!(pane_session_id("foo.txt/."), "foo");
    assert_eq!(pane_session_id("/"), "");
    assert_eq!(pane_session_id("."), "");
    assert_eq!(pane_session_id(""), "");
}
