use mission_control::render::{dash_header_line, status_header_line, try_dash_row, try_status_rows};
use mission_control::schema::pane_view::{
    ActivityKind, AgentStatus, Attention, CurrentActivity, Flags, PaneView, Totals, Vitals, VitalsDelta,
};
use mission_control::time::Timestamp;

fn pane() -> PaneView {
    let ts = Timestamp { secs: 0, nanos: 0 };
    PaneView {
        schema_version: 1,
        pane_id: "w1:p1".to_string(),
        workspace_id: "w1".to_string(),
        workspace_name: None,
        tab_id: "t1".to_string(),
        tab_name: None,
        updated_at: ts,
        agent: Some("pi".to_string()),
        agent_status: AgentStatus::Working,
        focused: true,
        session_id: None,
        session_path: None,
        project: None,
        last_user_message: Some("fix the bug".to_string()),
        arc: Vec::new(),
        current: CurrentActivity { kind: ActivityKind::ToolCall, tool_name: Some("bash".to_string()), snippet: "bash ls".to_string(), started_at: ts },
        vitals: Vitals { total_turns: 1, total_tool_calls: 3, total_cost_micros: 0, model: "m1".to_string(), thinking_level: None, session_age_secs: 0 },
        vitals_since_last_user: VitalsDelta { tool_calls: 3, cost_micros: 0, errors: 0 },
        flags: Flags { attention: Attention::High, is_runaway: true, is_blocked: false, awaiting_user_reply: false, idle_long_secs: Some(1800) },
    }
}

fn totals() -> Totals {
    Totals { pane_count: 4, working_count: 2, idle_count: 1, blocked_count: 1, total_cost_micros: 0, total_tool_calls: 0 }
}

#[test]
fn status_rows_match_the_table_format() {
    let p = pane();
    let rows = try_status_rows(&p, "0.1234").unwrap();
    let head = format!(
        "{}{}  {:<20} {:<12}  {:<16}  {:<20}  ${}  {}",
        "👁 ", "🟠 HIGH", "w1:p1", "⚙️  working", "-", "m1", "0.1234", "+3 tools"
    );
    assert_eq!(rows[0], head);
    assert_eq!(rows[1], format!("      {:<60}", "💬 fix the bug  │  🏃 bash ls"));
    assert_eq!(rows[2], "      🚩 RUNAWAY | IDLE-30m");
    assert_eq!(rows.len(), 3);
}

#[test]
fn status_rows_cut_long_text_and_refuse_bad_cuts() {
    let mut p = pane();
    p.flags = Flags { attention: Attention::Nothing, is_runaway: false, is_blocked: false, awaiting_user_reply: false, idle_long_secs: None };
    p.last_user_message = Some("x".repeat(61));
    p.current.snippet = String::new();
    let rows = try_status_rows(&p, "0.0000").unwrap();
    assert_eq!(rows.len(), 2);
    assert_eq!(rows[1], format!("      {:<60}", format!("💬 {}...  │  🏃 -", "x".repeat(57))));
    p.last_user_message = Some(format!("{}é{}", "x".repeat(56), "y".repeat(10)));
    assert!(try_status_rows(&p, "0.0000").is_none());
}

#[test]
fn dashboard_row_matches_the_list_format() {
    let p = pane();
    let row = try_dash_row(&p, "0.1234").unwrap();
    let expected = format!(
        "{}{} {:<18} {:<7} {:<14} {:<18} ${:<8} {:>5}  {}",
        "👁", "🟠 HIGH", "w1:p1", " WORK", "-", "m1", "0.1234", "+3t", "fix the bug"
    );
    assert_eq!(row, expected);
    let mut q = pane();
    q.last_user_message = Some("z".repeat(90));
    let long = try_dash_row(&q, "1.0000").unwrap();
    assert!(long.ends_with(&"z".repeat(77)));
    assert!(!long.ends_with(&"z".repeat(78)));
}

#[test]
fn header_lines() {
    assert_eq!(
        status_header_line(&totals(), "1.50"),
        "│ 4 panes  │  2 working  │  1 idle  │  1 blocked  │  $1.50 total cost  │"
    );
    assert_eq!(
        dash_header_line(&totals(), "1.5000"),
        "Mission Control — 4 panes | 2 working | 1 idle | 1 blocked | $1.5000 total"
    );
}
