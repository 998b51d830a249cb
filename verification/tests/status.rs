use mission_control::schema::pane_view::{
    ActivityKind, AgentStatus, Attention, CurrentActivity, Flags, PaneView, Vitals, VitalsDelta,
};
use mission_control::status::{id_before, sort_for_status, status_order};
use mission_control::time::Timestamp;

fn pane(id: &str, attention: Attention, tag: &str) -> PaneView {
    let ts = Timestamp { secs: 0, nanos: 0 };
    PaneView {
        schema_version: 1,
        pane_id: id.to_string(),
        workspace_id: tag.to_string(),
        workspace_name: None,
        tab_id: "t".to_string(),
        tab_name: None,
        updated_at: ts,
        agent: None,
        agent_status: AgentStatus::Idle,
        focused: false,
        session_id: None,
        session_path: None,
        project: None,
        last_user_message: None,
        arc: Vec::new(),
        current: CurrentActivity { kind: ActivityKind::UserPending, tool_name: None, snippet: String::new(), started_at: ts },
        vitals: Vitals { total_turns: 0, total_tool_calls: 0, total_cost_micros: 0, model: String::new(), thinking_level: None, session_age_secs: 0 },
        vitals_since_last_user: VitalsDelta { tool_calls: 0, cost_micros: 0, errors: 0 },
        flags: Flags { attention, is_runaway: false, is_blocked: false, awaiting_user_reply: false, idle_long_secs: None },
    }
}

#[test]
fn ids_order_like_strings() {
    assert!(id_before("a", "b"));
    assert!(id_before("w1:p1", "w1:p2"));
    assert!(id_before("ab", "abc"));
    assert!(!id_before("abc", "ab"));
    assert!(!id_before("x", "x"));
    assert!(id_before("Z", "a"));
    assert!(id_before("z", "é"));
}

#[test]
fn status_table_order() {
    let panes = vec![
        pane("b", Attention::Low, "1"),
        pane("a", Attention::Nothing, "2"),
        pane("c", Attention::Critical, "3"),
        pane("a", Attention::Low, "4"),
        pane("b", Attention::Low, "5"),
    ];
    assert_eq!(status_order(&panes), vec![2, 3, 0, 4, 1]);
    let sorted = sort_for_status(&panes);
    let tags: Vec<String> = sorted.iter().map(|p| p.workspace_id.clone()).collect();
    assert_eq!(tags, vec!["3", "4", "1", "5", "2"]);
}
