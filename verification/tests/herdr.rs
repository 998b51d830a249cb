use mission_control::collector::herdr::{
    herdr_socket_path, reply_has_content, snapshots_of, Error, HerdrAgentStatus, HerdrLabel, HerdrPaneInfo,
};
use mission_control::schema::pane_view::AgentStatus;
use mission_control::time::Timestamp;

fn info(id: &str, status: HerdrAgentStatus, cwd: Option<&str>) -> HerdrPaneInfo {
    HerdrPaneInfo {
        pane_id: id.to_string(),
        workspace_id: "w1".to_string(),
        tab_id: "t1".to_string(),
        agent: Some("pi".to_string()),
        agent_status: status,
        focused: true,
        cwd: cwd.map(|c| c.to_string()),
        agent_session: Some("/s/x.jsonl".to_string()),
        custom_status: None,
    }
}

#[test]
fn statuses_map_one_to_one() {
    assert_eq!(AgentStatus::from(HerdrAgentStatus::Idle), AgentStatus::Idle);
    assert_eq!(AgentStatus::from(HerdrAgentStatus::Working), AgentStatus::Working);
    assert_eq!(AgentStatus::from(HerdrAgentStatus::Blocked), AgentStatus::Blocked);
    assert_eq!(AgentStatus::from(HerdrAgentStatus::Done), AgentStatus::Done);
    assert_eq!(AgentStatus::from(HerdrAgentStatus::Unknown), AgentStatus::Unknown);
}

#[test]
fn snapshots_keep_order_and_default_the_cwd() {
    let now = Timestamp { secs: 10, nanos: 20 };
    let snaps = snapshots_of(
        vec![info("w1:p1", HerdrAgentStatus::Working, Some("/home/u")), info("w1:p2", HerdrAgentStatus::Blocked, None)],
        &Vec::new(),
        &Vec::new(),
        now,
    );
    assert_eq!(snaps.len(), 2);
    assert_eq!(snaps[0].pane_id, "w1:p1");
    assert_eq!(snaps[0].cwd, "/home/u");
    assert_eq!(snaps[0].agent_status, AgentStatus::Working);
    assert_eq!(snaps[1].cwd, ".");
    assert_eq!(snaps[1].agent_status, AgentStatus::Blocked);
    assert_eq!(snaps[1].agent_session_path, Some("/s/x.jsonl".to_string()));
    assert!(snaps[1].focused);
    assert_eq!(snaps[1].captured_at, now);
}

#[test]
fn socket_path_resolution_order() {
    assert_eq!(herdr_socket_path(Some("/env.sock"), Some("/cfg.sock"), Some("/home/u/.config")).ok(), Some("/env.sock".to_string()));
    assert_eq!(herdr_socket_path(None, Some("/cfg.sock"), Some("/home/u/.config")).ok(), Some("/cfg.sock".to_string()));
    assert_eq!(herdr_socket_path(None, None, Some("/home/u/.config")).ok(), Some("/home/u/.config/herdr/herdr.sock".to_string()));
    assert_eq!(herdr_socket_path(None, None, None).ok(), Some("./herdr/herdr.sock".to_string()));
}

#[test]
fn blank_replies_are_unexpected() {
    assert!(!reply_has_content(""));
    assert!(!reply_has_content("  \t\r\n"));
    assert!(reply_has_content(" {\"id\":1}\n"));
}

#[test]
fn error_messages() {
    assert_eq!(Error::NoSocketPath.message(), "socket path not set (set $HERDR_SOCKET_PATH or config)");
    assert_eq!(Error::Io("broken pipe".to_string()).message(), "herdr I/O: broken pipe");
    assert_eq!(Error::Json("eof".to_string()).message(), "herdr JSON: eof");
    assert_eq!(Error::ApiError("denied".to_string()).message(), "herdr returned error: denied");
    assert_eq!(Error::UnexpectedResponse.message(), "unexpected herdr response shape");
}

fn label(id: &str, l: Option<&str>) -> HerdrLabel {
    HerdrLabel { id: id.to_string(), label: l.map(|x| x.to_string()) }
}

#[test]
fn snapshots_carry_workspace_and_tab_labels_by_id() {
    let now = Timestamp { secs: 10, nanos: 20 };
    let workspaces = vec![label("w0", Some("other")), label("w1", Some("backend")), label("w1", None)];
    let tabs = vec![label("t1", Some("old")), label("t1", Some("api"))];
    let snaps = snapshots_of(vec![info("w1:p1", HerdrAgentStatus::Idle, None)], &workspaces, &tabs, now);
    assert_eq!(snaps[0].workspace_label, Some("backend".to_string()));
    assert_eq!(snaps[0].tab_label, Some("api".to_string()));
}

#[test]
fn snapshots_without_a_label_get_none() {
    let now = Timestamp { secs: 10, nanos: 20 };
    let workspaces = vec![label("w1", None), label("w2", Some("x"))];
    let snaps = snapshots_of(vec![info("w1:p1", HerdrAgentStatus::Idle, None)], &workspaces, &Vec::new(), now);
    assert_eq!(snaps[0].workspace_label, None);
    assert_eq!(snaps[0].tab_label, None);
}
