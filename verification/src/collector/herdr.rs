//! Herdr collector: where herdr's socket is, and how the panes that its
//! `pane.list` method reports become `HerdrPaneSnapshot`s. The caller talks
//! to the socket and decodes the JSON.

use vstd::prelude::*;
use vstd::string::*;
use crate::config::path_join;
use crate::config::join_path;
use crate::json::str_eq;
use crate::lines::{Strip, chars_of, strip_both, strip_range};
use crate::schema::pane_view::{AgentStatus, opt_str};
use crate::schema::raw_signals::HerdrPaneSnapshot;
use crate::time::Timestamp;

verus! {

/// Error from the herdr collector.
pub enum Error {
    /// No socket path is known.
    NoSocketPath,
    /// Talking to the socket failed; the text says how.
    Io(String),
    /// A reply was not the JSON expected; the text says how.
    Json(String),
    /// herdr answered with an error.
    ApiError(String),
    /// herdr's reply was empty.
    UnexpectedResponse,
}

impl Error {
    /// The error's message.
    pub fn message(&self) -> (r: String)
        ensures
            r@ == match self {
                Error::NoSocketPath => "socket path not set (set $HERDR_SOCKET_PATH or config)"@,
                Error::Io(e) => "herdr I/O: "@ + e@,
                Error::Json(e) => "herdr JSON: "@ + e@,
                Error::ApiError(e) => "herdr returned error: "@ + e@,
                Error::UnexpectedResponse => "unexpected herdr response shape"@,
            },
    {
        match self {
            Error::NoSocketPath => String::from_str("socket path not set (set $HERDR_SOCKET_PATH or config)"),
            Error::Io(e) => String::from_str("herdr I/O: ").concat(e.as_str()),
            Error::Json(e) => String::from_str("herdr JSON: ").concat(e.as_str()),
            Error::ApiError(e) => String::from_str("herdr returned error: ").concat(e.as_str()),
            Error::UnexpectedResponse => String::from_str("unexpected herdr response shape"),
        }
    }
}

/// The agent status as herdr reports it (`unknown` when absent).
#[derive(Clone, Copy, PartialEq, Eq, Debug, Structural)]
pub enum HerdrAgentStatus {
    Idle,
    Working,
    Blocked,
    Done,
    Unknown,
}

/// The status of the same name.
pub open spec fn status_of(s: HerdrAgentStatus) -> AgentStatus {
    match s {
        HerdrAgentStatus::Idle => AgentStatus::Idle,
        HerdrAgentStatus::Working => AgentStatus::Working,
        HerdrAgentStatus::Blocked => AgentStatus::Blocked,
        HerdrAgentStatus::Done => AgentStatus::Done,
        HerdrAgentStatus::Unknown => AgentStatus::Unknown,
    }
}

impl From<HerdrAgentStatus> for AgentStatus {
    fn from(s: HerdrAgentStatus) -> (r: AgentStatus) {
        match s {
            HerdrAgentStatus::Idle => AgentStatus::Idle,
            HerdrAgentStatus::Working => AgentStatus::Working,
            HerdrAgentStatus::Blocked => AgentStatus::Blocked,
            HerdrAgentStatus::Done => AgentStatus::Done,
            HerdrAgentStatus::Unknown => AgentStatus::Unknown,
        }
    }
}

impl vstd::std_specs::convert::FromSpecImpl<HerdrAgentStatus> for AgentStatus {
    open spec fn obeys_from_spec() -> bool {
        true
    }

    open spec fn from_spec(s: HerdrAgentStatus) -> AgentStatus {
        status_of(s)
    }
}

/// One pane of herdr's `pane.list` reply.
pub struct HerdrPaneInfo {
    pub pane_id: String,
    pub workspace_id: String,
    pub tab_id: String,
    pub agent: Option<String>,
    pub agent_status: HerdrAgentStatus,
    pub focused: bool,
    pub cwd: Option<String>,
    /// The `value` of the pane's `agent_session`.
    pub agent_session: Option<String>,
    pub custom_status: Option<String>,
}

/// One workspace or tab of herdr's `workspace.list` / `tab.list` reply:
/// its id and its label, where it has one.
pub struct HerdrLabel {
    pub id: String,
    pub label: Option<String>,
}

/// The label that `labels` give id `id`: that of the last entry with this
/// id that has a label, `None` where no entry with it has one.
pub open spec fn label_for(labels: Seq<HerdrLabel>, id: Seq<char>) -> Option<Seq<char>>
    decreases labels.len(),
{
    if labels.len() == 0 {
        None
    } else if labels.last().id@ == id && labels.last().label is Some {
        opt_str(labels.last().label)
    } else {
        label_for(labels.drop_last(), id)
    }
}

/// The label of `id` (see `label_for`).
pub fn find_label(labels: &Vec<HerdrLabel>, id: &str) -> (r: Option<String>)
    ensures opt_str(r) == label_for(labels@, id@),
{
    let ghost all = labels@;
    let mut k: usize = labels.len();
    assert(all.take(k as int) =~= all);
    while k > 0
        invariant
            all == labels@,
            k <= all.len(),
            label_for(all, id@) == label_for(all.take(k as int), id@),
        decreases k,
    {
        let i = k - 1;
        assert(all.take(k as int).last() == all[i as int]);
        assert(all.take(k as int).drop_last() =~= all.take(i as int));
        let e = &labels[i];
        match &e.label {
            Some(l) => {
                if str_eq(e.id.as_str(), id) {
                    return Some(l.clone());
                }
            },
            None => {},
        }
        k = i;
    }
    None
}

/// The snapshot of a listed pane captured at `now`: its working directory
/// defaults to `.`, its session path is the `agent_session` value, and its
/// workspace and tab labels are looked up by id in `workspaces` and `tabs`.
pub open spec fn is_snapshot(
    s: HerdrPaneSnapshot,
    p: HerdrPaneInfo,
    workspaces: Seq<HerdrLabel>,
    tabs: Seq<HerdrLabel>,
    now: Timestamp,
) -> bool {
    &&& s.workspace_id@ == p.workspace_id@
    &&& opt_str(s.workspace_label) == label_for(workspaces, p.workspace_id@)
    &&& s.tab_id@ == p.tab_id@
    &&& opt_str(s.tab_label) == label_for(tabs, p.tab_id@)
    &&& s.pane_id@ == p.pane_id@
    &&& opt_str(s.agent) == opt_str(p.agent)
    &&& s.agent_status == status_of(p.agent_status)
    &&& s.focused == p.focused
    &&& s.cwd@ == match p.cwd { Some(c) => c@, None => "."@ }
    &&& opt_str(s.agent_session_path) == opt_str(p.agent_session)
    &&& opt_str(s.custom_status) == opt_str(p.custom_status)
    &&& s.captured_at == now
}

/// The snapshots of the listed panes, in order, all captured at `now`, each
/// with the labels that `workspaces` and `tabs` give its workspace and tab.
pub fn snapshots_of(
    panes: Vec<HerdrPaneInfo>,
    workspaces: &Vec<HerdrLabel>,
    tabs: &Vec<HerdrLabel>,
    now: Timestamp,
) -> (r: Vec<HerdrPaneSnapshot>)
    ensures
        r@.len() == panes@.len(),
        forall|i: int| 0 <= i < r@.len() ==> is_snapshot(#[trigger] r@[i], panes@[i], workspaces@, tabs@, now),
{
    let ghost all = panes@;
    let mut rest = panes;
    let mut out: Vec<HerdrPaneSnapshot> = Vec::new();
    assert(all.skip(0) =~= all);
    while rest.len() > 0
        invariant
            out@.len() <= all.len(),
            rest@ == all.skip(out@.len() as int),
            forall|i: int| 0 <= i < out@.len() ==> is_snapshot(#[trigger] out@[i], all[i], workspaces@, tabs@, now),
        decreases rest@.len(),
    {
        let ghost k = out@.len() as int;
        let p = rest.remove(0);
        assert(p == all[k]);
        assert(rest@ =~= all.skip(k + 1));
        let workspace_label = find_label(workspaces, p.workspace_id.as_str());
        let tab_label = find_label(tabs, p.tab_id.as_str());
        let snap = HerdrPaneSnapshot {
            workspace_id: p.workspace_id,
            workspace_label,
            tab_id: p.tab_id,
            tab_label,
            pane_id: p.pane_id,
            agent: p.agent,
            agent_status: AgentStatus::from(p.agent_status),
            focused: p.focused,
            cwd: match p.cwd {
                Some(c) => c,
                None => String::from_str("."),
            },
            agent_session_path: p.agent_session,
            custom_status: p.custom_status,
            captured_at: now,
        };
        out.push(snap);
    }
    out
}

/// Where herdr's socket is: `$HERDR_SOCKET_PATH` when set, else the
/// configured override, else `herdr/herdr.sock` under the user's config
/// directory (`.` when there is none). It is always found.
pub fn herdr_socket_path(env_path: Option<&str>, config_override: Option<&str>, config_dir: Option<&str>) -> (r: Result<String, Error>)
    ensures
        r matches Ok(p) && p@ == match env_path {
            Some(e) => e@,
            None => match config_override {
                Some(c) => c@,
                None => path_join(path_join(match config_dir { Some(d) => d@, None => "."@ }, "herdr"@), "herdr.sock"@),
            },
        },
{
    if let Some(e) = env_path {
        return Ok(e.to_owned());
    }
    if let Some(c) = config_override {
        return Ok(c.to_owned());
    }
    let base = match config_dir {
        Some(d) => d,
        None => ".",
    };
    let dir = join_path(base, "herdr");
    Ok(join_path(dir.as_str(), "herdr.sock"))
}

/// Whether a reply line carries anything but whitespace; a blank reply is
/// `Error::UnexpectedResponse`.
pub fn reply_has_content(line: &str) -> (r: bool)
    ensures r == (strip_both(line@, Strip::Whitespace).len() > 0),
{
    let v = chars_of(line);
    let n = v.len();
    assert(v@.subrange(0, n as int) =~= line@);
    let (a, b) = strip_range(&v, 0, n, Strip::Whitespace);
    a < b
}

} // verus!
