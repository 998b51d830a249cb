//! The per-pane state that clients consume.

use vstd::prelude::*;
use crate::schema::project::{ProjectView, ProjectViewModel};
use crate::time::Timestamp;

verus! {

/// Schema version for `PaneView`.
pub const PANE_VIEW_SCHEMA_VERSION: u32 = 1;

/// The view of an optional string.
pub open spec fn opt_str(o: Option<String>) -> Option<Seq<char>> {
    match o {
        Some(s) => Some(s@),
        None => None,
    }
}

/// Clones an optional string.
pub fn clone_opt_str(o: &Option<String>) -> (r: Option<String>)
    ensures r == *o,
{
    match o {
        Some(s) => Some(s.clone()),
        None => None,
    }
}

/// Clones a vector of strings.
pub fn clone_strings(v: &Vec<String>) -> (r: Vec<String>)
    ensures r@ == v@,
{
    let mut out: Vec<String> = Vec::new();
    let mut i: usize = 0;
    while i < v.len()
        invariant
            i <= v@.len(),
            out@ == v@.take(i as int),
        decreases v.len() - i,
    {
        out.push(v[i].clone());
        assert(out@ =~= v@.take(i + 1));
        i = i + 1;
    }
    assert(out@ =~= v@);
    out
}

/// herdr's view of what the agent in a pane is doing.
#[derive(Clone, Copy, PartialEq, Eq, Debug, Structural)]
pub enum AgentStatus {
    Idle,
    Working,
    Blocked,
    Done,
    Unknown,
}

/// What kind of step the agent is in.
#[derive(Clone, Copy, PartialEq, Eq, Debug, Structural)]
pub enum ActivityKind {
    Thinking,
    ToolCall,
    ToolResult,
    UserPending,
}

/// What the agent is doing right now.
pub struct CurrentActivity {
    pub kind: ActivityKind,
    pub tool_name: Option<String>,
    pub snippet: String,
    pub started_at: Timestamp,
}

pub struct CurrentActivityModel {
    pub kind: ActivityKind,
    pub tool_name: Option<Seq<char>>,
    pub snippet: Seq<char>,
    pub started_at: Timestamp,
}

impl View for CurrentActivity {
    type V = CurrentActivityModel;

    open spec fn view(&self) -> CurrentActivityModel {
        CurrentActivityModel {
            kind: self.kind,
            tool_name: opt_str(self.tool_name),
            snippet: self.snippet@,
            started_at: self.started_at,
        }
    }
}

impl Clone for CurrentActivity {
    fn clone(&self) -> (r: Self)
        ensures r == *self,
    {
        CurrentActivity {
            kind: self.kind,
            tool_name: clone_opt_str(&self.tool_name),
            snippet: self.snippet.clone(),
            started_at: self.started_at,
        }
    }
}

/// How a user turn ended.
pub enum TurnEnd {
    Answered { final_text_excerpt: String },
    Active { current_activity: CurrentActivity, tools_so_far: u32 },
    Errored { last_error_excerpt: String },
}

pub enum TurnEndModel {
    Answered { final_text_excerpt: Seq<char> },
    Active { current_activity: CurrentActivityModel, tools_so_far: u32 },
    Errored { last_error_excerpt: Seq<char> },
}

impl View for TurnEnd {
    type V = TurnEndModel;

    open spec fn view(&self) -> TurnEndModel {
        match self {
            TurnEnd::Answered { final_text_excerpt } => TurnEndModel::Answered {
                final_text_excerpt: final_text_excerpt@,
            },
            TurnEnd::Active { current_activity, tools_so_far } => TurnEndModel::Active {
                current_activity: current_activity@,
                tools_so_far: *tools_so_far,
            },
            TurnEnd::Errored { last_error_excerpt } => TurnEndModel::Errored {
                last_error_excerpt: last_error_excerpt@,
            },
        }
    }
}

impl Clone for TurnEnd {
    fn clone(&self) -> (r: Self)
        ensures r == *self,
    {
        match self {
            TurnEnd::Answered { final_text_excerpt } => TurnEnd::Answered {
                final_text_excerpt: final_text_excerpt.clone(),
            },
            TurnEnd::Active { current_activity, tools_so_far } => TurnEnd::Active {
                current_activity: current_activity.clone(),
                tools_so_far: *tools_so_far,
            },
            TurnEnd::Errored { last_error_excerpt } => TurnEnd::Errored {
                last_error_excerpt: last_error_excerpt.clone(),
            },
        }
    }
}

/// One user turn and what came of it.
pub struct TurnSummary {
    pub user: String,
    pub turns_ago: u32,
    pub ended: TurnEnd,
}

pub struct TurnSummaryModel {
    pub user: Seq<char>,
    pub turns_ago: u32,
    pub ended: TurnEndModel,
}

impl View for TurnSummary {
    type V = TurnSummaryModel;

    open spec fn view(&self) -> TurnSummaryModel {
        TurnSummaryModel { user: self.user@, turns_ago: self.turns_ago, ended: self.ended@ }
    }
}

impl Clone for TurnSummary {
    fn clone(&self) -> (r: Self)
        ensures r == *self,
    {
        TurnSummary { user: self.user.clone(), turns_ago: self.turns_ago, ended: self.ended.clone() }
    }
}

/// Session-wide cumulative numbers. Costs are in millionths of a US dollar.
pub struct Vitals {
    pub total_turns: u32,
    pub total_tool_calls: u32,
    pub total_cost_micros: u64,
    pub model: String,
    pub thinking_level: Option<String>,
    pub session_age_secs: u64,
}

pub struct VitalsModel {
    pub total_turns: u32,
    pub total_tool_calls: u32,
    pub total_cost_micros: u64,
    pub model: Seq<char>,
    pub thinking_level: Option<Seq<char>>,
    pub session_age_secs: u64,
}

impl View for Vitals {
    type V = VitalsModel;

    open spec fn view(&self) -> VitalsModel {
        VitalsModel {
            total_turns: self.total_turns,
            total_tool_calls: self.total_tool_calls,
            total_cost_micros: self.total_cost_micros,
            model: self.model@,
            thinking_level: opt_str(self.thinking_level),
            session_age_secs: self.session_age_secs,
        }
    }
}

impl Clone for Vitals {
    fn clone(&self) -> (r: Self)
        ensures r == *self,
    {
        Vitals {
            total_turns: self.total_turns,
            total_tool_calls: self.total_tool_calls,
            total_cost_micros: self.total_cost_micros,
            model: self.model.clone(),
            thinking_level: clone_opt_str(&self.thinking_level),
            session_age_secs: self.session_age_secs,
        }
    }
}

/// Deltas since the last user message. Cost is in millionths of a US dollar.
#[derive(Clone, Copy, PartialEq, Eq, Debug, Structural)]
pub struct VitalsDelta {
    pub tool_calls: u32,
    pub cost_micros: u64,
    pub errors: u32,
}

/// Discrete urgency level, declared least urgent first so that the derived
/// order is Nothing < Low < Medium < High < Critical. `Nothing` means there
/// is nothing to report.
#[derive(Clone, Copy, PartialEq, Eq, Debug, PartialOrd, Ord, Structural)]
pub enum Attention {
    Nothing,
    Low,
    Medium,
    High,
    Critical,
}

/// The position of an attention level in the urgency order (0 = Nothing).
pub open spec fn attention_rank(a: Attention) -> nat {
    match a {
        Attention::Nothing => 0,
        Attention::Low => 1,
        Attention::Medium => 2,
        Attention::High => 3,
        Attention::Critical => 4,
    }
}

/// `attention_rank` in executable code.
pub fn rank_of(a: Attention) -> (r: u8)
    ensures r == attention_rank(a),
{
    match a {
        Attention::Nothing => 0,
        Attention::Low => 1,
        Attention::Medium => 2,
        Attention::High => 3,
        Attention::Critical => 4,
    }
}

/// Flags computed by the reducer.
#[derive(Clone, Copy, PartialEq, Eq, Debug, Structural)]
pub struct Flags {
    pub attention: Attention,
    pub is_runaway: bool,
    pub is_blocked: bool,
    pub awaiting_user_reply: bool,
    pub idle_long_secs: Option<u64>,
}

/// Aggregates across all panes. Cost is in millionths of a US dollar.
#[derive(Clone, Copy, PartialEq, Eq, Debug, Structural)]
pub struct Totals {
    pub pane_count: usize,
    pub working_count: usize,
    pub idle_count: usize,
    pub blocked_count: usize,
    pub total_cost_micros: u128,
    pub total_tool_calls: u32,
}

/// The canonical per-pane state.
pub struct PaneView {
    pub schema_version: u32,
    pub pane_id: String,
    pub workspace_id: String,
    pub workspace_name: Option<String>,
    pub tab_id: String,
    pub tab_name: Option<String>,
    pub updated_at: Timestamp,
    pub agent: Option<String>,
    pub agent_status: AgentStatus,
    pub focused: bool,
    pub session_id: Option<u128>,
    pub session_path: Option<String>,
    pub project: Option<ProjectView>,
    pub last_user_message: Option<String>,
    pub arc: Vec<TurnSummary>,
    pub current: CurrentActivity,
    pub vitals: Vitals,
    pub vitals_since_last_user: VitalsDelta,
    pub flags: Flags,
}

pub struct PaneViewModel {
    pub schema_version: u32,
    pub pane_id: Seq<char>,
    pub workspace_id: Seq<char>,
    pub workspace_name: Option<Seq<char>>,
    pub tab_id: Seq<char>,
    pub tab_name: Option<Seq<char>>,
    pub updated_at: Timestamp,
    pub agent: Option<Seq<char>>,
    pub agent_status: AgentStatus,
    pub focused: bool,
    pub session_id: Option<u128>,
    pub session_path: Option<Seq<char>>,
    pub project: Option<ProjectViewModel>,
    pub last_user_message: Option<Seq<char>>,
    pub arc: Seq<TurnSummaryModel>,
    pub current: CurrentActivityModel,
    pub vitals: VitalsModel,
    pub vitals_since_last_user: VitalsDelta,
    pub flags: Flags,
}

/// The view of an optional project.
pub open spec fn opt_project(p: Option<ProjectView>) -> Option<ProjectViewModel> {
    match p {
        Some(v) => Some(v@),
        None => None,
    }
}

impl View for PaneView {
    type V = PaneViewModel;

    open spec fn view(&self) -> PaneViewModel {
        PaneViewModel {
            schema_version: self.schema_version,
            pane_id: self.pane_id@,
            workspace_id: self.workspace_id@,
            workspace_name: opt_str(self.workspace_name),
            tab_id: self.tab_id@,
            tab_name: opt_str(self.tab_name),
            updated_at: self.updated_at,
            agent: opt_str(self.agent),
            agent_status: self.agent_status,
            focused: self.focused,
            session_id: self.session_id,
            session_path: opt_str(self.session_path),
            project: opt_project(self.project),
            last_user_message: opt_str(self.last_user_message),
            arc: self.arc@.map_values(|t: TurnSummary| t@),
            current: self.current@,
            vitals: self.vitals@,
            vitals_since_last_user: self.vitals_since_last_user,
            flags: self.flags,
        }
    }
}

/// Clones a conversation arc.
pub fn clone_arc(v: &Vec<TurnSummary>) -> (r: Vec<TurnSummary>)
    ensures r@ == v@,
{
    let mut out: Vec<TurnSummary> = Vec::new();
    let mut i: usize = 0;
    while i < v.len()
        invariant
            i <= v@.len(),
            out@ == v@.take(i as int),
        decreases v.len() - i,
    {
        out.push(v[i].clone());
        assert(out@ =~= v@.take(i + 1));
        i = i + 1;
    }
    assert(out@ =~= v@);
    out
}

impl Clone for PaneView {
    fn clone(&self) -> (r: Self)
        ensures r@ == self@,
    {
        let project = match &self.project {
            Some(p) => Some(p.clone()),
            None => None,
        };
        PaneView {
            schema_version: self.schema_version,
            pane_id: self.pane_id.clone(),
            workspace_id: self.workspace_id.clone(),
            workspace_name: clone_opt_str(&self.workspace_name),
            tab_id: self.tab_id.clone(),
            tab_name: clone_opt_str(&self.tab_name),
            updated_at: self.updated_at,
            agent: clone_opt_str(&self.agent),
            agent_status: self.agent_status,
            focused: self.focused,
            session_id: self.session_id,
            session_path: clone_opt_str(&self.session_path),
            project,
            last_user_message: clone_opt_str(&self.last_user_message),
            arc: clone_arc(&self.arc),
            current: self.current.clone(),
            vitals: self.vitals.clone(),
            vitals_since_last_user: self.vitals_since_last_user,
            flags: self.flags,
        }
    }
}

} // verus!
