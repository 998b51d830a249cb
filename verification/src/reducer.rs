//! Reducer: joins herdr snapshots with pi signals (by session path) and
//! project profiles (by cwd), computes the flags, and emits one `PaneView`
//! per pane plus cross-pane `Totals`.

use vstd::prelude::*;
use vstd::string::*;
use crate::collector::pi::{RawRecord, deepest_leaf, error_since, first_text, signals_match};
use crate::config::Config;
use crate::path_map::PathMap;
use crate::schema::pane_view::{
    ActivityKind, AgentStatus, Attention, CurrentActivity, CurrentActivityModel, Flags, PaneView,
    PaneViewModel, Totals, TurnEnd, TurnEndModel, TurnSummary, TurnSummaryModel, Vitals, VitalsDelta,
    VitalsModel, PANE_VIEW_SCHEMA_VERSION, attention_rank, clone_opt_str, opt_str, opt_project,
};
use crate::schema::project::{ProjectProfile, profile_view};
use crate::schema::raw_signals::{
    ContentBlock, HerdrPaneSnapshot, LeafKind, LeafSummary, MessageNode, MessageRole, PiSignals, ThinkingLevel,
    blocks_view,
};
use crate::text::{ellipsize, fit_prefix, opt_view, try_ellipsize, utf8_len};
use crate::time::{Timestamp, elapsed_secs_u64, secs_between, utc_now};

verus! {

// ── Flags ────────────────────────────────────────────────────────────

/// The urgency of a pane: blocked on an error beats runaway, which beats
/// awaiting a reply, which beats working; otherwise nothing to report.
pub open spec fn attention_of(blocked: bool, runaway: bool, awaiting: bool, status: AgentStatus) -> Attention {
    if blocked {
        Attention::Critical
    } else if runaway {
        Attention::High
    } else if awaiting {
        Attention::Medium
    } else if status == AgentStatus::Working {
        Attention::Low
    } else {
        Attention::Nothing
    }
}

/// The flags of a pane. Blocked: a tool error since the last user message
/// and the agent is not at assistant text. Runaway: tool calls since the last
/// user message reach the threshold. Awaiting reply: herdr says idle, the
/// agent is at assistant text, and the pane is not focused. Idle long: the
/// whole seconds since the last activity, when above the threshold.
pub open spec fn flags_of(h: HerdrPaneSnapshot, pi: Option<PiSignals>, config: Config, now: Timestamp) -> Flags {
    let blocked = match pi {
        Some(p) => p.error_since_last_user is Some && p.deepest_leaf_since_last_user.kind != LeafKind::AssistantText,
        None => false,
    };
    let runaway = match pi {
        Some(p) => p.tool_calls_since_last_user >= config.runaway_threshold,
        None => false,
    };
    let awaiting = h.agent_status == AgentStatus::Idle && (match pi {
        Some(p) => p.deepest_leaf_since_last_user.kind == LeafKind::AssistantText,
        None => false,
    }) && !h.focused;
    let idle = match pi {
        Some(p) => if elapsed_secs_u64(now, p.last_activity_at) > config.idle_threshold_secs {
            Some(elapsed_secs_u64(now, p.last_activity_at))
        } else {
            None
        },
        None => None,
    };
    Flags {
        attention: attention_of(blocked, runaway, awaiting, h.agent_status),
        is_runaway: runaway,
        is_blocked: blocked,
        awaiting_user_reply: awaiting,
        idle_long_secs: idle,
    }
}

/// The optional signals behind an optional reference.
pub open spec fn opt_pi(pi: Option<&PiSignals>) -> Option<PiSignals> {
    match pi {
        Some(p) => Some(*p),
        None => None,
    }
}

/// Computes the flags from herdr status and pi signals.
pub fn compute_flags(h: &HerdrPaneSnapshot, pi: Option<&PiSignals>, config: &Config, now: Timestamp) -> (r: Flags)
    ensures r == flags_of(*h, opt_pi(pi), *config, now),
{
    let is_blocked = match pi {
        Some(p) => p.error_since_last_user.is_some()
            && p.deepest_leaf_since_last_user.kind != LeafKind::AssistantText,
        None => false,
    };
    let is_runaway = match pi {
        Some(p) => p.tool_calls_since_last_user >= config.runaway_threshold,
        None => false,
    };
    let awaiting_user_reply = h.agent_status == AgentStatus::Idle && (match pi {
        Some(p) => p.deepest_leaf_since_last_user.kind == LeafKind::AssistantText,
        None => false,
    }) && !h.focused;
    let idle_long_secs = match pi {
        Some(p) => {
            let age = secs_between(now, p.last_activity_at);
            if age > config.idle_threshold_secs { Some(age) } else { None }
        },
        None => None,
    };
    let attention = if is_blocked {
        Attention::Critical
    } else if is_runaway {
        Attention::High
    } else if awaiting_user_reply {
        Attention::Medium
    } else if h.agent_status == AgentStatus::Working {
        Attention::Low
    } else {
        Attention::Nothing
    };
    Flags { attention, is_runaway, is_blocked, awaiting_user_reply, idle_long_secs }
}

// ── Pane views ───────────────────────────────────────────────────────

/// The activity kind that a leaf kind shows as.
pub open spec fn activity_kind_of(k: LeafKind) -> ActivityKind {
    match k {
        LeafKind::AssistantText => ActivityKind::Thinking,
        LeafKind::ToolCall => ActivityKind::ToolCall,
        LeafKind::ToolResult => ActivityKind::ToolResult,
        LeafKind::UserPending => ActivityKind::UserPending,
    }
}

/// The current activity that a leaf summary shows as, started `now`.
pub open spec fn activity_of(leaf: LeafSummary, now: Timestamp) -> CurrentActivityModel {
    CurrentActivityModel {
        kind: activity_kind_of(leaf.kind),
        tool_name: opt_str(leaf.tool_name),
        snippet: match leaf.snippet {
            Some(s) => s@,
            None => seq![],
        },
        started_at: now,
    }
}

/// Converts a leaf summary into the current activity.
pub fn current_activity(leaf: &LeafSummary, now: Timestamp) -> (r: CurrentActivity)
    ensures r@ == activity_of(*leaf, now),
{
    let kind = match leaf.kind {
        LeafKind::AssistantText => ActivityKind::Thinking,
        LeafKind::ToolCall => ActivityKind::ToolCall,
        LeafKind::ToolResult => ActivityKind::ToolResult,
        LeafKind::UserPending => ActivityKind::UserPending,
    };
    let snippet = match &leaf.snippet {
        Some(s) => s.clone(),
        None => String::new(),
    };
    CurrentActivity { kind, tool_name: clone_opt_str(&leaf.tool_name), snippet, started_at: now }
}

/// Lower-case name of a thinking level (its `Debug` name, lower-cased).
pub open spec fn level_text(t: ThinkingLevel) -> Seq<char> {
    match t {
        ThinkingLevel::Xhigh => "xhigh"@,
        ThinkingLevel::High => "high"@,
        ThinkingLevel::Medium => "medium"@,
        ThinkingLevel::Low => "low"@,
    }
}

/// The vitals of a pane with or without signals.
pub open spec fn vitals_of(pi: Option<PiSignals>, now: Timestamp) -> VitalsModel {
    match pi {
        Some(p) => VitalsModel {
            total_turns: p.total_turns,
            total_tool_calls: p.total_tool_calls,
            total_cost_micros: p.total_cost_micros,
            model: if p.model@.len() > 0 { p.model@.last().model_id@ } else { seq![] },
            thinking_level: match p.thinking_level {
                Some(t) => Some(level_text(t)),
                None => None,
            },
            session_age_secs: elapsed_secs_u64(now, p.started_at),
        },
        None => VitalsModel {
            total_turns: 0,
            total_tool_calls: 0,
            total_cost_micros: 0,
            model: seq![],
            thinking_level: None,
            session_age_secs: 0,
        },
    }
}

/// The deltas since the last user message.
pub open spec fn delta_of(pi: Option<PiSignals>) -> VitalsDelta {
    match pi {
        Some(p) => VitalsDelta {
            tool_calls: p.tool_calls_since_last_user,
            cost_micros: p.cost_since_last_user_micros,
            errors: if p.error_since_last_user is Some { 1 } else { 0 },
        },
        None => VitalsDelta { tool_calls: 0, cost_micros: 0, errors: 0 },
    }
}

/// The user messages, in order.
pub open spec fn user_nodes(nodes: Seq<MessageNode>) -> Seq<MessageNode>
    decreases nodes.len(),
{
    if nodes.len() == 0 {
        seq![]
    } else if nodes.last().role == MessageRole::User {
        user_nodes(nodes.drop_last()).push(nodes.last())
    } else {
        user_nodes(nodes.drop_last())
    }
}

/// The activity every arc turn carries: thinking, started `now`.
pub open spec fn arc_activity(now: Timestamp) -> CurrentActivityModel {
    CurrentActivityModel { kind: ActivityKind::Thinking, tool_name: None, snippet: seq![], started_at: now }
}

/// The arc entry of a user message `turns_ago` turns back: its first text,
/// cut to 97 bytes plus "..." when over 100 bytes; `None` where that cut
/// falls inside a char.
pub open spec fn arc_entry(node: MessageNode, turns_ago: int, now: Timestamp) -> Option<TurnSummaryModel> {
    let t = match first_text(blocks_view(node.content@)) {
        Some(t) => t,
        None => seq![],
    };
    match ellipsize(t, 100, 97) {
        Some(u) => Some(TurnSummaryModel {
            user: u,
            turns_ago: turns_ago as u32,
            ended: TurnEndModel::Active { current_activity: arc_activity(now), tools_so_far: 0 },
        }),
        None => None,
    }
}

/// The conversation arc: the last `max_turns` user messages, newest first;
/// `None` where a cut panics.
pub open spec fn arc_of(nodes: Seq<MessageNode>, max_turns: int, now: Timestamp) -> Option<Seq<TurnSummaryModel>> {
    let users = user_nodes(nodes);
    let count = if users.len() < max_turns { users.len() as int } else { max_turns };
    if forall|i: int| 0 <= i < count ==> (#[trigger] arc_entry(users[users.len() - 1 - i], i, now)) is Some {
        Some(Seq::new(count as nat, |i: int| arc_entry(users[users.len() - 1 - i], i, now).unwrap()))
    } else {
        None
    }
}

/// The pane view of one herdr pane joined with its signals and project;
/// `None` where the arc cut panics.
pub open spec fn pane_of(
    h: HerdrPaneSnapshot,
    pi: Option<PiSignals>,
    project: Option<ProjectProfile>,
    config: Config,
    now: Timestamp,
) -> Option<PaneViewModel> {
    let arc = match pi {
        Some(p) => arc_of(p.conversation_tree@, config.arc_turns as int, now),
        None => Some(seq![]),
    };
    match arc {
        None => None,
        Some(a) => Some(PaneViewModel {
            schema_version: PANE_VIEW_SCHEMA_VERSION,
            pane_id: h.pane_id@,
            workspace_id: h.workspace_id@,
            workspace_name: opt_str(h.workspace_label),
            tab_id: h.tab_id@,
            tab_name: opt_str(h.tab_label),
            updated_at: now,
            agent: opt_str(h.agent),
            agent_status: h.agent_status,
            focused: h.focused,
            session_id: match pi {
                Some(p) => Some(p.session_id),
                None => None,
            },
            session_path: match pi {
                Some(p) => Some(p.session_path@),
                None => None,
            },
            project: match project {
                Some(pr) => Some(profile_view(pr)),
                None => None,
            },
            last_user_message: match pi {
                Some(p) => opt_str(p.last_user_message),
                None => None,
            },
            arc: a,
            current: match pi {
                Some(p) => activity_of(p.deepest_leaf_since_last_user, now),
                None => CurrentActivityModel {
                    kind: ActivityKind::UserPending,
                    tool_name: None,
                    snippet: seq![],
                    started_at: now,
                },
            },
            vitals: vitals_of(pi, now),
            vitals_since_last_user: delta_of(pi),
            flags: flags_of(h, pi, config, now),
        }),
    }
}

/// The signals that a pane joins with: those of its session path.
pub open spec fn pi_for(h: HerdrPaneSnapshot, pi_signals: PathMap<PiSignals>) -> Option<PiSignals> {
    match h.agent_session_path {
        Some(sp) => pi_signals.lookup(sp@),
        None => None,
    }
}

fn user_indices(nodes: &Vec<MessageNode>) -> (r: Vec<usize>)
    ensures
        r@.map_values(|i: usize| nodes@[i as int]) == user_nodes(nodes@),
        forall|k: int| 0 <= k < r@.len() ==> #[trigger] r@[k] < nodes@.len(),
{
    let mut out: Vec<usize> = Vec::new();
    let mut i: usize = 0;
    while i < nodes.len()
        invariant
            i <= nodes@.len(),
            out@.map_values(|j: usize| nodes@[j as int]) == user_nodes(nodes@.take(i as int)),
            forall|k: int| 0 <= k < out@.len() ==> #[trigger] out@[k] < i,
        decreases nodes.len() - i,
    {
        assert(nodes@.take(i + 1).drop_last() =~= nodes@.take(i as int));
        assert(nodes@.take(i + 1).last() == nodes@[i as int]);
        if nodes[i].role == MessageRole::User {
            out.push(i);
            assert(out@.map_values(|j: usize| nodes@[j as int]) =~= user_nodes(nodes@.take(i as int)).push(nodes@[i as int]));
        }
        i = i + 1;
    }
    assert(nodes@.take(nodes@.len() as int) =~= nodes@);
    out
}

fn first_text_of(content: &Vec<ContentBlock>) -> (r: Option<String>)
    ensures opt_view(r) == first_text(blocks_view(content@)),
{
    let ghost bv = blocks_view(content@);
    let mut i: usize = 0;
    assert(bv.skip(0) =~= bv);
    while i < content.len()
        invariant
            bv == blocks_view(content@),
            i <= content@.len(),
            first_text(bv) == first_text(bv.skip(i as int)),
        decreases content.len() - i,
    {
        assert(bv.skip(i as int).drop_first() =~= bv.skip(i + 1));
        assert(bv.skip(i as int)[0] == content@[i as int]@);
        match &content[i] {
            ContentBlock::Text { text } => {
                return Some(text.clone());
            },
            _ => {},
        }
        i = i + 1;
    }
    None
}

/// Builds the conversation arc; `None` where a cut panics.
pub fn build_arc(pi: &PiSignals, max_turns: usize, now: Timestamp) -> (r: Option<Vec<TurnSummary>>)
    ensures
        match r {
            Some(a) => arc_of(pi.conversation_tree@, max_turns as int, now) == Some(a@.map_values(|t: TurnSummary| t@)),
            None => arc_of(pi.conversation_tree@, max_turns as int, now) is None,
        },
{
    let nodes = &pi.conversation_tree;
    let users = user_indices(nodes);
    let ghost us = user_nodes(nodes@);
    assert(us.len() == users@.len());
    let count = if users.len() < max_turns { users.len() } else { max_turns };
    assert(count == (if us.len() < max_turns { us.len() as int } else { max_turns as int }));
    let mut turns: Vec<TurnSummary> = Vec::new();
    let mut i: usize = 0;
    while i < count
        invariant
            us == user_nodes(nodes@),
            *nodes == pi.conversation_tree,
            users@.map_values(|j: usize| nodes@[j as int]) == us,
            forall|k: int| 0 <= k < users@.len() ==> #[trigger] users@[k] < nodes@.len(),
            count <= users@.len(),
            count == (if us.len() < max_turns { us.len() as int } else { max_turns as int }),
            i <= count,
            turns@.len() == i,
            forall|k: int| 0 <= k < i ==> Some((#[trigger] turns@[k])@) == arc_entry(us[us.len() - 1 - k], k, now),
        decreases count - i,
    {
        let idx = users[users.len() - 1 - i];
        assert(us[us.len() - 1 - i] == nodes@[idx as int]);
        let text = match first_text_of(&nodes[idx].content) {
            Some(t) => t,
            None => String::new(),
        };
        let user = match try_ellipsize(text.as_str(), 100, 97) {
            Some(u) => u,
            None => {
                assert(arc_entry(us[us.len() - 1 - i], i as int, now) is None);
                assert(!(forall|k: int| 0 <= k < count ==> (#[trigger] arc_entry(us[us.len() - 1 - k], k, now)) is Some));
                assert(arc_of(nodes@, max_turns as int, now) is None);
                return None;
            },
        };
        let turns_ago = #[verifier::truncate] (i as u32);
        let ended = TurnEnd::Active {
            current_activity: CurrentActivity {
                kind: ActivityKind::Thinking,
                tool_name: None,
                snippet: String::new(),
                started_at: now,
            },
            tools_so_far: 0,
        };
        turns.push(TurnSummary { user, turns_ago, ended });
        i = i + 1;
    }
    assert forall|k: int| 0 <= k < count implies (#[trigger] arc_entry(us[us.len() - 1 - k], k, now)) is Some by {
        assert(Some(turns@[k]@) == arc_entry(us[us.len() - 1 - k], k, now));
    }
    assert(turns@.map_values(|t: TurnSummary| t@) =~= Seq::new(count as nat, |k: int| arc_entry(us[us.len() - 1 - k], k, now).unwrap()));
    Some(turns)
}

/// The pane view of `h` joined with the signals of its session path and
/// the project of its cwd.
pub open spec fn joined_pane(
    h: HerdrPaneSnapshot,
    pi_signals: PathMap<PiSignals>,
    projects: PathMap<ProjectProfile>,
    config: Config,
    now: Timestamp,
) -> Option<PaneViewModel> {
    pane_of(h, pi_for(h, pi_signals), projects.lookup(h.cwd@), config, now)
}

fn level_name(t: ThinkingLevel) -> (r: String)
    ensures r@ == level_text(t),
{
    match t {
        ThinkingLevel::Xhigh => String::from_str("xhigh"),
        ThinkingLevel::High => String::from_str("high"),
        ThinkingLevel::Medium => String::from_str("medium"),
        ThinkingLevel::Low => String::from_str("low"),
    }
}

fn build_vitals(pi: Option<&PiSignals>, now: Timestamp) -> (r: Vitals)
    ensures r@ == vitals_of(opt_pi(pi), now),
{
    match pi {
        Some(p) => {
            let model = if p.model.len() > 0 {
                p.model[p.model.len() - 1].model_id.clone()
            } else {
                String::new()
            };
            let thinking_level = match p.thinking_level {
                Some(t) => Some(level_name(t)),
                None => None,
            };
            Vitals {
                total_turns: p.total_turns,
                total_tool_calls: p.total_tool_calls,
                total_cost_micros: p.total_cost_micros,
                model,
                thinking_level,
                session_age_secs: secs_between(now, p.started_at),
            }
        },
        None => Vitals {
            total_turns: 0,
            total_tool_calls: 0,
            total_cost_micros: 0,
            model: String::new(),
            thinking_level: None,
            session_age_secs: 0,
        },
    }
}

/// Builds the pane view of one herdr pane; `None` where the arc cut panics.
pub fn build_pane_view(
    h: &HerdrPaneSnapshot,
    pi_signals: &PathMap<PiSignals>,
    projects: &PathMap<ProjectProfile>,
    config: &Config,
    now: Timestamp,
) -> (r: Option<PaneView>)
    ensures
        match r {
            Some(v) => joined_pane(*h, *pi_signals, *projects, *config, now) == Some(v@),
            None => joined_pane(*h, *pi_signals, *projects, *config, now) is None,
        },
{
    let pi: Option<&PiSignals> = match &h.agent_session_path {
        Some(sp) => pi_signals.get(sp.as_str()),
        None => None,
    };
    assert(opt_pi(pi) == pi_for(*h, *pi_signals));
    let project = match projects.get(h.cwd.as_str()) {
        Some(p) => Some(p.to_view()),
        None => None,
    };
    let arc = match pi {
        Some(p) => match build_arc(p, config.arc_turns, now) {
            Some(a) => a,
            None => { return None; },
        },
        None => {
            let a: Vec<TurnSummary> = Vec::new();
            assert(a@.map_values(|t: TurnSummary| t@) =~= Seq::<TurnSummaryModel>::empty());
            a
        },
    };
    let current = match pi {
        Some(p) => current_activity(&p.deepest_leaf_since_last_user, now),
        None => CurrentActivity {
            kind: ActivityKind::UserPending,
            tool_name: None,
            snippet: String::new(),
            started_at: now,
        },
    };
    let vitals = build_vitals(pi, now);
    let vitals_since_last_user = match pi {
        Some(p) => VitalsDelta {
            tool_calls: p.tool_calls_since_last_user,
            cost_micros: p.cost_since_last_user_micros,
            errors: if p.error_since_last_user.is_some() { 1 } else { 0 },
        },
        None => VitalsDelta { tool_calls: 0, cost_micros: 0, errors: 0 },
    };
    let flags = compute_flags(h, pi, config, now);
    let v = PaneView {
        schema_version: PANE_VIEW_SCHEMA_VERSION,
        pane_id: h.pane_id.clone(),
        workspace_id: h.workspace_id.clone(),
        workspace_name: clone_opt_str(&h.workspace_label),
        tab_id: h.tab_id.clone(),
        tab_name: clone_opt_str(&h.tab_label),
        updated_at: now,
        agent: clone_opt_str(&h.agent),
        agent_status: h.agent_status,
        focused: h.focused,
        session_id: match pi {
            Some(p) => Some(p.session_id),
            None => None,
        },
        session_path: match pi {
            Some(p) => Some(p.session_path.clone()),
            None => None,
        },
        project,
        last_user_message: match pi {
            Some(p) => clone_opt_str(&p.last_user_message),
            None => None,
        },
        arc,
        current,
        vitals,
        vitals_since_last_user,
        flags,
    };
    Some(v)
}

// ── Totals ───────────────────────────────────────────────────────────

/// Number of panes with agent status `st`.
pub open spec fn count_status(panes: Seq<PaneViewModel>, st: AgentStatus) -> nat
    decreases panes.len(),
{
    if panes.len() == 0 {
        0
    } else {
        count_status(panes.drop_last(), st) + if panes.last().agent_status == st { 1nat } else { 0nat }
    }
}

/// Number of blocked panes.
pub open spec fn count_blocked(panes: Seq<PaneViewModel>) -> nat
    decreases panes.len(),
{
    if panes.len() == 0 {
        0
    } else {
        count_blocked(panes.drop_last()) + if panes.last().flags.is_blocked { 1nat } else { 0nat }
    }
}

/// Sum of the panes' session costs.
pub open spec fn sum_cost(panes: Seq<PaneViewModel>) -> nat
    decreases panes.len(),
{
    if panes.len() == 0 {
        0
    } else {
        sum_cost(panes.drop_last()) + panes.last().vitals.total_cost_micros as nat
    }
}

/// Sum of the panes' session tool calls.
pub open spec fn sum_tools(panes: Seq<PaneViewModel>) -> nat
    decreases panes.len(),
{
    if panes.len() == 0 {
        0
    } else {
        sum_tools(panes.drop_last()) + panes.last().vitals.total_tool_calls as nat
    }
}

/// The totals over `panes`; `None` where the `u32` tool-call sum overflows
/// (where the sum panics).
pub open spec fn totals_of(panes: Seq<PaneViewModel>) -> Option<Totals> {
    if sum_tools(panes) > u32::MAX {
        None
    } else {
        Some(Totals {
            pane_count: panes.len() as usize,
            working_count: count_status(panes, AgentStatus::Working) as usize,
            idle_count: count_status(panes, AgentStatus::Idle) as usize,
            blocked_count: count_blocked(panes) as usize,
            total_cost_micros: sum_cost(panes) as u128,
            total_tool_calls: sum_tools(panes) as u32,
        })
    }
}

/// The views of a list of pane views.
pub open spec fn panes_view(v: Seq<PaneView>) -> Seq<PaneViewModel> {
    v.map_values(|p: PaneView| p@)
}

proof fn lemma_sum_tools_mono(panes: Seq<PaneViewModel>, i: int)
    requires 0 <= i <= panes.len(),
    ensures sum_tools(panes.take(i)) <= sum_tools(panes),
    decreases panes.len() - i,
{
    if i < panes.len() {
        lemma_sum_tools_mono(panes, i + 1);
        assert(panes.take(i + 1).drop_last() =~= panes.take(i));
    } else {
        assert(panes.take(i) =~= panes);
    }
}

/// Computes the cross-pane totals; `None` where the tool-call sum overflows.
pub fn compute_totals(panes: &Vec<PaneView>) -> (r: Option<Totals>)
    ensures r == totals_of(panes_view(panes@)),
{
    let ghost pv = panes_view(panes@);
    let mut working: usize = 0;
    let mut idle: usize = 0;
    let mut blocked: usize = 0;
    let mut cost: u128 = 0;
    let mut tools: u32 = 0;
    let mut i: usize = 0;
    while i < panes.len()
        invariant
            pv == panes_view(panes@),
            i <= panes@.len(),
            working == count_status(pv.take(i as int), AgentStatus::Working),
            idle == count_status(pv.take(i as int), AgentStatus::Idle),
            blocked == count_blocked(pv.take(i as int)),
            cost == sum_cost(pv.take(i as int)),
            tools == sum_tools(pv.take(i as int)),
            working <= i, idle <= i, blocked <= i,
            cost <= i * 0xffff_ffff_ffff_ffffu128,
        decreases panes.len() - i,
    {
        let p = &panes[i];
        assert(pv.take(i + 1).drop_last() =~= pv.take(i as int));
        assert(pv.take(i + 1).last() == p@);
        if p.agent_status == AgentStatus::Working {
            working = working + 1;
        }
        if p.agent_status == AgentStatus::Idle {
            idle = idle + 1;
        }
        if p.flags.is_blocked {
            blocked = blocked + 1;
        }
        assert(i < 0x1_0000_0000_0000_0000);
        assert((i + 1) * 0xffff_ffff_ffff_ffffu128 == i * 0xffff_ffff_ffff_ffffu128 + 0xffff_ffff_ffff_ffffu128) by (nonlinear_arith);
        assert(i * 0xffff_ffff_ffff_ffffu128 <= 0xffff_ffff_ffff_ffff * 0xffff_ffff_ffff_ffffu128) by (nonlinear_arith)
            requires i < 0x1_0000_0000_0000_0000;
        cost = cost + p.vitals.total_cost_micros as u128;
        match tools.checked_add(p.vitals.total_tool_calls) {
            Some(t) => { tools = t; },
            None => {
                proof {
                    assert(sum_tools(pv.take(i + 1)) > u32::MAX);
                    lemma_sum_tools_mono(pv, i + 1);
                    assert(pv.len() == panes@.len());
                }
                return None;
            },
        }
        i = i + 1;
    }
    assert(pv.take(panes@.len() as int) =~= pv);
    Some(Totals {
        pane_count: panes.len(),
        working_count: working,
        idle_count: idle,
        blocked_count: blocked,
        total_cost_micros: cost,
        total_tool_calls: tools,
    })
}

// ── Reduce ───────────────────────────────────────────────────────────

/// The pane views of all herdr panes, in order; `None` where one panics.
pub open spec fn panes_of(
    herdr: Seq<HerdrPaneSnapshot>,
    pi_signals: PathMap<PiSignals>,
    projects: PathMap<ProjectProfile>,
    config: Config,
    now: Timestamp,
) -> Option<Seq<PaneViewModel>> {
    if forall|i: int| 0 <= i < herdr.len() ==> (#[trigger] joined_pane(herdr[i], pi_signals, projects, config, now)) is Some {
        Some(Seq::new(herdr.len(), |i: int| joined_pane(herdr[i], pi_signals, projects, config, now).unwrap()))
    } else {
        None
    }
}

/// What reducing gives: the pane views and their totals; `None` where the
/// reducer panics.
pub open spec fn reduction(
    herdr: Seq<HerdrPaneSnapshot>,
    pi_signals: PathMap<PiSignals>,
    projects: PathMap<ProjectProfile>,
    config: Config,
    now: Timestamp,
) -> Option<(Seq<PaneViewModel>, Totals)> {
    match panes_of(herdr, pi_signals, projects, config, now) {
        None => None,
        Some(ps) => match totals_of(ps) {
            None => None,
            Some(t) => Some((ps, t)),
        },
    }
}

/// Reduces the signals into pane views and totals at time `now`; `None`
/// exactly where an arc cut would fall inside a char or a total would
/// overflow.
pub fn reduce_at(
    herdr_panes: &Vec<HerdrPaneSnapshot>,
    pi_signals: &PathMap<PiSignals>,
    projects: &PathMap<ProjectProfile>,
    config: &Config,
    now: Timestamp,
) -> (r: Option<(Vec<PaneView>, Totals)>)
    ensures
        match r {
            Some((ps, t)) => reduction(herdr_panes@, *pi_signals, *projects, *config, now) == Some((panes_view(ps@), t)),
            None => reduction(herdr_panes@, *pi_signals, *projects, *config, now) is None,
        },
{
    let ghost hs = herdr_panes@;
    let mut panes: Vec<PaneView> = Vec::new();
    let mut i: usize = 0;
    while i < herdr_panes.len()
        invariant
            hs == herdr_panes@,
            i <= hs.len(),
            panes@.len() == i,
            forall|k: int| 0 <= k < i ==>
                joined_pane(hs[k], *pi_signals, *projects, *config, now) == Some((#[trigger] panes@[k])@),
        decreases herdr_panes.len() - i,
    {
        match build_pane_view(&herdr_panes[i], pi_signals, projects, config, now) {
            Some(v) => { panes.push(v); },
            None => {
                assert(!(forall|k: int| 0 <= k < hs.len() ==> (#[trigger] joined_pane(hs[k], *pi_signals, *projects, *config, now)) is Some));
                return None;
            },
        }
        i = i + 1;
    }
    assert forall|k: int| 0 <= k < hs.len() implies (#[trigger] joined_pane(hs[k], *pi_signals, *projects, *config, now)) is Some by {
        assert(joined_pane(hs[k], *pi_signals, *projects, *config, now) == Some(panes@[k]@));
    }
    assert(panes_view(panes@) =~= Seq::new(hs.len(), |k: int| joined_pane(hs[k], *pi_signals, *projects, *config, now).unwrap()));
    match compute_totals(&panes) {
        Some(t) => Some((panes, t)),
        None => None,
    }
}

/// Reduces the signals into pane views and totals, reading the clock once;
/// `None` exactly where an arc cut would fall inside a char or a total
/// would overflow.
pub fn reduce(
    herdr_panes: &Vec<HerdrPaneSnapshot>,
    pi_signals: &PathMap<PiSignals>,
    projects: &PathMap<ProjectProfile>,
    config: &Config,
) -> (r: Option<(Vec<PaneView>, Totals)>)
    ensures
        exists|now: Timestamp| match r {
            Some((ps, t)) => reduction(herdr_panes@, *pi_signals, *projects, *config, now) == Some((panes_view(ps@), t)),
            None => reduction(herdr_panes@, *pi_signals, *projects, *config, now) is None,
        },
{
    let now = utc_now();
    reduce_at(herdr_panes, pi_signals, projects, config, now)
}

// ── Laws ─────────────────────────────────────────────────────────────

/// Law: the attention level is the most urgent condition that holds:
/// Critical exactly when blocked, High when runaway and not blocked, Medium
/// when awaiting a reply and neither, Low when only working, else Nothing.
pub proof fn law_attention_precedence(h: HerdrPaneSnapshot, pi: Option<PiSignals>, config: Config, now: Timestamp)
    ensures ({
        let f = flags_of(h, pi, config, now);
        &&& (f.attention == Attention::Critical <==> f.is_blocked)
        &&& (f.attention == Attention::High <==> !f.is_blocked && f.is_runaway)
        &&& (f.attention == Attention::Medium <==> !f.is_blocked && !f.is_runaway && f.awaiting_user_reply)
        &&& (f.attention == Attention::Low <==> !f.is_blocked && !f.is_runaway && !f.awaiting_user_reply
            && h.agent_status == AgentStatus::Working)
    }),
{
}

/// Law: a pane awaits a reply only when herdr reports it idle and it is not
/// the focused pane; an idle-long reading is above the threshold; without
/// session signals a pane is neither blocked, runaway, awaiting nor idle long.
pub proof fn law_flag_conditions(h: HerdrPaneSnapshot, pi: Option<PiSignals>, config: Config, now: Timestamp)
    ensures ({
        let f = flags_of(h, pi, config, now);
        &&& f.awaiting_user_reply ==> h.agent_status == AgentStatus::Idle && !h.focused
        &&& (f.idle_long_secs matches Some(a) ==> a > config.idle_threshold_secs)
        &&& pi is None ==> !f.is_blocked && !f.is_runaway && !f.awaiting_user_reply && f.idle_long_secs is None
    }),
{
}

/// Number of panes at Critical attention.
pub open spec fn count_critical(panes: Seq<PaneViewModel>) -> nat
    decreases panes.len(),
{
    if panes.len() == 0 {
        0
    } else {
        count_critical(panes.drop_last()) + if panes.last().flags.attention == Attention::Critical { 1nat } else { 0nat }
    }
}

proof fn lemma_blocked_is_critical(panes: Seq<PaneViewModel>)
    requires forall|i: int| 0 <= i < panes.len() ==>
        ((#[trigger] panes[i]).flags.attention == Attention::Critical <==> panes[i].flags.is_blocked),
    ensures count_blocked(panes) == count_critical(panes),
    decreases panes.len(),
{
    if panes.len() > 0 {
        lemma_blocked_is_critical(panes.drop_last());
        assert(panes.last() == panes[panes.len() - 1]);
    }
}

proof fn lemma_counts_bounded(panes: Seq<PaneViewModel>)
    ensures
        count_status(panes, AgentStatus::Working) + count_status(panes, AgentStatus::Idle) <= panes.len(),
        count_blocked(panes) <= panes.len(),
    decreases panes.len(),
{
    if panes.len() > 0 {
        lemma_counts_bounded(panes.drop_last());
    }
}

/// Law: reducing gives one pane view per herdr pane, in order, under the
/// same pane id; the totals count every pane, count as blocked exactly the
/// panes at Critical attention, and never count more working and idle panes
/// than there are panes.
pub proof fn law_reduction_shape(
    herdr: Seq<HerdrPaneSnapshot>,
    pi_signals: PathMap<PiSignals>,
    projects: PathMap<ProjectProfile>,
    config: Config,
    now: Timestamp,
)
    requires
        reduction(herdr, pi_signals, projects, config, now) is Some,
        herdr.len() <= usize::MAX,
    ensures ({
        let (ps, t) = reduction(herdr, pi_signals, projects, config, now).unwrap();
        &&& ps.len() == herdr.len()
        &&& forall|i: int| 0 <= i < ps.len() ==> (#[trigger] ps[i]).pane_id == herdr[i].pane_id@
        &&& t.pane_count == ps.len()
        &&& t.blocked_count == count_critical(ps)
        &&& t.working_count + t.idle_count <= t.pane_count
    }),
{
    let ps = panes_of(herdr, pi_signals, projects, config, now).unwrap();
    assert forall|i: int| 0 <= i < ps.len() implies
        ((#[trigger] ps[i]).flags.attention == Attention::Critical <==> ps[i].flags.is_blocked) by {
        let h = herdr[i];
        law_attention_precedence(h, pi_for(h, pi_signals), config, now);
    }
    lemma_blocked_is_critical(ps);
    lemma_counts_bounded(ps);
    assert forall|i: int| 0 <= i < ps.len() implies (#[trigger] ps[i]).pane_id == herdr[i].pane_id@ by {
        assert(joined_pane(herdr[i], pi_signals, projects, config, now) is Some);
    }
}

proof fn lemma_fit_prefix_fits(s: Seq<char>, n: int)
    requires n >= 0,
    ensures utf8_len(fit_prefix(s, n)) <= n,
    decreases s.len(),
{
    if !(utf8_len(s) <= n || s.len() == 0) {
        lemma_fit_prefix_fits(s.drop_last(), n);
    }
}

/// The first text of a message, empty when it has none.
pub open spec fn message_text(n: MessageNode) -> Seq<char> {
    match first_text(blocks_view(n.content@)) {
        Some(t) => t,
        None => seq![],
    }
}

/// `u` shows text `t`: `t` itself when it has at most 100 bytes, else a
/// prefix of `t` followed by "...".
pub open spec fn shows_text(u: Seq<char>, t: Seq<char>) -> bool {
    &&& utf8_len(t) <= 100 ==> u == t
    &&& utf8_len(t) > 100 ==> exists|k: int| 0 <= k <= t.len() && u == #[trigger] t.take(k) + "..."@
}

/// Law: the conversation arc holds the last `max_turns` user turns at most
/// (fewer when there are fewer), newest first, each numbered by how many
/// turns back it is and cut to at most 100 bytes.
pub proof fn law_arc_shape(nodes: Seq<MessageNode>, max_turns: int, now: Timestamp)
    requires
        max_turns >= 0,
        arc_of(nodes, max_turns, now) is Some,
    ensures ({
        let a = arc_of(nodes, max_turns, now).unwrap();
        &&& a.len() == if user_nodes(nodes).len() < max_turns { user_nodes(nodes).len() as int } else { max_turns }
        &&& forall|i: int| 0 <= i < a.len() ==> (#[trigger] a[i]).turns_ago == i as u32
            && utf8_len(a[i].user) <= 100
        &&& forall|i: int| 0 <= i < a.len() ==> (#[trigger] a[i]).ended == (TurnEndModel::Active {
            current_activity: CurrentActivityModel { kind: ActivityKind::Thinking, tool_name: None, snippet: seq![], started_at: now },
            tools_so_far: 0,
        })
        &&& forall|i: int| 0 <= i < a.len() ==> shows_text((#[trigger] a[i]).user, {
            let users = nodes.filter(|n: MessageNode| n.role == MessageRole::User);
            message_text(users[users.len() - 1 - i])
        })
    }),
{
    law_user_nodes_are_the_user_messages(nodes);
    let a = arc_of(nodes, max_turns, now).unwrap();
    let users = user_nodes(nodes);
    reveal_strlit("...");
    assert(utf8_len("..."@) == 3) by {
        reveal_with_fuel(utf8_len, 4);
    }
    assert forall|i: int| 0 <= i < a.len() implies (#[trigger] a[i]).turns_ago == i as u32
        && utf8_len(a[i].user) <= 100 by {
        let node = users[users.len() - 1 - i];
        let t = match first_text(blocks_view(node.content@)) {
            Some(t) => t,
            None => seq![],
        };
        assert(arc_entry(node, i, now) is Some);
        assert(a[i] == arc_entry(node, i, now).unwrap());
        if utf8_len(t) > 100 {
            lemma_fit_prefix_fits(t, 97);
            crate::text::lemma_utf8_len_append(fit_prefix(t, 97), "..."@);
        }
    }
    assert forall|i: int| 0 <= i < a.len() implies (#[trigger] a[i]).ended == (TurnEndModel::Active {
        current_activity: CurrentActivityModel { kind: ActivityKind::Thinking, tool_name: None, snippet: seq![], started_at: now },
        tools_so_far: 0,
    }) by {
        let node = users[users.len() - 1 - i];
        assert(arc_entry(node, i, now) is Some);
        assert(a[i] == arc_entry(node, i, now).unwrap());
    }
    assert forall|i: int| 0 <= i < a.len() implies shows_text((#[trigger] a[i]).user, message_text(users[users.len() - 1 - i])) by {
        let node = users[users.len() - 1 - i];
        let t = match first_text(blocks_view(node.content@)) {
            Some(t) => t,
            None => seq![],
        };
        assert(arc_entry(node, i, now) is Some);
        assert(a[i] == arc_entry(node, i, now).unwrap());
        assert(ellipsize(t, 100, 97) is Some);
        assert(a[i].user == ellipsize(t, 100, 97).unwrap());
        if utf8_len(t) > 100 {
            crate::text::lemma_fit_prefix_len(t, 97);
            let k = fit_prefix(t, 97).len() as int;
            assert(a[i].user == t.take(k) + "..."@);
            assert(0 <= k <= t.len());
            assert(exists|k: int| 0 <= k <= t.len() && a[i].user == #[trigger] t.take(k) + "..."@);
        } else {
            assert(a[i].user == t);
        }
    }
}

/// Law: the user turns that the arc is drawn from are exactly the user
/// messages of the conversation, in order.
pub proof fn law_user_nodes_are_the_user_messages(nodes: Seq<MessageNode>)
    ensures user_nodes(nodes) == nodes.filter(|n: MessageNode| n.role == MessageRole::User),
    decreases nodes.len(),
{
    reveal_with_fuel(Seq::filter, 1);
    if nodes.len() > 0 {
        law_user_nodes_are_the_user_messages(nodes.drop_last());
    }
}

/// Law: a tool error that no text followed, found in a session, makes every
/// pane on that session blocked and Critical, whatever herdr says of it.
pub proof fn law_error_is_critical(
    records: Seq<RawRecord>,
    path: Seq<char>,
    p: PiSignals,
    h: HerdrPaneSnapshot,
    config: Config,
    now: Timestamp,
)
    requires
        signals_match(p, path, records, now),
        p.error_since_last_user is Some,
    ensures
        p.deepest_leaf_since_last_user.kind == LeafKind::ToolResult,
        flags_of(h, Some(p), config, now).is_blocked,
        flags_of(h, Some(p), config, now).attention == Attention::Critical,
{
}

} // verus!
