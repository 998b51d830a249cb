//! What the collectors emit to the reducer. Clients never see these.

use vstd::prelude::*;
use crate::schema::pane_view::{AgentStatus, clone_opt_str, opt_str};
use crate::time::Timestamp;

verus! {

/// A point-in-time snapshot of one herdr pane, with the labels of its
/// workspace and tab where herdr has them.
pub struct HerdrPaneSnapshot {
    pub workspace_id: String,
    pub workspace_label: Option<String>,
    pub tab_id: String,
    pub tab_label: Option<String>,
    pub pane_id: String,
    pub agent: Option<String>,
    pub agent_status: AgentStatus,
    pub focused: bool,
    pub cwd: String,
    pub agent_session_path: Option<String>,
    pub custom_status: Option<String>,
    pub captured_at: Timestamp,
}

impl Clone for HerdrPaneSnapshot {
    fn clone(&self) -> (r: Self)
        ensures r == *self,
    {
        HerdrPaneSnapshot {
            workspace_id: self.workspace_id.clone(),
            workspace_label: clone_opt_str(&self.workspace_label),
            tab_id: self.tab_id.clone(),
            tab_label: clone_opt_str(&self.tab_label),
            pane_id: self.pane_id.clone(),
            agent: clone_opt_str(&self.agent),
            agent_status: self.agent_status,
            focused: self.focused,
            cwd: self.cwd.clone(),
            agent_session_path: clone_opt_str(&self.agent_session_path),
            custom_status: clone_opt_str(&self.custom_status),
            captured_at: self.captured_at,
        }
    }
}

/// A model identifier from pi's `model_change` records.
pub struct ModelId {
    pub provider: String,
    pub model_id: String,
}

impl View for ModelId {
    type V = (Seq<char>, Seq<char>);

    open spec fn view(&self) -> (Seq<char>, Seq<char>) {
        (self.provider@, self.model_id@)
    }
}

impl Clone for ModelId {
    fn clone(&self) -> (r: Self)
        ensures r == *self,
    {
        ModelId { provider: self.provider.clone(), model_id: self.model_id.clone() }
    }
}

/// Thinking level from pi's `thinking_level_change` records.
#[derive(Clone, Copy, PartialEq, Eq, Debug, Structural)]
pub enum ThinkingLevel {
    Xhigh,
    High,
    Medium,
    Low,
}

/// Who wrote a message.
#[derive(Clone, Copy, PartialEq, Eq, Debug, Structural)]
pub enum MessageRole {
    User,
    Assistant,
    ToolResult,
}

/// One block of message content. A tool call keeps its arguments as their
/// compact JSON text.
pub enum ContentBlock {
    Text { text: String },
    Thinking { text: String },
    ToolCall { name: String, arguments: String },
    ToolResult { content: String, is_error: bool },
}

pub enum ContentBlockModel {
    Text { text: Seq<char> },
    Thinking { text: Seq<char> },
    ToolCall { name: Seq<char>, arguments: Seq<char> },
    ToolResult { content: Seq<char>, is_error: bool },
}

impl View for ContentBlock {
    type V = ContentBlockModel;

    open spec fn view(&self) -> ContentBlockModel {
        match self {
            ContentBlock::Text { text } => ContentBlockModel::Text { text: text@ },
            ContentBlock::Thinking { text } => ContentBlockModel::Thinking { text: text@ },
            ContentBlock::ToolCall { name, arguments } => ContentBlockModel::ToolCall {
                name: name@,
                arguments: arguments@,
            },
            ContentBlock::ToolResult { content, is_error } => ContentBlockModel::ToolResult {
                content: content@,
                is_error: *is_error,
            },
        }
    }
}

impl Clone for ContentBlock {
    fn clone(&self) -> (r: Self)
        ensures r == *self,
    {
        match self {
            ContentBlock::Text { text } => ContentBlock::Text { text: text.clone() },
            ContentBlock::Thinking { text } => ContentBlock::Thinking { text: text.clone() },
            ContentBlock::ToolCall { name, arguments } => ContentBlock::ToolCall {
                name: name.clone(),
                arguments: arguments.clone(),
            },
            ContentBlock::ToolResult { content, is_error } => ContentBlock::ToolResult {
                content: content.clone(),
                is_error: *is_error,
            },
        }
    }
}

/// One message of a session's conversation tree.
pub struct MessageNode {
    pub id: String,
    pub parent_id: Option<String>,
    pub role: MessageRole,
    pub content: Vec<ContentBlock>,
    pub timestamp: Timestamp,
}

pub struct MessageNodeModel {
    pub id: Seq<char>,
    pub parent_id: Option<Seq<char>>,
    pub role: MessageRole,
    pub content: Seq<ContentBlockModel>,
    pub timestamp: Timestamp,
}

/// The views of a list of content blocks.
pub open spec fn blocks_view(v: Seq<ContentBlock>) -> Seq<ContentBlockModel> {
    v.map_values(|b: ContentBlock| b@)
}

impl View for MessageNode {
    type V = MessageNodeModel;

    open spec fn view(&self) -> MessageNodeModel {
        MessageNodeModel {
            id: self.id@,
            parent_id: opt_str(self.parent_id),
            role: self.role,
            content: blocks_view(self.content@),
            timestamp: self.timestamp,
        }
    }
}

/// The views of a list of message nodes.
pub open spec fn nodes_view(v: Seq<MessageNode>) -> Seq<MessageNodeModel> {
    v.map_values(|n: MessageNode| n@)
}

/// Where the agent is right now.
#[derive(Clone, Copy, PartialEq, Eq, Debug, Structural)]
pub enum LeafKind {
    AssistantText,
    ToolCall,
    ToolResult,
    UserPending,
}

/// Summary of the deepest message since the last user message.
pub struct LeafSummary {
    pub kind: LeafKind,
    pub tool_name: Option<String>,
    pub snippet: Option<String>,
}

pub struct LeafSummaryModel {
    pub kind: LeafKind,
    pub tool_name: Option<Seq<char>>,
    pub snippet: Option<Seq<char>>,
}

impl View for LeafSummary {
    type V = LeafSummaryModel;

    open spec fn view(&self) -> LeafSummaryModel {
        LeafSummaryModel { kind: self.kind, tool_name: opt_str(self.tool_name), snippet: opt_str(self.snippet) }
    }
}

impl Clone for LeafSummary {
    fn clone(&self) -> (r: Self)
        ensures r == *self,
    {
        LeafSummary {
            kind: self.kind,
            tool_name: clone_opt_str(&self.tool_name),
            snippet: clone_opt_str(&self.snippet),
        }
    }
}

/// A tool error that no assistant text followed.
pub struct ErrorSummary {
    pub tool_name: String,
    pub excerpt: String,
}

pub struct ErrorSummaryModel {
    pub tool_name: Seq<char>,
    pub excerpt: Seq<char>,
}

impl View for ErrorSummary {
    type V = ErrorSummaryModel;

    open spec fn view(&self) -> ErrorSummaryModel {
        ErrorSummaryModel { tool_name: self.tool_name@, excerpt: self.excerpt@ }
    }
}

/// The view of an optional error summary.
pub open spec fn opt_error(e: Option<ErrorSummary>) -> Option<ErrorSummaryModel> {
    match e {
        Some(x) => Some(x@),
        None => None,
    }
}

impl Clone for ErrorSummary {
    fn clone(&self) -> (r: Self)
        ensures r == *self,
    {
        ErrorSummary { tool_name: self.tool_name.clone(), excerpt: self.excerpt.clone() }
    }
}

/// What the pi-session collector derives from one session file. Costs are in
/// millionths of a US dollar.
pub struct PiSignals {
    pub session_id: u128,
    pub session_path: String,
    pub started_at: Timestamp,
    pub cwd: String,
    pub model: Vec<ModelId>,
    pub thinking_level: Option<ThinkingLevel>,
    pub total_turns: u32,
    pub total_tool_calls: u32,
    pub total_cost_micros: u64,
    pub conversation_tree: Vec<MessageNode>,
    pub last_user_message: Option<String>,
    pub deepest_leaf_since_last_user: LeafSummary,
    pub tool_calls_since_last_user: u32,
    pub cost_since_last_user_micros: u64,
    pub error_since_last_user: Option<ErrorSummary>,
    pub last_activity_at: Timestamp,
}

} // verus!
