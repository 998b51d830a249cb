//! Wire protocol: events, their envelope, requests and responses.

use vstd::prelude::*;
use crate::schema::pane_view::{
    AgentStatus, Attention, CurrentActivity, CurrentActivityModel, Flags, PaneView, PaneViewModel,
    Totals, VitalsDelta, clone_opt_str, clone_strings, opt_str,
};
use crate::time::Timestamp;

verus! {

/// Protocol version of the wire protocol.
pub const PROTOCOL_VERSION: u32 = 1;

/// Field-level patch for a `PaneView`; only set fields carry changed values.
pub struct PaneViewPatch {
    pub agent_status: Option<AgentStatus>,
    pub focused: Option<bool>,
    pub current: Option<CurrentActivity>,
    pub vitals_since_last_user: Option<VitalsDelta>,
    pub flags: Option<Flags>,
    pub last_user_message: Option<Option<String>>,
}

pub struct PaneViewPatchModel {
    pub agent_status: Option<AgentStatus>,
    pub focused: Option<bool>,
    pub current: Option<CurrentActivityModel>,
    pub vitals_since_last_user: Option<VitalsDelta>,
    pub flags: Option<Flags>,
    pub last_user_message: Option<Option<Seq<char>>>,
}

impl View for PaneViewPatch {
    type V = PaneViewPatchModel;

    open spec fn view(&self) -> PaneViewPatchModel {
        PaneViewPatchModel {
            agent_status: self.agent_status,
            focused: self.focused,
            current: match self.current {
                Some(c) => Some(c@),
                None => None,
            },
            vitals_since_last_user: self.vitals_since_last_user,
            flags: self.flags,
            last_user_message: match self.last_user_message {
                Some(m) => Some(opt_str(m)),
                None => None,
            },
        }
    }
}

impl Clone for PaneViewPatch {
    fn clone(&self) -> (r: Self)
        ensures r == *self,
    {
        PaneViewPatch {
            agent_status: self.agent_status,
            focused: self.focused,
            current: match &self.current {
                Some(c) => Some(c.clone()),
                None => None,
            },
            vitals_since_last_user: self.vitals_since_last_user,
            flags: self.flags,
            last_user_message: match &self.last_user_message {
                Some(m) => Some(clone_opt_str(m)),
                None => None,
            },
        }
    }
}

/// Per-pane deltas.
pub enum EventKind {
    PaneAdded(PaneView),
    PaneRemoved { pane_id: String },
    PaneViewPatch { pane_id: String, patch: PaneViewPatch },
    AttentionChanged { pane_id: String, from: Option<Attention>, to: Attention },
    TotalsChanged { totals: Totals },
}

pub enum EventKindModel {
    PaneAdded(PaneViewModel),
    PaneRemoved { pane_id: Seq<char> },
    PaneViewPatch { pane_id: Seq<char>, patch: PaneViewPatchModel },
    AttentionChanged { pane_id: Seq<char>, from: Option<Attention>, to: Attention },
    TotalsChanged { totals: Totals },
}

impl View for EventKind {
    type V = EventKindModel;

    open spec fn view(&self) -> EventKindModel {
        match self {
            EventKind::PaneAdded(p) => EventKindModel::PaneAdded(p@),
            EventKind::PaneRemoved { pane_id } => EventKindModel::PaneRemoved { pane_id: pane_id@ },
            EventKind::PaneViewPatch { pane_id, patch } => EventKindModel::PaneViewPatch {
                pane_id: pane_id@,
                patch: patch@,
            },
            EventKind::AttentionChanged { pane_id, from, to } => EventKindModel::AttentionChanged {
                pane_id: pane_id@,
                from: *from,
                to: *to,
            },
            EventKind::TotalsChanged { totals } => EventKindModel::TotalsChanged { totals: *totals },
        }
    }
}

impl Clone for EventKind {
    fn clone(&self) -> (r: Self)
        ensures r@ == self@,
    {
        match self {
            EventKind::PaneAdded(p) => EventKind::PaneAdded(p.clone()),
            EventKind::PaneRemoved { pane_id } => EventKind::PaneRemoved { pane_id: pane_id.clone() },
            EventKind::PaneViewPatch { pane_id, patch } => EventKind::PaneViewPatch {
                pane_id: pane_id.clone(),
                patch: patch.clone(),
            },
            EventKind::AttentionChanged { pane_id, from, to } => EventKind::AttentionChanged {
                pane_id: pane_id.clone(),
                from: *from,
                to: *to,
            },
            EventKind::TotalsChanged { totals } => EventKind::TotalsChanged { totals: *totals },
        }
    }
}

/// Every event on the wire is wrapped in this envelope.
pub struct EventEnvelope {
    pub protocol_version: u32,
    pub sequence: u64,
    pub timestamp: Timestamp,
    pub event: EventKind,
}

pub struct EventEnvelopeModel {
    pub protocol_version: u32,
    pub sequence: u64,
    pub timestamp: Timestamp,
    pub event: EventKindModel,
}

impl View for EventEnvelope {
    type V = EventEnvelopeModel;

    open spec fn view(&self) -> EventEnvelopeModel {
        EventEnvelopeModel {
            protocol_version: self.protocol_version,
            sequence: self.sequence,
            timestamp: self.timestamp,
            event: self.event@,
        }
    }
}

impl Clone for EventEnvelope {
    fn clone(&self) -> (r: Self)
        ensures r@ == self@,
    {
        EventEnvelope {
            protocol_version: self.protocol_version,
            sequence: self.sequence,
            timestamp: self.timestamp,
            event: self.event.clone(),
        }
    }
}

/// The methods of the mc JSON-RPC protocol.
pub enum McMethod {
    Snapshot,
    PaneGet { pane_id: String },
    NeedsAttention,
    Totals,
    EventsSubscribe { after_seq: u64, kinds: Vec<String> },
    EventsCurrentSequence,
}

impl Clone for McMethod {
    fn clone(&self) -> (r: Self)
        ensures
            match (r, *self) {
                (McMethod::EventsSubscribe { after_seq: a, kinds: k }, McMethod::EventsSubscribe { after_seq: b, kinds: l }) =>
                    a == b && k@ == l@,
                _ => r == *self,
            },
    {
        match self {
            McMethod::Snapshot => McMethod::Snapshot,
            McMethod::PaneGet { pane_id } => McMethod::PaneGet { pane_id: pane_id.clone() },
            McMethod::NeedsAttention => McMethod::NeedsAttention,
            McMethod::Totals => McMethod::Totals,
            McMethod::EventsSubscribe { after_seq, kinds } => McMethod::EventsSubscribe {
                after_seq: *after_seq,
                kinds: clone_strings(kinds),
            },
            McMethod::EventsCurrentSequence => McMethod::EventsCurrentSequence,
        }
    }
}

/// Request envelope for the mc JSON-RPC protocol.
pub struct McRequest {
    pub id: String,
    pub method: McMethod,
}

/// Success response for `mc.snapshot`.
pub struct SnapshotResponse {
    pub panes: Vec<PaneView>,
    pub totals: Totals,
    pub sequence: u64,
}

/// Success response for `mc.needs_attention`.
pub struct NeedsAttentionResponse {
    pub panes: Vec<PaneView>,
}

/// Success response for `mc.pane.get`.
pub struct PaneGetResponse {
    pub pane: PaneView,
}

/// Success response for `mc.totals`.
#[derive(Clone, Copy, PartialEq, Eq, Debug, Structural)]
pub struct TotalsResponse {
    pub totals: Totals,
}

/// Success response for `events.subscribe`: the events, each with its
/// sequence number, oldest first.
pub struct EventsResponse {
    pub events: Vec<(u64, EventEnvelope)>,
}

/// Success response for `events.current_sequence`.
#[derive(Clone, Copy, PartialEq, Eq, Debug, Structural)]
pub struct CurrentSequenceResponse {
    pub sequence: u64,
}

/// Error response.
pub struct McError {
    pub code: i32,
    pub message: String,
    pub data: Option<String>,
}

} // verus!
