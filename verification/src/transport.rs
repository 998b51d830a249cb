//! The JSON-RPC methods of the daemon: what each request is answered, and
//! the framing of request and reply lines. Reading and writing the socket,
//! and turning the library's values into JSON, stay with the caller.

use vstd::prelude::*;
use vstd::string::*;
use crate::json::{JsonValue, json_get, json_str, json_text, quoted, str_eq, write_escaped, write_json};
use crate::text::{dec, decimal};
use crate::schema::events::{
    CurrentSequenceResponse, EventEnvelope, EventEnvelopeModel, EventKind, EventKindModel, EventsResponse, McError,
    McMethod, NeedsAttentionResponse, PaneGetResponse, SnapshotResponse, TotalsResponse,
};
use crate::schema::pane_view::{PaneView, PaneViewModel, Totals, attention_rank, rank_of};
use crate::reducer::panes_view;
use crate::state::{StateStore, after, events_view, store_wf};

verus! {

/// What a request is answered.
pub enum McReply {
    Snapshot(SnapshotResponse),
    PaneGet(PaneGetResponse),
    NeedsAttention(NeedsAttentionResponse),
    Totals(TotalsResponse),
    Events(EventsResponse),
    CurrentSequence(CurrentSequenceResponse),
    Error(McError),
}

/// JSON-RPC error code of an unparsable request.
pub const PARSE_ERROR: i32 = -32700;

/// Error code of a request for an unknown pane.
pub const PANE_NOT_FOUND: i32 = -32000;

/// The panes at attention rank `r`, in their order.
pub open spec fn rank_group(panes: Seq<PaneViewModel>, r: nat) -> Seq<PaneViewModel>
    decreases panes.len(),
{
    if panes.len() == 0 {
        seq![]
    } else if attention_rank(panes.last().flags.attention) == r {
        rank_group(panes.drop_last(), r).push(panes.last())
    } else {
        rank_group(panes.drop_last(), r)
    }
}

/// The panes that need attention, most urgent first; panes of equal urgency
/// keep their order (a stable sort by attention, descending).
pub open spec fn needs_attention(panes: Seq<PaneViewModel>) -> Seq<PaneViewModel> {
    rank_group(panes, 4) + rank_group(panes, 3) + rank_group(panes, 2) + rank_group(panes, 1)
}

/// Clones the panes at attention rank `r`, in their order.
fn collect_rank(panes: &Vec<PaneView>, r: u8, out: &mut Vec<PaneView>)
    ensures panes_view(final(out)@) == panes_view(old(out)@) + rank_group(panes_view(panes@), r as nat),
{
    let ghost pv = panes_view(panes@);
    let ghost start = panes_view(out@);
    let mut i: usize = 0;
    while i < panes.len()
        invariant
            pv == panes_view(panes@),
            i <= panes@.len(),
            panes_view(out@) == start + rank_group(pv.take(i as int), r as nat),
        decreases panes.len() - i,
    {
        assert(pv.take(i + 1).drop_last() =~= pv.take(i as int));
        assert(pv.take(i + 1).last() == panes@[i as int]@);
        if rank_of(panes[i].flags.attention) == r {
            let ghost before = out@;
            out.push(panes[i].clone());
            assert(attention_rank(pv.take(i + 1).last().flags.attention) == r as nat);
            assert(rank_group(pv.take(i + 1), r as nat)
                == rank_group(pv.take(i as int), r as nat).push(pv[i as int]));
            assert(panes_view(out@) =~= panes_view(before).push(pv[i as int]));
        } else {
            assert(attention_rank(pv.take(i + 1).last().flags.attention) != r as nat);
            assert(rank_group(pv.take(i + 1), r as nat) == rank_group(pv.take(i as int), r as nat));
        }
        i = i + 1;
    }
    assert(pv.take(panes@.len() as int) =~= pv);
}

/// The panes whose attention is not `Nothing`, sorted by attention
/// descending, ties in their order.
pub fn panes_needing_attention(panes: &Vec<PaneView>) -> (r: Vec<PaneView>)
    ensures panes_view(r@) == needs_attention(panes_view(panes@)),
{
    let mut out: Vec<PaneView> = Vec::new();
    assert(panes_view(out@) =~= Seq::<PaneViewModel>::empty());
    collect_rank(panes, 4, &mut out);
    collect_rank(panes, 3, &mut out);
    collect_rank(panes, 2, &mut out);
    collect_rank(panes, 1, &mut out);
    assert(panes_view(out@) =~= needs_attention(panes_view(panes@)));
    out
}

/// The wire name of an event kind.
pub open spec fn kind_name(e: EventKindModel) -> Seq<char> {
    match e {
        EventKindModel::PaneAdded(_) => "pane_added"@,
        EventKindModel::PaneRemoved { .. } => "pane_removed"@,
        EventKindModel::PaneViewPatch { .. } => "pane_view_patch"@,
        EventKindModel::AttentionChanged { .. } => "attention_changed"@,
        EventKindModel::TotalsChanged { .. } => "totals_changed"@,
    }
}

/// The events whose kind is among `kinds`, in order.
pub open spec fn of_kinds(events: Seq<(u64, EventEnvelopeModel)>, kinds: Seq<Seq<char>>) -> Seq<(u64, EventEnvelopeModel)>
    decreases events.len(),
{
    if events.len() == 0 {
        seq![]
    } else if kinds.contains(kind_name(events.last().1.event)) {
        of_kinds(events.drop_last(), kinds).push(events.last())
    } else {
        of_kinds(events.drop_last(), kinds)
    }
}

/// The events a subscription gets: those after `after_seq`, restricted to
/// `kinds` unless `kinds` is empty.
pub open spec fn subscription(events: Seq<(u64, EventEnvelopeModel)>, after_seq: u64, kinds: Seq<Seq<char>>) -> Seq<(u64, EventEnvelopeModel)> {
    if kinds.len() == 0 {
        after(events, after_seq)
    } else {
        of_kinds(after(events, after_seq), kinds)
    }
}

fn kind_str(e: &EventKind) -> (r: &'static str)
    ensures r@ == kind_name(e@),
{
    match e {
        EventKind::PaneAdded(_) => "pane_added",
        EventKind::PaneRemoved { .. } => "pane_removed",
        EventKind::PaneViewPatch { .. } => "pane_view_patch",
        EventKind::AttentionChanged { .. } => "attention_changed",
        EventKind::TotalsChanged { .. } => "totals_changed",
    }
}

fn contains_str(kinds: &Vec<String>, k: &str) -> (r: bool)
    ensures r == kinds@.map_values(|s: String| s@).contains(k@),
{
    let ghost kv = kinds@.map_values(|s: String| s@);
    let mut i: usize = 0;
    while i < kinds.len()
        invariant
            kv == kinds@.map_values(|s: String| s@),
            i <= kinds@.len(),
            forall|j: int| 0 <= j < i ==> kv[j] != k@,
        decreases kinds.len() - i,
    {
        if str_eq(kinds[i].as_str(), k) {
            assert(kv[i as int] == k@);
            return true;
        }
        i = i + 1;
    }
    false
}

fn filter_kinds(events: &Vec<(u64, EventEnvelope)>, kinds: &Vec<String>) -> (r: Vec<(u64, EventEnvelope)>)
    ensures events_view(r@) == of_kinds(events_view(events@), kinds@.map_values(|s: String| s@)),
{
    let ghost ev = events_view(events@);
    let ghost kv = kinds@.map_values(|s: String| s@);
    let mut out: Vec<(u64, EventEnvelope)> = Vec::new();
    let mut i: usize = 0;
    while i < events.len()
        invariant
            ev == events_view(events@),
            kv == kinds@.map_values(|s: String| s@),
            i <= events@.len(),
            events_view(out@) == of_kinds(ev.take(i as int), kv),
        decreases events.len() - i,
    {
        assert(ev.take(i + 1).drop_last() =~= ev.take(i as int));
        assert(ev.take(i + 1).last() == (events@[i as int].0, events@[i as int].1@));
        let keep = contains_str(kinds, kind_str(&events[i].1.event));
        if keep {
            let e = (events[i].0, events[i].1.clone());
            out.push(e);
            assert(events_view(out@) =~= of_kinds(ev.take(i + 1), kv));
        } else {
            assert(events_view(out@) =~= of_kinds(ev.take(i + 1), kv));
        }
        i = i + 1;
    }
    assert(ev.take(events@.len() as int) =~= ev);
    out
}

/// The index of the first pane with id `id`.
pub open spec fn pane_index(panes: Seq<PaneViewModel>, id: Seq<char>) -> Option<int>
    decreases panes.len(),
{
    if panes.len() == 0 {
        None
    } else {
        match pane_index(panes.drop_last(), id) {
            Some(i) => Some(i),
            None => if panes.last().pane_id == id { Some(panes.len() - 1) } else { None },
        }
    }
}

proof fn lemma_pane_index_bound(panes: Seq<PaneViewModel>, id: Seq<char>)
    ensures
        pane_index(panes, id) matches Some(i) ==> 0 <= i < panes.len() && panes[i].pane_id == id,
    decreases panes.len(),
{
    if panes.len() > 0 {
        lemma_pane_index_bound(panes.drop_last(), id);
    }
}

/// Finds the first pane with id `id`.
pub fn find_pane(panes: &Vec<PaneView>, id: &str) -> (r: Option<usize>)
    ensures
        match pane_index(panes_view(panes@), id@) {
            Some(i) => r matches Some(j) && j == i,
            None => r is None,
        },
{
    let ghost pv = panes_view(panes@);
    let mut i: usize = 0;
    while i < panes.len()
        invariant
            pv == panes_view(panes@),
            i <= panes@.len(),
            pane_index(pv.take(i as int), id@) is None,
        decreases panes.len() - i,
    {
        assert(pv.take(i + 1).drop_last() =~= pv.take(i as int));
        assert(pv.take(i + 1).last() == panes@[i as int]@);
        if str_eq(panes[i].pane_id.as_str(), id) {
            assert(pane_index(pv.take(i + 1), id@) == Some(i as int));
            proof { lemma_pane_index_prefix(pv, id@, i + 1); }
            return Some(i);
        }
        i = i + 1;
    }
    assert(pv.take(panes@.len() as int) =~= pv);
    None
}

/// Once a prefix holds a match, the whole sequence has the same first match.
proof fn lemma_pane_index_prefix(panes: Seq<PaneViewModel>, id: Seq<char>, k: int)
    requires
        0 <= k <= panes.len(),
        pane_index(panes.take(k), id) is Some,
    ensures
        pane_index(panes, id) == pane_index(panes.take(k), id),
    decreases panes.len() - k,
{
    if k < panes.len() {
        assert(panes.take(k + 1).drop_last() =~= panes.take(k));
        lemma_pane_index_prefix(panes, id, k + 1);
    } else {
        assert(panes.take(k) =~= panes);
    }
}

/// Clones a list of panes.
pub fn clone_panes(panes: &Vec<PaneView>) -> (r: Vec<PaneView>)
    ensures panes_view(r@) == panes_view(panes@),
{
    let mut out: Vec<PaneView> = Vec::new();
    let mut i: usize = 0;
    while i < panes.len()
        invariant
            i <= panes@.len(),
            panes_view(out@) == panes_view(panes@).take(i as int),
        decreases panes.len() - i,
    {
        let ghost before = out@;
        out.push(panes[i].clone());
        assert(panes_view(out@) =~= panes_view(before).push(panes@[i as int]@));
        assert(panes_view(out@) =~= panes_view(panes@).take(i + 1));
        i = i + 1;
    }
    assert(panes_view(panes@).take(panes@.len() as int) =~= panes_view(panes@));
    out
}

/// The answer to `method`, given the event store, the current panes and
/// their totals.
///
/// - `mc.snapshot`: all panes, the totals and the current sequence number.
/// - `mc.pane.get`: the first pane with the id, or error `PANE_NOT_FOUND`
///   with the message `pane not found: <id>`.
/// - `mc.needs_attention`: the panes whose attention is not `Nothing`,
///   most urgent first, ties in their order.
/// - `mc.totals`: the totals.
/// - `events.subscribe`: the kept events after `after_seq`, only those of
///   the named kinds unless no kind is named.
/// - `events.current_sequence`: the current sequence number.
pub fn handle_method(method: &McMethod, state: &StateStore, panes: &Vec<PaneView>, totals: Totals) -> (r: McReply)
    ensures
        match *method {
            McMethod::Snapshot => r matches McReply::Snapshot(s)
                && panes_view(s.panes@) == panes_view(panes@)
                && s.totals == totals
                && s.sequence == state@.sequence,
            McMethod::PaneGet { pane_id } => match pane_index(panes_view(panes@), pane_id@) {
                Some(i) => r matches McReply::PaneGet(g) && g.pane@ == panes_view(panes@)[i],
                None => r matches McReply::Error(e)
                    && e.code == PANE_NOT_FOUND
                    && e.message@ == "pane not found: "@ + pane_id@
                    && e.data is None,
            },
            McMethod::NeedsAttention => r matches McReply::NeedsAttention(n)
                && panes_view(n.panes@) == needs_attention(panes_view(panes@)),
            McMethod::Totals => r == McReply::Totals(TotalsResponse { totals }),
            McMethod::EventsSubscribe { after_seq, kinds } => r matches McReply::Events(v)
                && events_view(v.events@) == subscription(state@.events, after_seq, kinds@.map_values(|s: String| s@)),
            McMethod::EventsCurrentSequence =>
                r == McReply::CurrentSequence(CurrentSequenceResponse { sequence: state@.sequence }),
        },
{
    match method {
        McMethod::Snapshot => McReply::Snapshot(SnapshotResponse {
            panes: clone_panes(panes),
            totals,
            sequence: state.current_sequence(),
        }),
        McMethod::PaneGet { pane_id } => match find_pane(panes, pane_id.as_str()) {
            Some(i) => {
                proof {
                    lemma_pane_index_bound(panes_view(panes@), pane_id@);
                    let k = pane_index(panes_view(panes@), pane_id@)->0;
                    assert(k == i as int);
                    assert(panes_view(panes@)[k] == panes@[k]@);
                }
                McReply::PaneGet(PaneGetResponse { pane: panes[i].clone() })
            },
            None => McReply::Error(McError {
                code: PANE_NOT_FOUND,
                message: String::from_str("pane not found: ").concat(pane_id.as_str()),
                data: None,
            }),
        },
        McMethod::NeedsAttention => McReply::NeedsAttention(NeedsAttentionResponse {
            panes: panes_needing_attention(panes),
        }),
        McMethod::Totals => McReply::Totals(TotalsResponse { totals }),
        McMethod::EventsSubscribe { after_seq, kinds } => {
            let events = state.events_after(*after_seq);
            if kinds.len() == 0 {
                McReply::Events(EventsResponse { events })
            } else {
                McReply::Events(EventsResponse { events: filter_kinds(&events, kinds) })
            }
        },
        McMethod::EventsCurrentSequence => McReply::CurrentSequence(CurrentSequenceResponse {
            sequence: state.current_sequence(),
        }),
    }
}

/// The panes whose attention is above `Nothing`.
pub open spec fn urgent(panes: Seq<PaneViewModel>) -> Seq<PaneViewModel> {
    panes.filter(|p: PaneViewModel| attention_rank(p.flags.attention) > 0)
}

proof fn lemma_rank_group(panes: Seq<PaneViewModel>, r: nat)
    ensures
        forall|i: int| 0 <= i < rank_group(panes, r).len() ==>
            attention_rank((#[trigger] rank_group(panes, r)[i]).flags.attention) == r
            && panes.contains(rank_group(panes, r)[i]),
        forall|k: int| 0 <= k < panes.len() && attention_rank(panes[k].flags.attention) == r
            ==> rank_group(panes, r).contains(#[trigger] panes[k]),
    decreases panes.len(),
{
    if panes.len() > 0 {
        let init = panes.drop_last();
        lemma_rank_group(init, r);
        let g = rank_group(panes, r);
        assert forall|i: int| 0 <= i < g.len() implies
            attention_rank((#[trigger] g[i]).flags.attention) == r && panes.contains(g[i]) by {
            if i < rank_group(init, r).len() {
                assert(init.contains(g[i]));
                let j = choose|j: int| 0 <= j < init.len() && init[j] == g[i];
                assert(panes[j] == g[i]);
            } else {
                assert(g[i] == panes[panes.len() - 1]);
            }
        }
        assert forall|k: int| 0 <= k < panes.len() && attention_rank(panes[k].flags.attention) == r
            implies g.contains(#[trigger] panes[k]) by {
            if k < init.len() {
                assert(init[k] == panes[k]);
                assert(rank_group(init, r).contains(init[k]));
                let j = choose|j: int| 0 <= j < rank_group(init, r).len() && rank_group(init, r)[j] == init[k];
                assert(g[j] == panes[k]);
            } else {
                assert(g[g.len() - 1] == panes[k]);
            }
        }
    }
}

proof fn lemma_rank_groups_len(panes: Seq<PaneViewModel>)
    ensures
        rank_group(panes, 4).len() + rank_group(panes, 3).len() + rank_group(panes, 2).len()
            + rank_group(panes, 1).len() == urgent(panes).len(),
    decreases panes.len(),
{
    let pred = |p: PaneViewModel| attention_rank(p.flags.attention) > 0;
    if panes.len() == 0 {
        assert(urgent(panes) =~= Seq::<PaneViewModel>::empty()) by {
            reveal(Seq::filter);
        }
    } else {
        let init = panes.drop_last();
        lemma_rank_groups_len(init);
        assert(init.push(panes.last()) =~= panes);
        init.lemma_filter_push(panes.last(), pred);
    }
}

/// What `mc.needs_attention` answers: only panes whose attention is above
/// `Nothing`, each of them, as many as there are, most urgent first.
pub proof fn law_needs_attention(panes: Seq<PaneViewModel>)
    ensures
        forall|i: int| 0 <= i < needs_attention(panes).len() ==>
            attention_rank((#[trigger] needs_attention(panes)[i]).flags.attention) > 0
            && panes.contains(needs_attention(panes)[i]),
        forall|k: int| 0 <= k < panes.len() && attention_rank(panes[k].flags.attention) > 0
            ==> needs_attention(panes).contains(#[trigger] panes[k]),
        needs_attention(panes).len() == urgent(panes).len(),
        forall|i: int, j: int| 0 <= i < j < needs_attention(panes).len() ==>
            attention_rank((#[trigger] needs_attention(panes)[i]).flags.attention)
                >= attention_rank((#[trigger] needs_attention(panes)[j]).flags.attention),
{
    lemma_rank_group(panes, 4);
    lemma_rank_group(panes, 3);
    lemma_rank_group(panes, 2);
    lemma_rank_group(panes, 1);
    lemma_rank_groups_len(panes);
    let g4 = rank_group(panes, 4);
    let g3 = rank_group(panes, 3);
    let g2 = rank_group(panes, 2);
    let g1 = rank_group(panes, 1);
    let n = needs_attention(panes);
    assert forall|i: int| 0 <= i < n.len() implies
        attention_rank(n[i].flags.attention) == (
            if i < g4.len() { 4nat }
            else if i < g4.len() + g3.len() { 3nat }
            else if i < g4.len() + g3.len() + g2.len() { 2nat }
            else { 1nat }) && panes.contains(n[i]) by {
        if i < g4.len() {
            assert(n[i] == g4[i]);
        } else if i < g4.len() + g3.len() {
            assert(n[i] == g3[i - g4.len()]);
        } else if i < g4.len() + g3.len() + g2.len() {
            assert(n[i] == g2[i - g4.len() - g3.len()]);
        } else {
            assert(n[i] == g1[i - g4.len() - g3.len() - g2.len()]);
        }
    }
    assert forall|k: int| 0 <= k < panes.len() && attention_rank(panes[k].flags.attention) > 0
        implies n.contains(#[trigger] panes[k]) by {
        let r = attention_rank(panes[k].flags.attention);
        if r == 4 {
            let j = choose|j: int| 0 <= j < g4.len() && g4[j] == panes[k];
            assert(n[j] == panes[k]);
        } else if r == 3 {
            let j = choose|j: int| 0 <= j < g3.len() && g3[j] == panes[k];
            assert(n[g4.len() + j] == panes[k]);
        } else if r == 2 {
            let j = choose|j: int| 0 <= j < g2.len() && g2[j] == panes[k];
            assert(n[g4.len() + g3.len() + j] == panes[k]);
        } else {
            let j = choose|j: int| 0 <= j < g1.len() && g1[j] == panes[k];
            assert(n[g4.len() + g3.len() + g2.len() + j] == panes[k]);
        }
    }
}

proof fn lemma_of_kinds_members(events: Seq<(u64, EventEnvelopeModel)>, kinds: Seq<Seq<char>>)
    ensures
        forall|e: (u64, EventEnvelopeModel)| #[trigger] of_kinds(events, kinds).contains(e)
            ==> events.contains(e) && kinds.contains(kind_name(e.1.event)),
        forall|i: int| 0 <= i < events.len() && kinds.contains(kind_name((#[trigger] events[i]).1.event))
            ==> of_kinds(events, kinds).contains(events[i]),
    decreases events.len(),
{
    if events.len() > 0 {
        let init = events.drop_last();
        lemma_of_kinds_members(init, kinds);
        let r = of_kinds(events, kinds);
        let r0 = of_kinds(init, kinds);
        assert(events.last() == events[events.len() - 1]);
        assert forall|e: (u64, EventEnvelopeModel)| #[trigger] r.contains(e)
            implies events.contains(e) && kinds.contains(kind_name(e.1.event)) by {
            let j = choose|j: int| 0 <= j < r.len() && r[j] == e;
            if j < r0.len() {
                assert(r0[j] == e);
                assert(r0.contains(e));
                let k = choose|k: int| 0 <= k < init.len() && init[k] == e;
                assert(events[k] == e);
            } else {
                assert(events[events.len() - 1] == e);
            }
        }
        assert forall|i: int| 0 <= i < events.len() && kinds.contains(kind_name((#[trigger] events[i]).1.event))
            implies r.contains(events[i]) by {
            if i < init.len() {
                assert(init[i] == events[i]);
                let j = choose|j: int| 0 <= j < r0.len() && r0[j] == events[i];
                assert(r[j] == r0[j]);
            } else {
                assert(r[r.len() - 1] == events[i]);
            }
        }
    }
}

/// Law: a subscription gets only kept events after its sequence number,
/// only of the kinds it names (any kind when it names none), and every kept
/// Law: each event kind goes by its wire name: `pane_added`,
/// `pane_removed`, `pane_view_patch`, `attention_changed` and
/// `totals_changed`, no two kinds sharing a name. So a subscription that
/// names `attention_changed` gets exactly the attention changes after its
/// sequence number.
pub proof fn law_wire_kind_names(events: Seq<(u64, EventEnvelopeModel)>, after_seq: u64)
    ensures
        forall|e: EventKindModel| #[trigger] kind_name(e) == "pane_added"@ <==> e is PaneAdded,
        forall|e: EventKindModel| #[trigger] kind_name(e) == "pane_removed"@ <==> e is PaneRemoved,
        forall|e: EventKindModel| #[trigger] kind_name(e) == "pane_view_patch"@ <==> e is PaneViewPatch,
        forall|e: EventKindModel| #[trigger] kind_name(e) == "attention_changed"@ <==> e is AttentionChanged,
        forall|e: EventKindModel| #[trigger] kind_name(e) == "totals_changed"@ <==> e is TotalsChanged,
        forall|e: (u64, EventEnvelopeModel)| #[trigger] subscription(events, after_seq, seq!["attention_changed"@]).contains(e)
            ==> events.contains(e) && e.0 > after_seq && e.1.event is AttentionChanged,
        forall|i: int| 0 <= i < events.len() && (#[trigger] events[i]).0 > after_seq && events[i].1.event is AttentionChanged
            ==> subscription(events, after_seq, seq!["attention_changed"@]).contains(events[i]),
{
    reveal_strlit("pane_added");
    reveal_strlit("pane_removed");
    reveal_strlit("pane_view_patch");
    reveal_strlit("attention_changed");
    reveal_strlit("totals_changed");
    assert("pane_added"@[5] != "pane_removed"@[5]);
    assert("pane_added"@.len() != "pane_view_patch"@.len());
    assert("pane_added"@.len() != "attention_changed"@.len());
    assert("pane_added"@.len() != "totals_changed"@.len());
    assert("pane_removed"@.len() != "pane_view_patch"@.len());
    assert("pane_removed"@.len() != "attention_changed"@.len());
    assert("pane_removed"@[0] != "totals_changed"@[0]);
    assert("pane_view_patch"@.len() != "attention_changed"@.len());
    assert("pane_view_patch"@[0] != "totals_changed"@[0]);
    assert("attention_changed"@.len() != "totals_changed"@.len());
    law_subscription(events, after_seq, seq!["attention_changed"@]);
    let k = seq!["attention_changed"@];
    assert forall|e: EventKindModel| k.contains(#[trigger] kind_name(e)) <==> e is AttentionChanged by {
        if k.contains(kind_name(e)) {
            let j = choose|j: int| 0 <= j < k.len() && k[j] == kind_name(e);
            assert(j == 0);
        }
        if e is AttentionChanged {
            assert(k[0] == kind_name(e));
        }
    }
}

/// event after its sequence number of such a kind.
pub proof fn law_subscription(events: Seq<(u64, EventEnvelopeModel)>, after_seq: u64, kinds: Seq<Seq<char>>)
    ensures
        kinds.len() == 0 ==> subscription(events, after_seq, kinds) == after(events, after_seq),
        forall|e: (u64, EventEnvelopeModel)| #[trigger] subscription(events, after_seq, kinds).contains(e)
            ==> events.contains(e) && e.0 > after_seq && (kinds.len() == 0 || kinds.contains(kind_name(e.1.event))),
        forall|i: int| 0 <= i < events.len() && (#[trigger] events[i]).0 > after_seq
            && (kinds.len() == 0 || kinds.contains(kind_name(events[i].1.event)))
            ==> subscription(events, after_seq, kinds).contains(events[i]),
{
    let p = |e: (u64, EventEnvelopeModel)| e.0 > after_seq;
    let a = after(events, after_seq);
    assert(a == events.filter(p));
    lemma_of_kinds_members(a, kinds);
    assert forall|i: int| 0 <= i < events.len() && (#[trigger] events[i]).0 > after_seq
        implies a.contains(events[i]) by {
        events.lemma_filter_contains(p, i);
    }
    assert forall|e: (u64, EventEnvelopeModel)| #[trigger] a.contains(e) implies events.contains(e) && e.0 > after_seq by {
        let j = choose|j: int| 0 <= j < a.len() && a[j] == e;
        events.lemma_filter_pred(p, j);
        events.lemma_filter_contains_rev(p, e);
    }
    if kinds.len() > 0 {
        assert forall|i: int| 0 <= i < events.len() && (#[trigger] events[i]).0 > after_seq
            && kinds.contains(kind_name(events[i].1.event))
            implies of_kinds(a, kinds).contains(events[i]) by {
            assert(a.contains(events[i]));
            let j = choose|j: int| 0 <= j < a.len() && a[j] == events[i];
            assert(of_kinds(a, kinds).contains(a[j]));
        }
    }
}

// ── Framing JSON-RPC lines ───────────────────────────────────────────

/// Decimal text of an integer, with a leading `-` when negative.
pub open spec fn int_text(n: int) -> Seq<char> {
    if n < 0 { "-"@ + dec((-n) as nat) } else { dec(n as nat) }
}

/// `int_text` in executable code.
fn int_decimal(n: i32) -> (r: String)
    ensures r@ == int_text(n as int),
{
    if n < 0 {
        let m: i64 = n as i64;
        let a: u64 = (-m) as u64;
        String::from_str("-").concat(decimal(a).as_str())
    } else {
        decimal(n as u64)
    }
}

/// The reply line to request `id` carrying `result`, given as JSON text.
pub open spec fn response_text(id: Seq<char>, result: Seq<char>) -> Seq<char> {
    "{\"id\":"@ + quoted(id) + ",\"result\":"@ + result + "}"@
}

/// The error reply line to request `id`.
pub open spec fn error_text(id: Seq<char>, code: int, message: Seq<char>) -> Seq<char> {
    "{\"error\":{\"code\":"@ + int_text(code) + ",\"message\":"@ + quoted(message) + "},\"id\":"@
        + quoted(id) + "}"@
}

/// Appends the JSON string literal of `s`.
fn write_quoted(s: &str, out: &mut String)
    ensures final(out)@ == old(out)@ + quoted(s@),
{
    crate::text::push_char(out, '"');
    write_escaped(s, out);
    crate::text::push_char(out, '"');
    assert(out@ =~= old(out)@ + quoted(s@));
}

/// Frames a reply: `{"id":<id>,"result":<result_json>}`.
pub fn json_response(id: &str, result_json: &str) -> (r: String)
    ensures r@ == response_text(id@, result_json@),
{
    let mut out = String::from_str("{\"id\":");
    write_quoted(id, &mut out);
    out.append(",\"result\":");
    out.append(result_json);
    out.append("}");
    assert(out@ =~= response_text(id@, result_json@));
    out
}

/// Frames an error reply: `{"error":{"code":<code>,"message":<message>},"id":<id>}`.
pub fn json_error(id: &str, code: i32, message: &str) -> (r: String)
    ensures r@ == error_text(id@, code as int, message@),
{
    let mut out = String::from_str("{\"error\":{\"code\":");
    let c = int_decimal(code);
    out.append(c.as_str());
    out.append(",\"message\":");
    write_quoted(message, &mut out);
    out.append("},\"id\":");
    write_quoted(id, &mut out);
    out.append("}");
    assert(out@ =~= error_text(id@, code as int, message@));
    out
}

/// The id of a request line, given the line parsed as JSON when it is
/// JSON: its string `id`, else `unknown`.
pub open spec fn request_id_of(request: Option<JsonValue>) -> Seq<char> {
    match request {
        Some(v) => match json_str(json_get(v, "id"@)) {
            Some(id) => id,
            None => "unknown"@,
        },
        None => "unknown"@,
    }
}

/// The id to answer a request line with, as `request_id_of` says.
pub fn request_id(request: Option<&JsonValue>) -> (r: String)
    ensures r@ == request_id_of(match request { Some(v) => Some(*v), None => None }),
{
    match request {
        Some(v) => match v.get("id") {
            Some(x) => match x.as_str() {
                Some(id) => id.to_owned(),
                None => String::from_str("unknown"),
            },
            None => String::from_str("unknown"),
        },
        None => String::from_str("unknown"),
    }
}

/// The request line for `method` with `params`.
pub open spec fn request_text(id: Seq<char>, method: Seq<char>, params: JsonValue) -> Seq<char> {
    "{\"id\":"@ + quoted(id) + ",\"method\":"@ + quoted(method) + ",\"params\":"@
        + json_text(params) + "}"@
}

/// Frames a request: `{"id":<id>,"method":<method>,"params":<params>}`.
pub fn request_line(id: &str, method: &str, params: &JsonValue) -> (r: String)
    ensures r@ == request_text(id@, method@, *params),
{
    let mut out = String::from_str("{\"id\":");
    write_quoted(id, &mut out);
    out.append(",\"method\":");
    write_quoted(method, &mut out);
    out.append(",\"params\":");
    write_json(params, &mut out);
    out.append("}");
    assert(out@ =~= request_text(id@, method@, *params));
    out
}

/// What a reply says: an error whose message is `api error: ` and the
/// JSON text of its `error` member, when it has one; else its `result`
/// (`None` standing for a missing result, read as `null`).
pub fn reply_result(reply: &JsonValue) -> (r: Result<Option<&JsonValue>, String>)
    ensures
        match json_get(*reply, "error"@) {
            Some(e) => r matches Err(m) && m@ == "api error: "@ + json_text(e),
            None => r matches Ok(v) && match v {
                Some(x) => json_get(*reply, "result"@) == Some(*x),
                None => json_get(*reply, "result"@) is None,
            },
        },
{
    match reply.get("error") {
        Some(e) => {
            let mut m = String::from_str("api error: ");
            write_json(e, &mut m);
            Err(m)
        },
        None => Ok(reply.get("result")),
    }
}

} // verus!
