//! The daemon's decisions: which events a change of panes emits, which
//! session files and directories a poll reads, and where the API socket
//! lives. Reading files, talking to herdr and sleeping stay with the caller.

use vstd::prelude::*;
use crate::json::str_eq;
use crate::reducer::panes_view;
use crate::schema::events::{EventEnvelope, EventEnvelopeModel, EventKind, EventKindModel, PaneViewPatch, PaneViewPatchModel, PROTOCOL_VERSION};
use crate::schema::pane_view::{CurrentActivity, PaneView, PaneViewModel, Totals, clone_opt_str, opt_str};
use crate::state::{MAX_EVENTS, StateStore, StoreModel, after, law_catch_up_without_gaps, law_read_after_push, pushed, stamped, store_wf};
use crate::time::{Timestamp, utc_now};
use crate::config::{join_path, path_join};
use crate::path_map::PathMap;
use crate::schema::project::ProjectProfile;
use crate::schema::raw_signals::{HerdrPaneSnapshot, PiSignals};

verus! {

// ── Events of one poll ───────────────────────────────────────────────

/// Whether some pane has id `id`.
pub open spec fn has_pane(panes: Seq<PaneViewModel>, id: Seq<char>) -> bool {
    exists|i: int| 0 <= i < panes.len() && (#[trigger] panes[i]).pane_id == id
}

/// A `PaneAdded` for each new pane whose id was not there before, in order.
pub open spec fn added(prev: Seq<PaneViewModel>, next: Seq<PaneViewModel>) -> Seq<EventKindModel>
    decreases next.len(),
{
    if next.len() == 0 {
        seq![]
    } else {
        let init = added(prev, next.drop_last());
        if has_pane(prev, next.last().pane_id) {
            init
        } else {
            init.push(EventKindModel::PaneAdded(next.last()))
        }
    }
}

/// A `PaneRemoved` for each old pane whose id is gone, in order.
pub open spec fn removed(prev: Seq<PaneViewModel>, next: Seq<PaneViewModel>) -> Seq<EventKindModel>
    decreases prev.len(),
{
    if prev.len() == 0 {
        seq![]
    } else {
        let init = removed(prev.drop_last(), next);
        if has_pane(next, prev.last().pane_id) {
            init
        } else {
            init.push(EventKindModel::PaneRemoved { pane_id: prev.last().pane_id })
        }
    }
}

/// The last pane with id `id` (the one a map keyed by id keeps).
pub open spec fn last_with_id(panes: Seq<PaneViewModel>, id: Seq<char>) -> Option<PaneViewModel>
    decreases panes.len(),
{
    if panes.len() == 0 {
        None
    } else if panes.last().pane_id == id {
        Some(panes.last())
    } else {
        last_with_id(panes.drop_last(), id)
    }
}

/// An `AttentionChanged` for each new pane whose id was there before with
/// another attention, in order.
pub open spec fn attention_changes(prev: Seq<PaneViewModel>, next: Seq<PaneViewModel>) -> Seq<EventKindModel>
    decreases next.len(),
{
    if next.len() == 0 {
        seq![]
    } else {
        let init = attention_changes(prev, next.drop_last());
        let p = next.last();
        match last_with_id(prev, p.pane_id) {
            Some(old) => if old.flags.attention != p.flags.attention {
                init.push(EventKindModel::AttentionChanged {
                    pane_id: p.pane_id,
                    from: Some(old.flags.attention),
                    to: p.flags.attention,
                })
            } else {
                init
            },
            None => init,
        }
    }
}

/// The patch from `old` to `new`: each patchable field that changed, with
/// its new value; the others unset.
pub open spec fn patch_of(old: PaneViewModel, new: PaneViewModel) -> PaneViewPatchModel {
    PaneViewPatchModel {
        agent_status: if old.agent_status != new.agent_status { Some(new.agent_status) } else { None },
        focused: if old.focused != new.focused { Some(new.focused) } else { None },
        current: if old.current != new.current { Some(new.current) } else { None },
        vitals_since_last_user: if old.vitals_since_last_user != new.vitals_since_last_user {
            Some(new.vitals_since_last_user)
        } else {
            None
        },
        flags: if old.flags != new.flags { Some(new.flags) } else { None },
        last_user_message: if old.last_user_message != new.last_user_message {
            Some(new.last_user_message)
        } else {
            None
        },
    }
}

/// Whether a patch sets no field.
pub open spec fn patch_is_empty(p: PaneViewPatchModel) -> bool {
    &&& p.agent_status is None
    &&& p.focused is None
    &&& p.current is None
    &&& p.vitals_since_last_user is None
    &&& p.flags is None
    &&& p.last_user_message is None
}

/// The `PaneViewPatch` event for new pane `p`, when its id was there before
/// and one of its patchable fields changed.
pub open spec fn patch_for(prev: Seq<PaneViewModel>, p: PaneViewModel) -> Option<EventKindModel> {
    match last_with_id(prev, p.pane_id) {
        Some(old) => if !patch_is_empty(patch_of(old, p)) {
            Some(EventKindModel::PaneViewPatch { pane_id: p.pane_id, patch: patch_of(old, p) })
        } else {
            None
        },
        None => None,
    }
}

/// A `PaneViewPatch` for each new pane whose id was there before with some
/// patchable field changed, in order.
pub open spec fn patches(prev: Seq<PaneViewModel>, next: Seq<PaneViewModel>) -> Seq<EventKindModel>
    decreases next.len(),
{
    if next.len() == 0 {
        seq![]
    } else {
        let init = patches(prev, next.drop_last());
        match patch_for(prev, next.last()) {
            Some(e) => init.push(e),
            None => init,
        }
    }
}

/// A `TotalsChanged` when the totals moved.
pub open spec fn totals_change(prev_totals: Totals, totals: Totals) -> Seq<EventKindModel> {
    if prev_totals != totals { seq![EventKindModel::TotalsChanged { totals }] } else { seq![] }
}

/// The events of a poll that went from `prev` to `next` (and from totals
/// `prev_totals` to `totals`): added panes, removed panes, field patches,
/// attention changes, and the new totals when they changed.
pub open spec fn poll_events(prev: Seq<PaneViewModel>, next: Seq<PaneViewModel>, prev_totals: Totals, totals: Totals) -> Seq<EventKindModel> {
    added(prev, next) + removed(prev, next) + patches(prev, next) + attention_changes(prev, next)
        + totals_change(prev_totals, totals)
}

/// The envelope of an event emitted at `now`, before the store numbers it.
pub open spec fn envelope(kind: EventKindModel, now: Timestamp) -> EventEnvelopeModel {
    EventEnvelopeModel { protocol_version: PROTOCOL_VERSION, sequence: 0, timestamp: now, event: kind }
}

/// The store after pushing the envelopes of `kinds`, in order.
pub open spec fn push_all(m: StoreModel, kinds: Seq<EventKindModel>, now: Timestamp) -> StoreModel
    decreases kinds.len(),
{
    if kinds.len() == 0 {
        m
    } else {
        pushed(push_all(m, kinds.drop_last(), now), envelope(kinds.last(), now))
    }
}

proof fn lemma_push_all_append(m: StoreModel, a: Seq<EventKindModel>, b: Seq<EventKindModel>, now: Timestamp)
    ensures push_all(m, a + b, now) == push_all(push_all(m, a, now), b, now),
    decreases b.len(),
{
    if b.len() == 0 {
        assert(a + b =~= a);
    } else {
        assert((a + b).drop_last() =~= a + b.drop_last());
        lemma_push_all_append(m, a, b.drop_last(), now);
    }
}

proof fn lemma_event_counts(prev: Seq<PaneViewModel>, next: Seq<PaneViewModel>)
    ensures
        added(prev, next).len() <= next.len(),
        removed(prev, next).len() <= prev.len(),
        attention_changes(prev, next).len() <= next.len(),
        patches(prev, next).len() <= next.len(),
    decreases prev.len() + next.len(),
{
    if next.len() > 0 {
        lemma_event_counts(prev, next.drop_last());
    }
    if prev.len() > 0 {
        lemma_event_counts(prev.drop_last(), next);
    }
}

/// Pushes one event emitted at `now`.
fn push_event(state: &mut StateStore, kind: EventKind, now: Timestamp)
    requires old(state)@.sequence < u64::MAX,
    ensures final(state)@ == pushed(old(state)@, envelope(kind@, now)),
{
    state.push(EventEnvelope { protocol_version: PROTOCOL_VERSION, sequence: 0, timestamp: now, event: kind });
}

/// Whether some pane has id `id`.
fn has_pane_id(panes: &Vec<PaneView>, id: &str) -> (r: bool)
    ensures r == has_pane(panes_view(panes@), id@),
{
    let ghost pv = panes_view(panes@);
    let mut i: usize = 0;
    while i < panes.len()
        invariant
            pv == panes_view(panes@),
            i <= panes@.len(),
            forall|j: int| 0 <= j < i ==> (#[trigger] pv[j]).pane_id != id@,
        decreases panes.len() - i,
    {
        if str_eq(panes[i].pane_id.as_str(), id) {
            assert(pv[i as int].pane_id == id@);
            return true;
        }
        i = i + 1;
    }
    false
}

proof fn lemma_last_with_id(panes: Seq<PaneViewModel>, id: Seq<char>, k: int)
    requires
        0 <= k <= panes.len(),
        forall|j: int| k <= j < panes.len() ==> (#[trigger] panes[j]).pane_id != id,
    ensures last_with_id(panes, id) == last_with_id(panes.take(k), id),
    decreases panes.len() - k,
{
    if k < panes.len() {
        assert(panes.drop_last().take(k) =~= panes.take(k));
        lemma_last_with_id(panes.drop_last(), id, k);
    } else {
        assert(panes.take(k) =~= panes);
    }
}

/// The index of the last pane with id `id`.
fn last_pane_with_id(panes: &Vec<PaneView>, id: &str) -> (r: Option<usize>)
    ensures
        match last_with_id(panes_view(panes@), id@) {
            Some(p) => r matches Some(i) && i < panes@.len() && panes@[i as int]@ == p,
            None => r is None,
        },
{
    let ghost pv = panes_view(panes@);
    let mut k: usize = panes.len();
    while k > 0
        invariant
            pv == panes_view(panes@),
            k <= panes@.len(),
            forall|j: int| k <= j < panes@.len() ==> (#[trigger] pv[j]).pane_id != id@,
        decreases k,
    {
        proof { lemma_last_with_id(pv, id@, k as int); }
        let i = k - 1;
        assert(pv.take(k as int).last() == pv[i as int]);
        if str_eq(panes[i].pane_id.as_str(), id) {
            return Some(i);
        }
        assert(pv.take(k as int).drop_last() =~= pv.take(i as int));
        k = i;
    }
    proof { lemma_last_with_id(pv, id@, 0); }
    None
}

/// Pushes the `PaneAdded` events.
fn emit_added(prev: &Vec<PaneView>, next: &Vec<PaneView>, state: &mut StateStore, now: Timestamp)
    requires old(state)@.sequence + next@.len() <= u64::MAX,
    ensures final(state)@ == push_all(old(state)@, added(panes_view(prev@), panes_view(next@)), now),
{
    let ghost pp = panes_view(prev@);
    let ghost np = panes_view(next@);
    let ghost s0 = state@;
    let mut i: usize = 0;
    while i < next.len()
        invariant
            pp == panes_view(prev@),
            np == panes_view(next@),
            i <= next@.len(),
            s0.sequence + next@.len() <= u64::MAX,
            state@ == push_all(s0, added(pp, np.take(i as int)), now),
            state@.sequence == s0.sequence + added(pp, np.take(i as int)).len(),
            added(pp, np.take(i as int)).len() <= i,
        decreases next.len() - i,
    {
        assert(np.take(i + 1).drop_last() =~= np.take(i as int));
        assert(np.take(i + 1).last() == np[i as int]);
        let ghost before = added(pp, np.take(i as int));
        if !has_pane_id(prev, next[i].pane_id.as_str()) {
            push_event(state, EventKind::PaneAdded(next[i].clone()), now);
            assert(added(pp, np.take(i + 1)).drop_last() =~= before);
        }
        i = i + 1;
    }
    assert(np.take(next@.len() as int) =~= np);
}

/// Pushes the `PaneRemoved` events.
fn emit_removed(prev: &Vec<PaneView>, next: &Vec<PaneView>, state: &mut StateStore, now: Timestamp)
    requires old(state)@.sequence + prev@.len() <= u64::MAX,
    ensures final(state)@ == push_all(old(state)@, removed(panes_view(prev@), panes_view(next@)), now),
{
    let ghost pp = panes_view(prev@);
    let ghost np = panes_view(next@);
    let ghost s0 = state@;
    let mut i: usize = 0;
    while i < prev.len()
        invariant
            pp == panes_view(prev@),
            np == panes_view(next@),
            i <= prev@.len(),
            s0.sequence + prev@.len() <= u64::MAX,
            state@ == push_all(s0, removed(pp.take(i as int), np), now),
            state@.sequence == s0.sequence + removed(pp.take(i as int), np).len(),
            removed(pp.take(i as int), np).len() <= i,
        decreases prev.len() - i,
    {
        assert(pp.take(i + 1).drop_last() =~= pp.take(i as int));
        assert(pp.take(i + 1).last() == pp[i as int]);
        let ghost before = removed(pp.take(i as int), np);
        if !has_pane_id(next, prev[i].pane_id.as_str()) {
            push_event(state, EventKind::PaneRemoved { pane_id: prev[i].pane_id.clone() }, now);
            assert(removed(pp.take(i + 1), np).drop_last() =~= before);
        }
        i = i + 1;
    }
    assert(pp.take(prev@.len() as int) =~= pp);
}

/// Pushes the `AttentionChanged` events.
fn emit_attention_changes(prev: &Vec<PaneView>, next: &Vec<PaneView>, state: &mut StateStore, now: Timestamp)
    requires old(state)@.sequence + next@.len() <= u64::MAX,
    ensures final(state)@ == push_all(old(state)@, attention_changes(panes_view(prev@), panes_view(next@)), now),
{
    let ghost pp = panes_view(prev@);
    let ghost np = panes_view(next@);
    let ghost s0 = state@;
    let mut i: usize = 0;
    while i < next.len()
        invariant
            pp == panes_view(prev@),
            np == panes_view(next@),
            i <= next@.len(),
            s0.sequence + next@.len() <= u64::MAX,
            state@ == push_all(s0, attention_changes(pp, np.take(i as int)), now),
            state@.sequence == s0.sequence + attention_changes(pp, np.take(i as int)).len(),
            attention_changes(pp, np.take(i as int)).len() <= i,
        decreases next.len() - i,
    {
        assert(np.take(i + 1).drop_last() =~= np.take(i as int));
        assert(np.take(i + 1).last() == np[i as int]);
        match last_pane_with_id(prev, next[i].pane_id.as_str()) {
            Some(j) => {
                let from = prev[j].flags.attention;
                let to = next[i].flags.attention;
                if from != to {
                    push_event(state, EventKind::AttentionChanged {
                        pane_id: next[i].pane_id.clone(),
                        from: Some(from),
                        to,
                    }, now);
                    assert(attention_changes(pp, np.take(i + 1)).drop_last()
                        =~= attention_changes(pp, np.take(i as int)));
                }
            },
            None => {},
        }
        i = i + 1;
    }
    assert(np.take(next@.len() as int) =~= np);
}

/// Whether two optional strings are equal.
fn opt_str_eq(a: &Option<String>, b: &Option<String>) -> (r: bool)
    ensures r == (opt_str(*a) == opt_str(*b)),
{
    match (a, b) {
        (Some(x), Some(y)) => str_eq(x.as_str(), y.as_str()),
        (None, None) => true,
        _ => false,
    }
}

/// Whether two activities are equal.
fn activity_eq(a: &CurrentActivity, b: &CurrentActivity) -> (r: bool)
    ensures r == (a@ == b@),
{
    a.kind == b.kind && opt_str_eq(&a.tool_name, &b.tool_name) && str_eq(a.snippet.as_str(), b.snippet.as_str())
        && a.started_at == b.started_at
}

/// The patch from `old` to `new` (see `patch_of`), and whether it is empty.
fn patch_between(old: &PaneView, new: &PaneView) -> (r: (PaneViewPatch, bool))
    ensures
        r.0@ == patch_of(old@, new@),
        r.1 == patch_is_empty(patch_of(old@, new@)),
{
    let same_message = opt_str_eq(&old.last_user_message, &new.last_user_message);
    let same_current = activity_eq(&old.current, &new.current);
    let patch = PaneViewPatch {
        agent_status: if old.agent_status != new.agent_status { Some(new.agent_status) } else { None },
        focused: if old.focused != new.focused { Some(new.focused) } else { None },
        current: if !same_current { Some(new.current.clone()) } else { None },
        vitals_since_last_user: if old.vitals_since_last_user != new.vitals_since_last_user {
            Some(new.vitals_since_last_user)
        } else {
            None
        },
        flags: if old.flags != new.flags { Some(new.flags) } else { None },
        last_user_message: if !same_message { Some(clone_opt_str(&new.last_user_message)) } else { None },
    };
    let empty = old.agent_status == new.agent_status && old.focused == new.focused && same_current
        && old.vitals_since_last_user == new.vitals_since_last_user && old.flags == new.flags && same_message;
    (patch, empty)
}

/// Pushes the `PaneViewPatch` events.
fn emit_patches(prev: &Vec<PaneView>, next: &Vec<PaneView>, state: &mut StateStore, now: Timestamp)
    requires old(state)@.sequence + next@.len() <= u64::MAX,
    ensures final(state)@ == push_all(old(state)@, patches(panes_view(prev@), panes_view(next@)), now),
{
    let ghost pp = panes_view(prev@);
    let ghost np = panes_view(next@);
    let ghost s0 = state@;
    let mut i: usize = 0;
    while i < next.len()
        invariant
            pp == panes_view(prev@),
            np == panes_view(next@),
            i <= next@.len(),
            s0.sequence + next@.len() <= u64::MAX,
            state@ == push_all(s0, patches(pp, np.take(i as int)), now),
            state@.sequence == s0.sequence + patches(pp, np.take(i as int)).len(),
            patches(pp, np.take(i as int)).len() <= i,
        decreases next.len() - i,
    {
        assert(np.take(i + 1).drop_last() =~= np.take(i as int));
        assert(np.take(i + 1).last() == np[i as int]);
        match last_pane_with_id(prev, next[i].pane_id.as_str()) {
            Some(j) => {
                let (patch, empty) = patch_between(&prev[j], &next[i]);
                if !empty {
                    push_event(state, EventKind::PaneViewPatch { pane_id: next[i].pane_id.clone(), patch }, now);
                    assert(patches(pp, np.take(i + 1)).drop_last() =~= patches(pp, np.take(i as int)));
                }
            },
            None => {},
        }
        i = i + 1;
    }
    assert(np.take(next@.len() as int) =~= np);
}

/// Records what changed between two polls, stamped `now`: a `PaneAdded`
/// for each new pane id, a `PaneRemoved` for each vanished one, a
/// `PaneViewPatch` for each pane whose patchable fields changed, an
/// `AttentionChanged` for each pane whose attention moved, and a
/// `TotalsChanged` when the totals differ from `prev_totals`.
pub fn emit_events_at(
    prev: &Vec<PaneView>,
    next: &Vec<PaneView>,
    prev_totals: Totals,
    new_totals: Totals,
    state: &mut StateStore,
    now: Timestamp,
)
    requires old(state)@.sequence + prev@.len() + 3 * next@.len() + 1 <= u64::MAX,
    ensures
        final(state)@ == push_all(old(state)@, poll_events(panes_view(prev@), panes_view(next@), prev_totals, new_totals), now),
        final(state)@.sequence == old(state)@.sequence
            + poll_events(panes_view(prev@), panes_view(next@), prev_totals, new_totals).len(),
{
    let ghost pp = panes_view(prev@);
    let ghost np = panes_view(next@);
    let ghost s0 = state@;
    proof { lemma_event_counts(pp, np); }
    emit_added(prev, next, state, now);
    let ghost s1 = state@;
    proof { lemma_push_all_seq(s0, added(pp, np), now); }
    emit_removed(prev, next, state, now);
    let ghost s2 = state@;
    proof { lemma_push_all_seq(s1, removed(pp, np), now); }
    emit_patches(prev, next, state, now);
    let ghost s3 = state@;
    proof { lemma_push_all_seq(s2, patches(pp, np), now); }
    emit_attention_changes(prev, next, state, now);
    let ghost s4 = state@;
    proof { lemma_push_all_seq(s3, attention_changes(pp, np), now); }
    if prev_totals != new_totals {
        push_event(state, EventKind::TotalsChanged { totals: new_totals }, now);
    }
    proof {
        let a = added(pp, np);
        let r = removed(pp, np);
        let q = patches(pp, np);
        let c = attention_changes(pp, np);
        let t = totals_change(prev_totals, new_totals);
        lemma_push_all_append(s0, a, r, now);
        lemma_push_all_append(s0, a + r, q, now);
        lemma_push_all_append(s0, a + r + q, c, now);
        lemma_push_all_append(s0, a + r + q + c, t, now);
        assert(push_all(s0, a + r + q + c, now) == s4);
        if t.len() > 0 {
            assert(t.drop_last() =~= Seq::<EventKindModel>::empty());
            assert(push_all(s4, t.drop_last(), now) == s4);
        } else {
            assert(t =~= Seq::<EventKindModel>::empty());
        }
        assert(poll_events(pp, np, prev_totals, new_totals) == a + r + q + c + t);
        lemma_push_all_seq(s0, poll_events(pp, np, prev_totals, new_totals), now);
    }
}

proof fn lemma_push_all_seq(m: StoreModel, kinds: Seq<EventKindModel>, now: Timestamp)
    requires m.sequence + kinds.len() <= u64::MAX,
    ensures push_all(m, kinds, now).sequence == m.sequence + kinds.len(),
    decreases kinds.len(),
{
    if kinds.len() > 0 {
        lemma_push_all_seq(m, kinds.drop_last(), now);
    }
}

/// `emit_events_at`, stamped with the current time.
pub fn emit_events(prev: &Vec<PaneView>, next: &Vec<PaneView>, prev_totals: Totals, new_totals: Totals, state: &mut StateStore)
    requires old(state)@.sequence + prev@.len() + 3 * next@.len() + 1 <= u64::MAX,
    ensures
        exists|now: Timestamp| final(state)@
            == push_all(old(state)@, poll_events(panes_view(prev@), panes_view(next@), prev_totals, new_totals), now),
{
    let now = utc_now();
    emit_events_at(prev, next, prev_totals, new_totals, state, now);
}

/// The envelopes of `kinds` as the store numbers them after sequence `base`.
pub open spec fn numbered(base: u64, kinds: Seq<EventKindModel>, now: Timestamp) -> Seq<(u64, EventEnvelopeModel)> {
    Seq::new(kinds.len(), |i: int| ((base + 1 + i) as u64, stamped(envelope(kinds[i], now), (base + 1 + i) as u64)))
}

proof fn lemma_push_all_tail(m: StoreModel, kinds: Seq<EventKindModel>, now: Timestamp)
    requires
        store_wf(m),
        m.sequence + kinds.len() <= u64::MAX,
        kinds.len() <= MAX_EVENTS,
    ensures
        store_wf(push_all(m, kinds, now)),
        push_all(m, kinds, now).sequence == m.sequence + kinds.len(),
        push_all(m, kinds, now).events.len() >= kinds.len(),
        forall|i: int| 0 <= i < kinds.len() ==>
            (#[trigger] push_all(m, kinds, now).events[push_all(m, kinds, now).events.len() - kinds.len() + i])
                == ((m.sequence + 1 + i) as u64, stamped(envelope(kinds[i], now), (m.sequence + 1 + i) as u64)),
    decreases kinds.len(),
{
    if kinds.len() > 0 {
        let init = kinds.drop_last();
        lemma_push_all_tail(m, init, now);
        let mm = push_all(m, init, now);
        let e = envelope(kinds.last(), now);
        law_read_after_push(mm, e);
        let m2 = pushed(mm, e);
        assert(m2 == push_all(m, kinds, now));
        let full = mm.events.push(((mm.sequence + 1) as u64, stamped(e, (mm.sequence + 1) as u64)));
        let k = kinds.len();
        let l = mm.events.len();
        assert forall|i: int| 0 <= i < k implies
            (#[trigger] m2.events[m2.events.len() - k + i]) == ((m.sequence + 1 + i) as u64, stamped(envelope(kinds[i], now), (m.sequence + 1 + i) as u64)) by {
            if full.len() <= MAX_EVENTS {
                assert(m2.events == full);
                if i < k - 1 {
                    assert(full[l + 1 - k + i] == mm.events[l - (k - 1) + i]);
                    assert(init[i] == kinds[i]);
                }
            } else {
                assert(m2.events == full.skip(1));
                assert(m2.events[m2.events.len() - k + i] == full[l + 1 - k + i]);
                if i < k - 1 {
                    assert(full[l + 1 - k + i] == mm.events[l - (k - 1) + i]);
                    assert(init[i] == kinds[i]);
                }
            }
        }
    }
}

/// Law: after a poll, a reader that was current before it reads back
/// exactly the poll's events, in order, numbered from the next sequence
/// number on, as long as the poll emitted at most `MAX_EVENTS` events.
pub proof fn law_poll_read_back(m: StoreModel, kinds: Seq<EventKindModel>, now: Timestamp)
    requires
        store_wf(m),
        m.sequence + kinds.len() <= u64::MAX,
        kinds.len() <= MAX_EVENTS,
    ensures
        store_wf(push_all(m, kinds, now)),
        push_all(m, kinds, now).sequence == m.sequence + kinds.len(),
        after(push_all(m, kinds, now).events, m.sequence) == numbered(m.sequence, kinds, now),
{
    lemma_push_all_tail(m, kinds, now);
    let mm = push_all(m, kinds, now);
    law_catch_up_without_gaps(mm, m.sequence);
    let r = after(mm.events, m.sequence);
    let k = kinds.len() as int;
    assert(r == mm.events.skip(mm.events.len() - k));
    assert forall|i: int| 0 <= i < k implies #[trigger] r[i] == numbered(m.sequence, kinds, now)[i] by {
        assert(r[i] == mm.events[mm.events.len() - k + i]);
    }
    assert(r =~= numbered(m.sequence, kinds, now));
}

/// The `AttentionChanged` event for new pane `p`, when its id was there
/// before with another attention.
pub open spec fn change_for(prev: Seq<PaneViewModel>, p: PaneViewModel) -> Option<EventKindModel> {
    match last_with_id(prev, p.pane_id) {
        Some(old) => if old.flags.attention != p.flags.attention {
            Some(EventKindModel::AttentionChanged {
                pane_id: p.pane_id,
                from: Some(old.flags.attention),
                to: p.flags.attention,
            })
        } else {
            None
        },
        None => None,
    }
}

proof fn lemma_added_members(prev: Seq<PaneViewModel>, next: Seq<PaneViewModel>)
    ensures
        forall|e: EventKindModel| #[trigger] added(prev, next).contains(e) ==> exists|i: int|
            0 <= i < next.len() && e == EventKindModel::PaneAdded(#[trigger] next[i])
            && !has_pane(prev, next[i].pane_id),
        forall|i: int| 0 <= i < next.len() && !has_pane(prev, (#[trigger] next[i]).pane_id)
            ==> added(prev, next).contains(EventKindModel::PaneAdded(next[i])),
    decreases next.len(),
{
    if next.len() > 0 {
        let init = next.drop_last();
        lemma_added_members(prev, init);
        let a = added(prev, next);
        let a0 = added(prev, init);
        assert forall|e: EventKindModel| #[trigger] a.contains(e) implies exists|i: int|
            0 <= i < next.len() && e == EventKindModel::PaneAdded(#[trigger] next[i])
            && !has_pane(prev, next[i].pane_id) by {
            if a0.contains(e) {
                let i = choose|i: int| 0 <= i < init.len() && e == EventKindModel::PaneAdded(#[trigger] init[i])
                    && !has_pane(prev, init[i].pane_id);
                assert(next[i] == init[i]);
            } else {
                let j = choose|j: int| 0 <= j < a.len() && a[j] == e;
                assert(j == a.len() - 1);
                assert(next[next.len() - 1] == next.last());
            }
        }
        assert forall|i: int| 0 <= i < next.len() && !has_pane(prev, (#[trigger] next[i]).pane_id)
            implies a.contains(EventKindModel::PaneAdded(next[i])) by {
            if i < init.len() {
                assert(init[i] == next[i]);
                let j = choose|j: int| 0 <= j < a0.len() && a0[j] == EventKindModel::PaneAdded(init[i]);
                assert(a[j] == a0[j]);
            } else {
                assert(a[a.len() - 1] == EventKindModel::PaneAdded(next[i]));
            }
        }
    }
}

proof fn lemma_removed_members(prev: Seq<PaneViewModel>, next: Seq<PaneViewModel>)
    ensures
        forall|e: EventKindModel| #[trigger] removed(prev, next).contains(e) ==> exists|i: int|
            0 <= i < prev.len() && e == (EventKindModel::PaneRemoved { pane_id: (#[trigger] prev[i]).pane_id })
            && !has_pane(next, prev[i].pane_id),
        forall|i: int| 0 <= i < prev.len() && !has_pane(next, (#[trigger] prev[i]).pane_id)
            ==> removed(prev, next).contains((EventKindModel::PaneRemoved { pane_id: prev[i].pane_id })),
    decreases prev.len(),
{
    if prev.len() > 0 {
        let init = prev.drop_last();
        lemma_removed_members(init, next);
        let a = removed(prev, next);
        let a0 = removed(init, next);
        assert forall|e: EventKindModel| #[trigger] a.contains(e) implies exists|i: int|
            0 <= i < prev.len() && e == (EventKindModel::PaneRemoved { pane_id: (#[trigger] prev[i]).pane_id })
            && !has_pane(next, prev[i].pane_id) by {
            if a0.contains(e) {
                let i = choose|i: int| 0 <= i < init.len()
                    && e == EventKindModel::PaneRemoved { pane_id: (#[trigger] init[i]).pane_id }
                    && !has_pane(next, init[i].pane_id);
                assert(prev[i] == init[i]);
            } else {
                let j = choose|j: int| 0 <= j < a.len() && a[j] == e;
                assert(j == a.len() - 1);
                assert(prev[prev.len() - 1] == prev.last());
            }
        }
        assert forall|i: int| 0 <= i < prev.len() && !has_pane(next, (#[trigger] prev[i]).pane_id)
            implies a.contains(EventKindModel::PaneRemoved { pane_id: prev[i].pane_id }) by {
            if i < init.len() {
                assert(init[i] == prev[i]);
                let j = choose|j: int| 0 <= j < a0.len() && a0[j] == EventKindModel::PaneRemoved { pane_id: init[i].pane_id };
                assert(a[j] == a0[j]);
            } else {
                assert(a[a.len() - 1] == EventKindModel::PaneRemoved { pane_id: prev[i].pane_id });
            }
        }
    }
}

proof fn lemma_change_members(prev: Seq<PaneViewModel>, next: Seq<PaneViewModel>)
    ensures
        forall|e: EventKindModel| #[trigger] attention_changes(prev, next).contains(e) ==> exists|i: int|
            0 <= i < next.len() && change_for(prev, #[trigger] next[i]) == Some(e),
        forall|i: int| 0 <= i < next.len() && ((#[trigger] change_for(prev, next[i])) is Some)
            ==> attention_changes(prev, next).contains(change_for(prev, next[i])->0),
    decreases next.len(),
{
    if next.len() > 0 {
        let init = next.drop_last();
        lemma_change_members(prev, init);
        let a = attention_changes(prev, next);
        let a0 = attention_changes(prev, init);
        assert(next.last() == next[next.len() - 1]);
        assert forall|e: EventKindModel| #[trigger] a.contains(e) implies exists|i: int|
            0 <= i < next.len() && change_for(prev, #[trigger] next[i]) == Some(e) by {
            if a0.contains(e) {
                let i = choose|i: int| 0 <= i < init.len() && change_for(prev, #[trigger] init[i]) == Some(e);
                assert(next[i] == init[i]);
            } else {
                let j = choose|j: int| 0 <= j < a.len() && a[j] == e;
                assert(j == a.len() - 1);
                assert(change_for(prev, next[next.len() - 1]) == Some(e));
            }
        }
        assert forall|i: int| 0 <= i < next.len() && (#[trigger] change_for(prev, next[i])) is Some
            implies a.contains(change_for(prev, next[i])->0) by {
            if i < init.len() {
                assert(init[i] == next[i]);
                assert(change_for(prev, init[i]) is Some);
                let j = choose|j: int| 0 <= j < a0.len() && a0[j] == change_for(prev, init[i])->0;
                assert(a[j] == a0[j]);
            } else {
                assert(a[a.len() - 1] == change_for(prev, next[i])->0);
            }
        }
    }
}

proof fn lemma_patch_members(prev: Seq<PaneViewModel>, next: Seq<PaneViewModel>)
    ensures
        forall|e: EventKindModel| #[trigger] patches(prev, next).contains(e) ==> exists|i: int|
            0 <= i < next.len() && patch_for(prev, #[trigger] next[i]) == Some(e),
        forall|i: int| 0 <= i < next.len() && ((#[trigger] patch_for(prev, next[i])) is Some)
            ==> patches(prev, next).contains(patch_for(prev, next[i])->0),
    decreases next.len(),
{
    if next.len() > 0 {
        let init = next.drop_last();
        lemma_patch_members(prev, init);
        let a = patches(prev, next);
        let a0 = patches(prev, init);
        assert(next.last() == next[next.len() - 1]);
        assert forall|e: EventKindModel| #[trigger] a.contains(e) implies exists|i: int|
            0 <= i < next.len() && patch_for(prev, #[trigger] next[i]) == Some(e) by {
            if a0.contains(e) {
                let i = choose|i: int| 0 <= i < init.len() && patch_for(prev, #[trigger] init[i]) == Some(e);
                assert(next[i] == init[i]);
            } else {
                let j = choose|j: int| 0 <= j < a.len() && a[j] == e;
                assert(j == a.len() - 1);
                assert(patch_for(prev, next[next.len() - 1]) == Some(e));
            }
        }
        assert forall|i: int| 0 <= i < next.len() && (#[trigger] patch_for(prev, next[i])) is Some
            implies a.contains(patch_for(prev, next[i])->0) by {
            if i < init.len() {
                assert(init[i] == next[i]);
                assert(patch_for(prev, init[i]) is Some);
                let j = choose|j: int| 0 <= j < a0.len() && a0[j] == patch_for(prev, init[i])->0;
                assert(a[j] == a0[j]);
            } else {
                assert(a[a.len() - 1] == patch_for(prev, next[i])->0);
            }
        }
    }
}

/// Law: what a poll emits. A `PaneAdded` for exactly the new panes whose id
/// was not there before; a `PaneRemoved` for exactly the old panes whose id
/// is gone; a `PaneViewPatch` for exactly the new panes whose id was there
/// with some patchable field changed (carrying the changed fields); an
/// `AttentionChanged` for exactly the new panes whose id was there with
/// another attention (from the old attention to the new one); and last the
/// new totals exactly when they changed.
pub proof fn law_poll_events(prev: Seq<PaneViewModel>, next: Seq<PaneViewModel>, prev_totals: Totals, totals: Totals)
    ensures
        forall|e: EventKindModel| #[trigger] added(prev, next).contains(e) ==> exists|i: int|
            0 <= i < next.len() && e == EventKindModel::PaneAdded(#[trigger] next[i])
            && !has_pane(prev, next[i].pane_id),
        forall|i: int| 0 <= i < next.len() && !has_pane(prev, (#[trigger] next[i]).pane_id)
            ==> added(prev, next).contains(EventKindModel::PaneAdded(next[i])),
        forall|e: EventKindModel| #[trigger] removed(prev, next).contains(e) ==> exists|i: int|
            0 <= i < prev.len() && e == (EventKindModel::PaneRemoved { pane_id: (#[trigger] prev[i]).pane_id })
            && !has_pane(next, prev[i].pane_id),
        forall|i: int| 0 <= i < prev.len() && !has_pane(next, (#[trigger] prev[i]).pane_id)
            ==> removed(prev, next).contains((EventKindModel::PaneRemoved { pane_id: prev[i].pane_id })),
        forall|e: EventKindModel| #[trigger] patches(prev, next).contains(e) ==> exists|i: int|
            0 <= i < next.len() && patch_for(prev, #[trigger] next[i]) == Some(e),
        forall|i: int| 0 <= i < next.len() && ((#[trigger] patch_for(prev, next[i])) is Some)
            ==> patches(prev, next).contains(patch_for(prev, next[i])->0),
        forall|e: EventKindModel| #[trigger] attention_changes(prev, next).contains(e) ==> exists|i: int|
            0 <= i < next.len() && change_for(prev, #[trigger] next[i]) == Some(e),
        forall|i: int| 0 <= i < next.len() && ((#[trigger] change_for(prev, next[i])) is Some)
            ==> attention_changes(prev, next).contains(change_for(prev, next[i])->0),
        prev_totals != totals ==> poll_events(prev, next, prev_totals, totals).last() == (EventKindModel::TotalsChanged { totals }),
        poll_events(prev, next, prev_totals, totals).len()
            == added(prev, next).len() + removed(prev, next).len() + patches(prev, next).len()
                + attention_changes(prev, next).len() + if prev_totals != totals { 1int } else { 0int },
        prev_totals == totals ==> forall|e: EventKindModel| #[trigger] poll_events(prev, next, prev_totals, totals).contains(e)
            ==> !(e is TotalsChanged),
{
    lemma_added_members(prev, next);
    lemma_removed_members(prev, next);
    lemma_patch_members(prev, next);
    lemma_change_members(prev, next);
    let a = added(prev, next);
    let r = removed(prev, next);
    let q = patches(prev, next);
    let c = attention_changes(prev, next);
    let t = totals_change(prev_totals, totals);
    assert(poll_events(prev, next, prev_totals, totals) == a + r + q + c + t);
    if prev_totals == totals {
        assert(a + r + q + c + t =~= a + r + q + c);
        assert forall|e: EventKindModel| #[trigger] (a + r + q + c).contains(e) implies !(e is TotalsChanged) by {
            let j = choose|j: int| 0 <= j < (a + r + q + c).len() && (a + r + q + c)[j] == e;
            if j < a.len() {
                assert(a.contains(a[j]));
            } else if j < a.len() + r.len() {
                assert(r.contains(r[j - a.len()]));
            } else if j < a.len() + r.len() + q.len() {
                assert(q.contains(q[j - a.len() - r.len()]));
            } else {
                assert(c.contains(c[j - a.len() - r.len() - q.len()]));
            }
        }
    }
}

// ── What a poll reads ────────────────────────────────────────────────

/// Paths as character sequences.
pub open spec fn paths_view(v: Seq<String>) -> Seq<Seq<char>> {
    v.map_values(|s: String| s@)
}

/// The session files that the panes name, each once, in order of first
/// mention.
pub open spec fn session_paths_of(panes: Seq<HerdrPaneSnapshot>) -> Seq<Seq<char>>
    decreases panes.len(),
{
    if panes.len() == 0 {
        seq![]
    } else {
        let init = session_paths_of(panes.drop_last());
        match panes.last().agent_session_path {
            Some(p) => if init.contains(p@) { init } else { init.push(p@) },
            None => init,
        }
    }
}

/// The working directories of the panes, each once, in order of first
/// mention; an empty path names no directory.
pub open spec fn project_dirs_of(panes: Seq<HerdrPaneSnapshot>) -> Seq<Seq<char>>
    decreases panes.len(),
{
    if panes.len() == 0 {
        seq![]
    } else {
        let init = project_dirs_of(panes.drop_last());
        let d = panes.last().cwd@;
        if d.len() == 0 || init.contains(d) { init } else { init.push(d) }
    }
}

/// What was read for `path`: the outcome of the first entry of `paths` that
/// is `path` and whose outcome is a value (a missing outcome counts as
/// nothing read).
pub open spec fn gathered<T>(paths: Seq<Seq<char>>, outcomes: Seq<Option<T>>, path: Seq<char>) -> Option<T>
    decreases paths.len(),
{
    if paths.len() == 0 {
        None
    } else {
        let n = paths.len() - 1;
        match gathered(paths.drop_last(), outcomes, path) {
            Some(v) => Some(v),
            None => if paths[n] == path && n < outcomes.len() { outcomes[n] } else { None },
        }
    }
}

/// Whether `v` holds `s`.
pub(crate) fn contains_path(v: &Vec<String>, s: &str) -> (r: bool)
    ensures r == paths_view(v@).contains(s@),
{
    let ghost pv = paths_view(v@);
    let mut i: usize = 0;
    while i < v.len()
        invariant
            pv == paths_view(v@),
            i <= v@.len(),
            forall|j: int| 0 <= j < i ==> pv[j] != s@,
        decreases v.len() - i,
    {
        if str_eq(v[i].as_str(), s) {
            assert(pv[i as int] == s@);
            return true;
        }
        i = i + 1;
    }
    false
}

/// The session files to read in one poll: those the panes name, each once.
pub fn session_paths(herdr_panes: &Vec<HerdrPaneSnapshot>) -> (r: Vec<String>)
    ensures paths_view(r@) == session_paths_of(herdr_panes@),
{
    let mut out: Vec<String> = Vec::new();
    let mut i: usize = 0;
    while i < herdr_panes.len()
        invariant
            i <= herdr_panes@.len(),
            paths_view(out@) == session_paths_of(herdr_panes@.take(i as int)),
        decreases herdr_panes.len() - i,
    {
        assert(herdr_panes@.take(i + 1).drop_last() =~= herdr_panes@.take(i as int));
        assert(herdr_panes@.take(i + 1).last() == herdr_panes@[i as int]);
        match &herdr_panes[i].agent_session_path {
            Some(p) => {
                if !contains_path(&out, p.as_str()) {
                    let ghost before = out@;
                    out.push(p.clone());
                    assert(paths_view(out@) =~= paths_view(before).push(p@));
                }
            },
            None => {},
        }
        i = i + 1;
    }
    assert(herdr_panes@.take(herdr_panes@.len() as int) =~= herdr_panes@);
    out
}

/// The project directories to scan in one poll: the panes' working
/// directories, each once, none empty.
pub fn project_dirs(herdr_panes: &Vec<HerdrPaneSnapshot>) -> (r: Vec<String>)
    ensures paths_view(r@) == project_dirs_of(herdr_panes@),
{
    let mut out: Vec<String> = Vec::new();
    let mut i: usize = 0;
    while i < herdr_panes.len()
        invariant
            i <= herdr_panes@.len(),
            paths_view(out@) == project_dirs_of(herdr_panes@.take(i as int)),
        decreases herdr_panes.len() - i,
    {
        assert(herdr_panes@.take(i + 1).drop_last() =~= herdr_panes@.take(i as int));
        assert(herdr_panes@.take(i + 1).last() == herdr_panes@[i as int]);
        let d = &herdr_panes[i].cwd;
        if !d.as_str().is_empty() && !contains_path(&out, d.as_str()) {
            let ghost before = out@;
            out.push(d.clone());
            assert(paths_view(out@) =~= paths_view(before).push(d@));
        }
        i = i + 1;
    }
    assert(herdr_panes@.take(herdr_panes@.len() as int) =~= herdr_panes@);
    out
}

/// Keys each read value by its path; the first value read for a path wins.
fn gather<T>(paths: &Vec<String>, outcomes: Vec<Option<T>>) -> (r: PathMap<T>)
    ensures forall|k: Seq<char>| #[trigger] r.lookup(k) == gathered(paths_view(paths@), outcomes@, k),
{
    let ghost pv = paths_view(paths@);
    let ghost all = outcomes@;
    let mut rest = outcomes;
    let mut map: PathMap<T> = PathMap::new();
    let mut i: usize = 0;
    while i < paths.len()
        invariant
            pv == paths_view(paths@),
            i <= paths@.len(),
            rest@ == if i <= all.len() { all.skip(i as int) } else { Seq::<Option<T>>::empty() },
            forall|k: Seq<char>| #[trigger] map.lookup(k) == gathered(pv.take(i as int), all, k),
        decreases paths.len() - i,
    {
        let o = if rest.len() > 0 { rest.remove(0) } else { None };
        assert(o == if i < all.len() { all[i as int] } else { None });
        assert(pv.take(i + 1).drop_last() =~= pv.take(i as int));
        assert(pv.take(i + 1)[i as int] == paths@[i as int]@);
        let ghost m0 = map;
        match o {
            Some(v) => {
                if !map.contains_key(paths[i].as_str()) {
                    map.insert(paths[i].clone(), v);
                }
            },
            None => {},
        }
        assert forall|k: Seq<char>| #[trigger] map.lookup(k) == gathered(pv.take(i + 1), all, k) by {
            assert(m0.lookup(k) == gathered(pv.take(i as int), all, k));
        }
        assert(rest@ =~= if i + 1 <= all.len() { all.skip(i + 1) } else { Seq::<Option<T>>::empty() });
        i = i + 1;
    }
    assert(pv.take(paths@.len() as int) =~= pv);
    map
}

/// The parsed sessions of a poll, keyed by path: `parsed[i]` is what
/// reading `paths[i]` gave (`None` where the file is missing or does not
/// parse).
pub fn collect_pi_signals(paths: &Vec<String>, parsed: Vec<Option<PiSignals>>) -> (r: PathMap<PiSignals>)
    ensures forall|k: Seq<char>| #[trigger] r.lookup(k) == gathered(paths_view(paths@), parsed@, k),
{
    gather(paths, parsed)
}

/// The scanned projects of a poll, keyed by directory: `scanned[i]` is the
/// profile of `dirs[i]` (`None` where the directory does not exist).
pub fn collect_projects(dirs: &Vec<String>, scanned: Vec<Option<ProjectProfile>>) -> (r: PathMap<ProjectProfile>)
    ensures forall|k: Seq<char>| #[trigger] r.lookup(k) == gathered(paths_view(dirs@), scanned@, k),
{
    gather(dirs, scanned)
}

/// Whether some pane names session file `p`.
pub open spec fn names_session(panes: Seq<HerdrPaneSnapshot>, p: Seq<char>) -> bool {
    exists|i: int| 0 <= i < panes.len() && opt_str((#[trigger] panes[i]).agent_session_path) == Some(p)
}

/// Whether some pane works in directory `d`.
pub open spec fn names_dir(panes: Seq<HerdrPaneSnapshot>, d: Seq<char>) -> bool {
    exists|i: int| 0 <= i < panes.len() && (#[trigger] panes[i]).cwd@ == d
}

/// Law: a poll reads each session file that some pane names exactly once,
/// and no other.
pub proof fn law_session_paths(panes: Seq<HerdrPaneSnapshot>)
    ensures
        session_paths_of(panes).no_duplicates(),
        forall|p: Seq<char>| #[trigger] session_paths_of(panes).contains(p) <==> names_session(panes, p),
    decreases panes.len(),
{
    if panes.len() > 0 {
        let init = panes.drop_last();
        law_session_paths(init);
        let r0 = session_paths_of(init);
        assert forall|p: Seq<char>| #[trigger] session_paths_of(panes).contains(p) <==> names_session(panes, p) by {
            if names_session(init, p) {
                let i = choose|i: int| 0 <= i < init.len() && opt_str((#[trigger] init[i]).agent_session_path) == Some(p);
                assert(panes[i] == init[i]);
            }
            if names_session(panes, p) {
                let i = choose|i: int| 0 <= i < panes.len() && opt_str((#[trigger] panes[i]).agent_session_path) == Some(p);
                if i < init.len() {
                    assert(panes[i] == init[i]);
                    assert(names_session(init, p));
                }
            }
            if session_paths_of(panes).contains(p) && !r0.contains(p) {
                let j = choose|j: int| 0 <= j < session_paths_of(panes).len() && session_paths_of(panes)[j] == p;
                assert(panes[panes.len() - 1] == panes.last());
            }
            if r0.contains(p) {
                let j = choose|j: int| 0 <= j < r0.len() && r0[j] == p;
                assert(session_paths_of(panes)[j] == p);
            }
            if opt_str(panes.last().agent_session_path) == Some(p) {
                assert(panes[panes.len() - 1] == panes.last());
                if !r0.contains(p) {
                    let r = session_paths_of(panes);
                    assert(r[r.len() - 1] == p);
                }
            }
        }
    }
}

/// Law: a poll scans each non-empty working directory of the panes exactly
/// once, and no other.
pub proof fn law_project_dirs(panes: Seq<HerdrPaneSnapshot>)
    ensures
        project_dirs_of(panes).no_duplicates(),
        forall|d: Seq<char>| #[trigger] project_dirs_of(panes).contains(d) <==> (d.len() > 0 && names_dir(panes, d)),
    decreases panes.len(),
{
    if panes.len() > 0 {
        let init = panes.drop_last();
        law_project_dirs(init);
        let r0 = project_dirs_of(init);
        let r = project_dirs_of(panes);
        assert forall|d: Seq<char>| #[trigger] r.contains(d) <==> (d.len() > 0 && names_dir(panes, d)) by {
            if names_dir(init, d) {
                let i = choose|i: int| 0 <= i < init.len() && (#[trigger] init[i]).cwd@ == d;
                assert(panes[i] == init[i]);
            }
            if names_dir(panes, d) {
                let i = choose|i: int| 0 <= i < panes.len() && (#[trigger] panes[i]).cwd@ == d;
                if i < init.len() {
                    assert(panes[i] == init[i]);
                    assert(names_dir(init, d));
                } else {
                    assert(panes[i] == panes.last());
                }
            }
            if r.contains(d) && !r0.contains(d) {
                let j = choose|j: int| 0 <= j < r.len() && r[j] == d;
                assert(panes[panes.len() - 1] == panes.last());
            }
            if r0.contains(d) {
                let j = choose|j: int| 0 <= j < r0.len() && r0[j] == d;
                assert(r[j] == d);
            }
            if panes.last().cwd@ == d && d.len() > 0 && !r0.contains(d) {
                assert(r[r.len() - 1] == d);
            }
        }
    }
}

/// Law: when no path is listed twice, the value kept for each listed path
/// is what reading it gave, and nothing is kept for other paths.
pub proof fn law_gathered<T>(paths: Seq<Seq<char>>, outcomes: Seq<Option<T>>)
    requires paths.no_duplicates(),
    ensures
        forall|i: int| 0 <= i < paths.len() ==> #[trigger] gathered(paths, outcomes, paths[i])
            == if i < outcomes.len() { outcomes[i] } else { None },
        forall|k: Seq<char>| !paths.contains(k) ==> #[trigger] gathered(paths, outcomes, k) is None,
    decreases paths.len(),
{
    if paths.len() > 0 {
        let init = paths.drop_last();
        let n = paths.len() - 1;
        law_gathered(init, outcomes);
        assert forall|k: Seq<char>| #[trigger] gathered(paths, outcomes, k) == match gathered(init, outcomes, k) {
            Some(v) => Some(v),
            None => if paths[n] == k && n < outcomes.len() { outcomes[n] } else { None },
        } by {
            assert(paths.drop_last() == init);
        }
        assert forall|i: int| 0 <= i < paths.len() implies #[trigger] gathered(paths, outcomes, paths[i])
            == if i < outcomes.len() { outcomes[i] } else { None } by {
            if i < n {
                assert(init[i] == paths[i]);
                assert(paths[n] != paths[i]);
            } else {
                assert(!init.contains(paths[n])) by {
                    if init.contains(paths[n]) {
                        let j = choose|j: int| 0 <= j < init.len() && init[j] == paths[n];
                        assert(paths[j] == paths[n]);
                    }
                }
            }
        }
        assert forall|k: Seq<char>| !paths.contains(k) implies #[trigger] gathered(paths, outcomes, k) is None by {
            if init.contains(k) {
                let j = choose|j: int| 0 <= j < init.len() && init[j] == k;
                assert(paths[j] == k);
            }
            assert(paths[n] != k);
        }
    }
}

// ── Where things live ────────────────────────────────────────────────

/// The daemon's socket: `mc.sock` in the runtime directory, else in the
/// cache directory, else in `/tmp`.
pub fn daemon_socket_path(runtime_dir: Option<&str>, cache_dir: Option<&str>) -> (r: String)
    ensures
        r@ == path_join(
            match runtime_dir {
                Some(d) => d@,
                None => match cache_dir { Some(d) => d@, None => "/tmp"@ },
            },
            "mc.sock"@,
        ),
{
    let base = match runtime_dir {
        Some(d) => d,
        None => match cache_dir {
            Some(d) => d,
            None => "/tmp",
        },
    };
    join_path(base, "mc.sock")
}

/// Where pi keeps its sessions: `.pi/agent/sessions` under the home
/// directory (`.` when there is none).
pub fn pi_session_dir(home_dir: Option<&str>) -> (r: String)
    ensures
        r@ == path_join(path_join(path_join(
            match home_dir { Some(d) => d@, None => "."@ }, ".pi"@), "agent"@), "sessions"@),
{
    let base = match home_dir {
        Some(d) => d,
        None => ".",
    };
    let a = join_path(base, ".pi");
    let b = join_path(a.as_str(), "agent");
    join_path(b.as_str(), "sessions")
}

} // verus!
