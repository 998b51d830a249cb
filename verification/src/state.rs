//! State store: a bounded ring of events with a monotonic sequence number.
//! Clients pull `events_after(seq)` to catch up.

use vstd::prelude::*;
use crate::schema::events::{EventEnvelope, EventEnvelopeModel};

verus! {

/// How many events the store keeps.
pub const MAX_EVENTS: usize = 512;

/// The stored events as sequence number and envelope view.
pub open spec fn events_view(v: Seq<(u64, EventEnvelope)>) -> Seq<(u64, EventEnvelopeModel)> {
    v.map_values(|e: (u64, EventEnvelope)| (e.0, e.1@))
}

/// A bounded ring of events. Pushing numbers each event with the next
/// sequence number (1, 2, 3, ...) and keeps the newest `MAX_EVENTS`.
pub struct StateStore {
    next_sequence: u64,
    events: Vec<(u64, EventEnvelope)>,
}

/// The abstract state: the last sequence number handed out and the kept
/// events, oldest first.
pub struct StoreModel {
    pub sequence: u64,
    pub events: Seq<(u64, EventEnvelopeModel)>,
}

impl View for StateStore {
    type V = StoreModel;

    closed spec fn view(&self) -> StoreModel {
        StoreModel { sequence: self.next_sequence, events: events_view(self.events@) }
    }
}

/// The store keeps at most `MAX_EVENTS` events, and they carry the last
/// consecutive sequence numbers, ending with the current one: no gaps.
pub open spec fn store_wf(m: StoreModel) -> bool {
    &&& m.events.len() <= MAX_EVENTS
    &&& m.events.len() <= m.sequence
    &&& forall|i: int| 0 <= i < m.events.len() ==>
        (#[trigger] m.events[i]).0 == m.sequence - m.events.len() + 1 + i
}

/// The newest `n` elements of `s`.
pub open spec fn newest<A>(s: Seq<A>, n: int) -> Seq<A> {
    if s.len() <= n { s } else { s.skip(s.len() - n) }
}

/// `e` carrying sequence number `n`.
pub open spec fn stamped(e: EventEnvelopeModel, n: u64) -> EventEnvelopeModel {
    EventEnvelopeModel { sequence: n, ..e }
}

/// The store after pushing `e`: the next sequence number, and `e`, carrying
/// that number, appended to the events with only the newest `MAX_EVENTS` kept.
pub open spec fn pushed(m: StoreModel, e: EventEnvelopeModel) -> StoreModel {
    let n = (m.sequence + 1) as u64;
    StoreModel {
        sequence: n,
        events: newest(m.events.push((n, stamped(e, n))), MAX_EVENTS as int),
    }
}

/// The kept events with a sequence number above `sequence`, in order.
pub open spec fn after(events: Seq<(u64, EventEnvelopeModel)>, sequence: u64) -> Seq<(u64, EventEnvelopeModel)> {
    events.filter(|e: (u64, EventEnvelopeModel)| e.0 > sequence)
}

impl StateStore {
    #[verifier::type_invariant]
    spec fn inv(self) -> bool {
        store_wf(self@)
    }

    /// An empty store whose current sequence is 0.
    pub fn new() -> (r: Self)
        ensures
            r@.sequence == 0,
            r@.events == Seq::<(u64, EventEnvelopeModel)>::empty(),
            r@ == empty_store(),
            store_wf(r@),
    {
        let r = StateStore { next_sequence: 0, events: Vec::new() };
        assert(events_view(r.events@) =~= Seq::<(u64, EventEnvelopeModel)>::empty());
        r
    }

    /// Numbers `event` with the next sequence number, which the stored
    /// envelope carries in its `sequence` field, and stores it, dropping the
    /// oldest events beyond `MAX_EVENTS`. The sequence number is a `u64`,
    /// which must not be exhausted.
    pub fn push(&mut self, event: EventEnvelope)
        requires old(self)@.sequence < u64::MAX,
        ensures
            final(self)@ == pushed(old(self)@, event@),
            store_wf(final(self)@),
    {
        proof { use_type_invariant(&*self); }
        let ghost m0 = self@;
        let sequence = self.next_sequence + 1;
        let mut events: Vec<(u64, EventEnvelope)> = Vec::new();
        std::mem::swap(&mut events, &mut self.events);
        let mut event = event;
        event.sequence = sequence;
        events.push((sequence, event));
        let ghost pre = events@;
        assert(events_view(pre) =~= m0.events.push((sequence, event@)));
        if events.len() > MAX_EVENTS {
            events.remove(0);
            assert(events_view(events@) =~= events_view(pre).skip(1));
        }
        *self = StateStore { next_sequence: sequence, events };
        proof { use_type_invariant(&*self); }
    }

    /// The kept events with a sequence number above `sequence`, oldest first.
    pub fn events_after(&self, sequence: u64) -> (r: Vec<(u64, EventEnvelope)>)
        ensures
            events_view(r@) == after(self@.events, sequence),
            store_wf(self@),
    {
        proof { use_type_invariant(self); }
        let ghost ev = self@.events;
        let ghost pred = |e: (u64, EventEnvelopeModel)| e.0 > sequence;
        let mut out: Vec<(u64, EventEnvelope)> = Vec::new();
        let mut i: usize = 0;
        while i < self.events.len()
            invariant
                ev == events_view(self.events@),
                pred == (|e: (u64, EventEnvelopeModel)| e.0 > sequence),
                i <= self.events@.len(),
                events_view(out@) == ev.take(i as int).filter(pred),
            decreases self.events.len() - i,
        {
            proof {
                assert(ev.take(i + 1).drop_last() =~= ev.take(i as int));
                assert(ev.take(i + 1).last() == ev[i as int]);
                assert(ev.take(i + 1).filter(pred) == (if pred(ev[i as int]) {
                    ev.take(i as int).filter(pred).push(ev[i as int])
                } else {
                    ev.take(i as int).filter(pred)
                })) by {
                    reveal_with_fuel(Seq::filter, 1);
                }
                assert(ev[i as int].0 == self.events@[i as int].0);
            }
            let e = &self.events[i];
            if e.0 > sequence {
                out.push((e.0, e.1.clone()));
                assert(events_view(out@) =~= ev.take(i as int).filter(pred).push(ev[i as int]));
                assert(pred(ev[i as int]));
                assert(events_view(out@) == ev.take(i + 1).filter(pred));
            } else {
                assert(!pred(ev[i as int]));
                assert(events_view(out@) == ev.take(i + 1).filter(pred));
            }
            i = i + 1;
        }
        assert(ev.take(self.events@.len() as int) =~= ev);
        out
    }

    /// The last sequence number handed out (0 before any push).
    pub fn current_sequence(&self) -> (r: u64)
        ensures
            r == self@.sequence,
            store_wf(self@),
    {
        proof { use_type_invariant(self); }
        self.next_sequence
    }
}

/// Filtering a sequence whose first `k` elements fail the predicate and whose
/// other elements pass it drops exactly the first `k`.
proof fn lemma_filter_suffix<A>(s: Seq<A>, p: spec_fn(A) -> bool, k: int)
    requires
        0 <= k <= s.len(),
        forall|i: int| 0 <= i < k ==> !p(#[trigger] s[i]),
        forall|i: int| k <= i < s.len() ==> p(#[trigger] s[i]),
    ensures s.filter(p) == s.skip(k),
    decreases s.len(),
{
    reveal_with_fuel(Seq::filter, 1);
    if s.len() == 0 {
        assert(s.skip(k) =~= s);
    } else if k == s.len() {
        lemma_filter_suffix(s.drop_last(), p, k - 1);
        assert(!p(s[k - 1]));
        assert(s.skip(k) =~= Seq::<A>::empty());
        assert(s.drop_last().skip(k - 1) =~= Seq::<A>::empty());
    } else {
        lemma_filter_suffix(s.drop_last(), p, k);
        assert(s.skip(k) =~= s.drop_last().skip(k).push(s.last()));
    }
}

/// Law: a client that read up to sequence `n` and is at most `MAX_EVENTS`
/// behind gets every later event, numbered `n + 1, n + 2, ...` up to the
/// current sequence, with no gaps.
pub proof fn law_catch_up_without_gaps(m: StoreModel, n: u64)
    requires
        store_wf(m),
        m.sequence - m.events.len() <= n <= m.sequence,
    ensures
        after(m.events, n).len() == m.sequence - n,
        forall|k: int| 0 <= k < after(m.events, n).len() ==> (#[trigger] after(m.events, n)[k]).0 == n + 1 + k,
        after(m.events, n) == m.events.skip(n - (m.sequence - m.events.len())),
{
    let base = m.sequence - m.events.len();
    let k = n - base;
    let p = |e: (u64, EventEnvelopeModel)| e.0 > n;
    assert forall|i: int| 0 <= i < k implies !p(#[trigger] m.events[i]) by {
        assert(m.events[i].0 == base + 1 + i);
    }
    assert forall|i: int| k <= i < m.events.len() implies p(#[trigger] m.events[i]) by {
        assert(m.events[i].0 == base + 1 + i);
    }
    lemma_filter_suffix(m.events, p, k);
    assert forall|j: int| 0 <= j < after(m.events, n).len() implies (#[trigger] after(m.events, n)[j]).0 == n + 1 + j by {
        assert(after(m.events, n)[j] == m.events[k + j]);
    }
}

/// Law: pushing keeps the store well formed, hands out the next sequence
/// number, and a reader that was current before the push gets exactly the
/// pushed event under that number.
pub proof fn law_read_after_push(m: StoreModel, e: EventEnvelopeModel)
    requires
        store_wf(m),
        m.sequence < u64::MAX,
    ensures
        store_wf(pushed(m, e)),
        pushed(m, e).sequence == m.sequence + 1,
        after(pushed(m, e).events, m.sequence) == seq![((m.sequence + 1) as u64, stamped(e, (m.sequence + 1) as u64))],
{
    let m2 = pushed(m, e);
    let n = (m.sequence + 1) as u64;
    let full = m.events.push((n, stamped(e, n)));
    assert forall|i: int| 0 <= i < full.len() implies (#[trigger] full[i]).0 == m.sequence + 1 - full.len() + 1 + i by {
        if i < m.events.len() {
            assert(full[i] == m.events[i]);
        }
    }
    if full.len() > MAX_EVENTS {
        assert forall|i: int| 0 <= i < m2.events.len() implies (#[trigger] m2.events[i]).0 == m2.sequence - m2.events.len() + 1 + i by {
            assert(m2.events[i] == full[i + 1]);
        }
    }
    assert(store_wf(m2));
    law_catch_up_without_gaps(m2, m.sequence);
    assert(m2.events.skip(m.sequence - (m2.sequence - m2.events.len())) =~= seq![(n, stamped(e, n))]);
}

/// Law: a client that is current gets nothing new.
pub proof fn law_current_reader_is_idle(m: StoreModel)
    requires store_wf(m),
    ensures after(m.events, m.sequence) == Seq::<(u64, EventEnvelopeModel)>::empty(),
{
    law_catch_up_without_gaps(m, m.sequence);
}

/// The empty store that `StateStore::new` makes.
pub open spec fn empty_store() -> StoreModel {
    StoreModel { sequence: 0, events: Seq::<(u64, EventEnvelopeModel)>::empty() }
}

/// The store after pushing each of `es`, in order.
pub open spec fn push_seq(m: StoreModel, es: Seq<EventEnvelopeModel>) -> StoreModel
    decreases es.len(),
{
    if es.len() == 0 {
        m
    } else {
        pushed(push_seq(m, es.drop_last()), es.last())
    }
}

/// Law: the sequence number counts the pushes: each push raises it by
/// exactly one, whatever the ring drops, and reads leave it alone.
pub proof fn law_sequence_counts_pushes(m: StoreModel, es: Seq<EventEnvelopeModel>)
    requires m.sequence + es.len() <= u64::MAX,
    ensures push_seq(m, es).sequence == m.sequence + es.len(),
    decreases es.len(),
{
    if es.len() > 0 {
        law_sequence_counts_pushes(m, es.drop_last());
    }
}

/// Law: after pushing `e_1, ..., e_n` into a new store, the current
/// sequence is `n` and the store holds the newest `min(n, MAX_EVENTS)`
/// events, oldest first, the `k`-th pushed one numbered `k` and carrying
/// `k` as its sequence.
pub proof fn law_ring_after_pushes(es: Seq<EventEnvelopeModel>)
    requires es.len() <= u64::MAX,
    ensures
        push_seq(empty_store(), es).sequence == es.len(),
        store_wf(push_seq(empty_store(), es)),
        push_seq(empty_store(), es).events.len() == if es.len() <= MAX_EVENTS { es.len() as int } else { MAX_EVENTS as int },
        forall|i: int| 0 <= i < push_seq(empty_store(), es).events.len() ==> {
            let k = es.len() - push_seq(empty_store(), es).events.len() + 1 + i;
            #[trigger] push_seq(empty_store(), es).events[i] == (k as u64, stamped(es[k - 1], k as u64))
        },
    decreases es.len(),
{
    let m = push_seq(empty_store(), es);
    if es.len() == 0 {
        assert(store_wf(m));
    } else {
        let init = es.drop_last();
        law_ring_after_pushes(init);
        let mm = push_seq(empty_store(), init);
        let n = es.len();
        let l = mm.events.len();
        law_read_after_push(mm, es.last());
        let full = mm.events.push((n as u64, stamped(es.last(), n as u64)));
        assert forall|i: int| 0 <= i < m.events.len() implies {
            let k = n - m.events.len() + 1 + i;
            #[trigger] m.events[i] == (k as u64, stamped(es[k - 1], k as u64))
        } by {
            let k = n - m.events.len() + 1 + i;
            let j = if full.len() <= MAX_EVENTS { i } else { i + 1 };
            assert(m.events[i] == full[j]);
            if j < l {
                assert(full[j] == mm.events[j]);
                assert(init[k - 1] == es[k - 1]);
            }
        }
    }
}

} // verus!
