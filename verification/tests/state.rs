use mission_control::schema::events::{EventEnvelope, EventKind, PROTOCOL_VERSION};
use mission_control::schema::pane_view::Totals;
use mission_control::state::{StateStore, MAX_EVENTS};
use mission_control::time::Timestamp;

fn totals(n: usize) -> Totals {
    Totals {
        pane_count: n,
        working_count: 0,
        idle_count: 0,
        blocked_count: 0,
        total_cost_micros: 0,
        total_tool_calls: 0,
    }
}

fn envelope(n: usize) -> EventEnvelope {
    EventEnvelope {
        protocol_version: PROTOCOL_VERSION,
        sequence: 0,
        timestamp: Timestamp { secs: 0, nanos: 0 },
        event: EventKind::TotalsChanged { totals: totals(n) },
    }
}

fn pane_count(e: &EventEnvelope) -> usize {
    match &e.event {
        EventKind::TotalsChanged { totals } => totals.pane_count,
        _ => panic!("unexpected event"),
    }
}

#[test]
fn new_store_is_empty() {
    let s = StateStore::new();
    assert_eq!(s.current_sequence(), 0);
    assert!(s.events_after(0).is_empty());
}

#[test]
fn push_numbers_events_from_one() {
    let mut s = StateStore::new();
    s.push(envelope(7));
    s.push(envelope(8));
    assert_eq!(s.current_sequence(), 2);
    let all = s.events_after(0);
    assert_eq!(all.len(), 2);
    assert_eq!(all[0].0, 1);
    assert_eq!(all[1].0, 2);
    assert_eq!(pane_count(&all[0].1), 7);
    assert_eq!(pane_count(&all[1].1), 8);
    assert_eq!(all[0].1.sequence, 1);
    assert_eq!(all[1].1.sequence, 2);
}

#[test]
fn read_after_push_gives_the_pushed_event() {
    let mut s = StateStore::new();
    s.push(envelope(1));
    let before = s.current_sequence();
    s.push(envelope(42));
    let new = s.events_after(before);
    assert_eq!(new.len(), 1);
    assert_eq!(new[0].0, before + 1);
    assert_eq!(pane_count(&new[0].1), 42);
}

#[test]
fn current_reader_gets_nothing() {
    let mut s = StateStore::new();
    s.push(envelope(1));
    s.push(envelope(2));
    assert!(s.events_after(s.current_sequence()).is_empty());
}

#[test]
fn ring_keeps_the_newest_events_without_gaps() {
    let mut s = StateStore::new();
    for i in 0..(MAX_EVENTS + 10) {
        s.push(envelope(i));
    }
    assert_eq!(s.current_sequence(), (MAX_EVENTS + 10) as u64);
    let all = s.events_after(0);
    assert_eq!(all.len(), MAX_EVENTS);
    assert_eq!(all[0].0, 11);
    for (k, (seq, e)) in all.iter().enumerate() {
        assert_eq!(*seq, 11 + k as u64);
        assert_eq!(e.sequence, *seq);
        assert_eq!(pane_count(e), 10 + k);
    }
    let tail = s.events_after(500);
    assert_eq!(tail.len(), 22);
    assert_eq!(tail[0].0, 501);
}

#[test]
fn the_stored_envelope_carries_its_number() {
    let mut s = StateStore::new();
    let mut e = envelope(3);
    e.sequence = 99;
    s.push(e);
    let all = s.events_after(0);
    assert_eq!(all[0].0, 1);
    assert_eq!(all[0].1.sequence, 1);
}

#[test]
fn reads_leave_the_sequence_alone() {
    let mut s = StateStore::new();
    s.push(envelope(1));
    let _ = s.events_after(0);
    let _ = s.current_sequence();
    assert_eq!(s.current_sequence(), 1);
    s.push(envelope(2));
    assert_eq!(s.current_sequence(), 2);
}
