//! Instants in UTC, held as plain numbers, and the clock and parser that
//! produce them.

use vstd::prelude::*;

verus! {

/// An instant: whole seconds since the Unix epoch and the nanoseconds past
/// that second (as `chrono::DateTime<Utc>` reports them).
#[derive(Clone, Copy, PartialEq, Eq, Debug, Structural)]
pub struct Timestamp {
    pub secs: i64,
    pub nanos: u32,
}

/// Nanoseconds since the epoch.
pub open spec fn epoch_nanos(t: Timestamp) -> int {
    t.secs * 1_000_000_000 + t.nanos
}

/// Whole seconds from `then` to `now`, and 0 when `then` is not earlier
/// (`(now - then).num_seconds().max(0)`).
pub open spec fn elapsed_secs(now: Timestamp, then: Timestamp) -> nat {
    let d = epoch_nanos(now) - epoch_nanos(then);
    if d <= 0 {
        0
    } else {
        (d / 1_000_000_000) as nat
    }
}

/// `elapsed_secs` as a `u64`; instants that `chrono` can represent are never
/// far enough apart to reach the cap.
pub open spec fn elapsed_secs_u64(now: Timestamp, then: Timestamp) -> u64 {
    if elapsed_secs(now, then) > u64::MAX {
        u64::MAX
    } else {
        elapsed_secs(now, then) as u64
    }
}

/// Whole seconds elapsed between two instants.
pub fn secs_between(now: Timestamp, then: Timestamp) -> (r: u64)
    ensures r == elapsed_secs_u64(now, then),
{
    let ds: i128 = now.secs as i128 - then.secs as i128;
    let dn: i128 = now.nanos as i128 - then.nanos as i128;
    assert(-0x1_0000_0000_0000_0000 <= ds <= 0x1_0000_0000_0000_0000);
    assert(ds * 1_000_000_000 <= 0x1_0000_0000_0000_0000 * 1_000_000_000) by (nonlinear_arith)
        requires ds <= 0x1_0000_0000_0000_0000;
    assert(ds * 1_000_000_000 >= -0x1_0000_0000_0000_0000 * 1_000_000_000) by (nonlinear_arith)
        requires ds >= -0x1_0000_0000_0000_0000;
    let d: i128 = ds * 1_000_000_000 + dn;
    assert(d == epoch_nanos(now) - epoch_nanos(then)) by (nonlinear_arith)
        requires ds == now.secs - then.secs, dn == now.nanos - then.nanos,
            d == ds * 1_000_000_000 + dn;
    if d <= 0 {
        0
    } else {
        let q: i128 = d / 1_000_000_000;
        if q > u64::MAX as i128 {
            u64::MAX
        } else {
            q as u64
        }
    }
}

/// Reads the system clock with `std::time::SystemTime::now` and measures it
/// from the Unix epoch with `duration_since`: gives whether the clock is at
/// or after the epoch, and the distance from the epoch (either way) as whole
/// seconds and the nanoseconds past them. The only claim is what
/// `Duration::subsec_nanos` documents, that the nanoseconds are below one
/// second; which instant is read depends on when the call is made.
#[verifier::external_body]
fn read_system_clock() -> (r: (bool, u64, u32))
    ensures r.2 < 1_000_000_000,
{
    match std::time::SystemTime::now().duration_since(std::time::UNIX_EPOCH) {
        Ok(d) => (true, d.as_secs(), d.subsec_nanos()),
        Err(e) => (false, e.duration().as_secs(), e.duration().subsec_nanos()),
    }
}

/// The instant at `secs` seconds and `nanos` nanoseconds after the epoch
/// (`after`) or before it, as whole seconds (rounded down) and nanoseconds;
/// the seconds saturate at the ends of `i64`.
pub open spec fn clock_instant(after: bool, secs: u64, nanos: u32) -> Timestamp {
    if after {
        Timestamp { secs: if secs <= i64::MAX { secs as i64 } else { i64::MAX }, nanos }
    } else {
        Timestamp {
            secs: if secs > i64::MAX {
                i64::MIN
            } else if nanos > 0 {
                (-secs - 1) as i64
            } else {
                (-secs) as i64
            },
            nanos: if nanos > 0 { (1_000_000_000 - nanos) as u32 } else { 0 },
        }
    }
}

/// The instant of a clock reading (see `clock_instant`).
pub fn instant_of_reading(after: bool, secs: u64, nanos: u32) -> (r: Timestamp)
    requires nanos < 1_000_000_000,
    ensures
        r == clock_instant(after, secs, nanos),
        r.nanos < 1_000_000_000,
{
    if after {
        Timestamp { secs: if secs <= 9_223_372_036_854_775_807u64 { secs as i64 } else { i64::MAX }, nanos }
    } else {
        let s: i64 = if secs > 9_223_372_036_854_775_807u64 {
            i64::MIN
        } else if nanos > 0 {
            -(secs as i64) - 1
        } else {
            -(secs as i64)
        };
        Timestamp { secs: s, nanos: if nanos > 0 { 1_000_000_000 - nanos } else { 0 } }
    }
}

/// The current instant in UTC. A clock set before the epoch gives a
/// negative number of seconds; reading it never fails.
pub(crate) fn utc_now() -> (r: Timestamp)
    ensures
        exists|after: bool, secs: u64, nanos: u32| nanos < 1_000_000_000 && r == clock_instant(after, secs, nanos),
        r.nanos < 1_000_000_000,
{
    let (after, secs, nanos) = read_system_clock();
    instant_of_reading(after, secs, nanos)
}

/// The instant that an RFC 3339 text denotes, as
/// `chrono::DateTime::parse_from_rfc3339` reads it; `None` where chrono
/// refuses the text.
pub uninterp spec fn rfc3339_instant(text: Seq<char>) -> Option<Timestamp>;

/// Parses `text` with `chrono::DateTime::parse_from_rfc3339` and gives the
/// instant as seconds and nanoseconds since the epoch. The contract claims
/// only that the result is `rfc3339_instant` of the text (the same text
/// always gives the same result); which instant that is stays chrono's.
#[verifier::external_body]
pub(crate) fn parse_rfc3339(text: &str) -> (r: Option<Timestamp>)
    ensures r == rfc3339_instant(text@),
{
    match chrono::DateTime::parse_from_rfc3339(text) {
        Ok(t) => Some(Timestamp { secs: t.timestamp(), nanos: t.timestamp_subsec_nanos() }),
        Err(_) => None,
    }
}

/// The 128-bit value of the UUID that a text denotes, as `uuid::Uuid`'s
/// `FromStr` reads it; `None` where it refuses the text.
pub uninterp spec fn uuid_value(text: Seq<char>) -> Option<u128>;

/// Parses `text` with `str::parse::<uuid::Uuid>` and gives the UUID's
/// 128-bit value. The contract claims only that the result is `uuid_value`
/// of the text; which value that is stays the `uuid` crate's.
#[verifier::external_body]
pub(crate) fn parse_uuid(text: &str) -> (r: Option<u128>)
    ensures r == uuid_value(text@),
{
    match text.parse::<uuid::Uuid>() {
        Ok(u) => Some(u.as_u128()),
        Err(_) => None,
    }
}

} // verus!
