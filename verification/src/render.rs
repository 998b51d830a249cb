//! The text rows of the status table and of the terminal dashboard. Costs
//! arrive already formatted (they are printed from floating-point dollars);
//! everything else is composed here.

use vstd::prelude::*;
use vstd::string::*;
use crate::reducer::panes_view;
use crate::schema::pane_view::{AgentStatus, Attention, PaneView, PaneViewModel, Totals, opt_str};
use crate::text::{byte_prefix, dec, decimal, ellipsize, fit_prefix, is_cut, join, join_strings, try_ellipsize, utf8_len};

verus! {

// ── Padding ──────────────────────────────────────────────────────────

/// `n` spaces.
pub open spec fn spaces(n: int) -> Seq<char> {
    Seq::new(if n > 0 { n as nat } else { 0 }, |i: int| ' ')
}

/// `s` padded with spaces on the right to `w` chars (`{:<w}`).
pub open spec fn pad_right(s: Seq<char>, w: int) -> Seq<char> {
    s + spaces(w - s.len())
}

/// `s` padded with spaces on the left to `w` chars (`{:>w}`).
pub open spec fn pad_left(s: Seq<char>, w: int) -> Seq<char> {
    spaces(w - s.len()) + s
}

/// Appends `n` spaces.
fn push_spaces(out: &mut String, n: usize)
    ensures final(out)@ == old(out)@ + spaces(n as int),
{
    let mut i: usize = 0;
    while i < n
        invariant
            i <= n,
            out@ == old(out)@ + spaces(i as int),
        decreases n - i,
    {
        crate::text::push_char(out, ' ');
        assert(out@ =~= old(out)@ + spaces(i + 1));
        i = i + 1;
    }
}

/// Appends `s` padded on the right to `w` chars.
pub fn push_padded(out: &mut String, s: &str, w: usize)
    ensures final(out)@ == old(out)@ + pad_right(s@, w as int),
{
    out.append(s);
    let n = s.unicode_len();
    if n < w {
        push_spaces(out, w - n);
        assert(out@ =~= old(out)@ + pad_right(s@, w as int));
    } else {
        assert(spaces(w - s@.len()) =~= Seq::<char>::empty());
        assert(out@ =~= old(out)@ + pad_right(s@, w as int));
    }
}

/// Appends `s` padded on the left to `w` chars.
pub fn push_padded_left(out: &mut String, s: &str, w: usize)
    ensures final(out)@ == old(out)@ + pad_left(s@, w as int),
{
    let n = s.unicode_len();
    if n < w {
        push_spaces(out, w - n);
    } else {
        assert(spaces(w - s@.len()) =~= Seq::<char>::empty());
    }
    out.append(s);
    assert(out@ =~= old(out)@ + pad_left(s@, w as int));
}

// ── Labels ───────────────────────────────────────────────────────────

/// The attention badge of the status table.
pub open spec fn attention_badge(a: Attention) -> Seq<char> {
    match a {
        Attention::Critical => "🔴 CRIT"@,
        Attention::High => "🟠 HIGH"@,
        Attention::Medium => "🟡 MED "@,
        Attention::Low => "🟢 LOW "@,
        Attention::Nothing => "⚪     "@,
    }
}

fn attention_badge_of(a: Attention) -> (r: &'static str)
    ensures r@ == attention_badge(a),
{
    match a {
        Attention::Critical => "🔴 CRIT",
        Attention::High => "🟠 HIGH",
        Attention::Medium => "🟡 MED ",
        Attention::Low => "🟢 LOW ",
        Attention::Nothing => "⚪     ",
    }
}

/// The status label of the status table.
pub open spec fn status_badge(s: AgentStatus) -> Seq<char> {
    match s {
        AgentStatus::Idle => "💤 idle"@,
        AgentStatus::Working => "⚙️  working"@,
        AgentStatus::Blocked => "🚫 blocked"@,
        AgentStatus::Done => "✅ done"@,
        AgentStatus::Unknown => "❓ unknown"@,
    }
}

fn status_badge_of(s: AgentStatus) -> (r: &'static str)
    ensures r@ == status_badge(s),
{
    match s {
        AgentStatus::Idle => "💤 idle",
        AgentStatus::Working => "⚙️  working",
        AgentStatus::Blocked => "🚫 blocked",
        AgentStatus::Done => "✅ done",
        AgentStatus::Unknown => "❓ unknown",
    }
}

/// The project name of a pane, `-` when it has none.
pub open spec fn project_name(p: PaneViewModel) -> Seq<char> {
    match p.project {
        Some(proj) => match proj.name {
            Some(n) => n,
            None => "-"@,
        },
        None => "-"@,
    }
}

fn project_name_of(p: &PaneView) -> (r: &str)
    ensures r@ == project_name(p@),
{
    match &p.project {
        Some(proj) => match &proj.name {
            Some(n) => n.as_str(),
            None => "-",
        },
        None => "-",
    }
}

/// The model of a pane, `-` when unknown.
pub open spec fn model_name(p: PaneViewModel) -> Seq<char> {
    if p.vitals.model.len() == 0 { "-"@ } else { p.vitals.model }
}

fn model_name_of(p: &PaneView) -> (r: &str)
    ensures r@ == model_name(p@),
{
    if p.vitals.model.as_str().is_empty() { "-" } else { p.vitals.model.as_str() }
}

/// The flag words of a pane, in order.
pub open spec fn flag_words(p: PaneViewModel) -> Seq<Seq<char>> {
    let a: Seq<Seq<char>> = if p.flags.is_blocked { seq!["BLOCKED"@] } else { seq![] };
    let b = if p.flags.is_runaway { a.push("RUNAWAY"@) } else { a };
    let c = if p.flags.awaiting_user_reply { b.push("AWAITS-REPLY"@) } else { b };
    match p.flags.idle_long_secs {
        Some(s) => c.push("IDLE-"@ + dec((s / 60) as nat) + "m"@),
        None => c,
    }
}

/// Law: the flag words name the pane's flags, each once and in a fixed
/// order: `BLOCKED` exactly when it is blocked (and then first), `RUNAWAY`
/// exactly when it runs away (after `BLOCKED`), `AWAITS-REPLY` exactly when
/// it awaits a reply, and one `IDLE-` word exactly when it has been idle
/// long; a pane with none of them prints no flag line.
pub proof fn law_flag_words(p: PaneViewModel, cost: Seq<char>)
    ensures
        flag_words(p).contains("BLOCKED"@) <==> p.flags.is_blocked,
        flag_words(p).contains("RUNAWAY"@) <==> p.flags.is_runaway,
        flag_words(p).contains("AWAITS-REPLY"@) <==> p.flags.awaiting_user_reply,
        p.flags.is_blocked ==> flag_words(p)[0] == "BLOCKED"@,
        p.flags.is_runaway ==> flag_words(p)[if p.flags.is_blocked { 1int } else { 0int }] == "RUNAWAY"@,
        flag_words(p).len() == (if p.flags.is_blocked { 1int } else { 0int })
            + (if p.flags.is_runaway { 1int } else { 0int })
            + (if p.flags.awaiting_user_reply { 1int } else { 0int })
            + (if p.flags.idle_long_secs is Some { 1int } else { 0int }),
        p.flags.idle_long_secs matches Some(secs) ==> flag_words(p).last() == "IDLE-"@ + dec((secs / 60) as nat) + "m"@,
        status_rows(p, cost) matches Some(rows) ==> (rows.len() == 3 <==> (p.flags.is_blocked
            || p.flags.is_runaway || p.flags.awaiting_user_reply || p.flags.idle_long_secs is Some)),
{
    reveal_strlit("BLOCKED");
    reveal_strlit("RUNAWAY");
    reveal_strlit("AWAITS-REPLY");
    reveal_strlit("IDLE-");
    let w = flag_words(p);
    let idle: Seq<Seq<char>> = match p.flags.idle_long_secs {
        Some(s) => seq!["IDLE-"@ + dec((s / 60) as nat) + "m"@],
        None => seq![],
    };
    let a: Seq<Seq<char>> = if p.flags.is_blocked { seq!["BLOCKED"@] } else { seq![] };
    let b: Seq<Seq<char>> = if p.flags.is_runaway { seq!["RUNAWAY"@] } else { seq![] };
    let c: Seq<Seq<char>> = if p.flags.awaiting_user_reply { seq!["AWAITS-REPLY"@] } else { seq![] };
    assert(w =~= a + b + c + idle);
    match p.flags.idle_long_secs {
        Some(s) => {
            let x = "IDLE-"@ + dec((s / 60) as nat) + "m"@;
            assert(x[0] == 'I');
            assert(x != "BLOCKED"@ && x != "RUNAWAY"@ && x != "AWAITS-REPLY"@);
        },
        None => {},
    }
    assert("BLOCKED"@[0] != "RUNAWAY"@[0]);
    assert("BLOCKED"@[0] != "AWAITS-REPLY"@[0]);
    assert("RUNAWAY"@[0] != "AWAITS-REPLY"@[0]);
    assert forall|x: Seq<char>| w.contains(x) <==> (a.contains(x) || b.contains(x) || c.contains(x) || idle.contains(x)) by {
        if w.contains(x) {
            let j = choose|j: int| 0 <= j < w.len() && w[j] == x;
            if j < a.len() {
                assert(a[j] == x);
            } else if j < a.len() + b.len() {
                assert(b[j - a.len()] == x);
            } else if j < a.len() + b.len() + c.len() {
                assert(c[j - a.len() - b.len()] == x);
            } else {
                assert(idle[j - a.len() - b.len() - c.len()] == x);
            }
        }
        if a.contains(x) {
            let j = choose|j: int| 0 <= j < a.len() && a[j] == x;
            assert(w[j] == x);
        }
        if b.contains(x) {
            let j = choose|j: int| 0 <= j < b.len() && b[j] == x;
            assert(w[a.len() + j] == x);
        }
        if c.contains(x) {
            let j = choose|j: int| 0 <= j < c.len() && c[j] == x;
            assert(w[a.len() + b.len() + j] == x);
        }
        if idle.contains(x) {
            let j = choose|j: int| 0 <= j < idle.len() && idle[j] == x;
            assert(w[a.len() + b.len() + c.len() + j] == x);
        }
    }
    if p.flags.is_blocked {
        assert(a.contains("BLOCKED"@)) by { assert(a[0] == "BLOCKED"@); }
        assert(w[0] == "BLOCKED"@);
    }
    if p.flags.is_runaway {
        assert(b.contains("RUNAWAY"@)) by { assert(b[0] == "RUNAWAY"@); }
        assert(w[a.len() as int] == "RUNAWAY"@);
    }
    if p.flags.awaiting_user_reply {
        assert(c.contains("AWAITS-REPLY"@)) by { assert(c[0] == "AWAITS-REPLY"@); }
    }
}

fn flag_words_of(p: &PaneView) -> (r: Vec<String>)
    ensures r@.map_values(|s: String| s@) == flag_words(p@),
{
    let mut out: Vec<String> = Vec::new();
    let ghost v = p@;
    if p.flags.is_blocked {
        out.push(String::from_str("BLOCKED"));
    }
    if p.flags.is_runaway {
        out.push(String::from_str("RUNAWAY"));
    }
    if p.flags.awaiting_user_reply {
        out.push(String::from_str("AWAITS-REPLY"));
    }
    let ghost before = out@;
    match p.flags.idle_long_secs {
        Some(s) => {
            let w = String::from_str("IDLE-").concat(decimal(s / 60).as_str()).concat("m");
            out.push(w);
        },
        None => {},
    }
    assert(out@.map_values(|s: String| s@) =~= flag_words(v));
    out
}

// ── The status table ─────────────────────────────────────────────────

/// The status table's header line, with the total cost as given.
pub open spec fn status_header(t: Totals, cost: Seq<char>) -> Seq<char> {
    "│ "@ + dec(t.pane_count as nat) + " panes  │  "@ + dec(t.working_count as nat) + " working  │  "@
        + dec(t.idle_count as nat) + " idle  │  "@ + dec(t.blocked_count as nat) + " blocked  │  $"@ + cost
        + " total cost  │"@
}

/// Builds the status table's header line.
pub fn status_header_line(t: &Totals, cost: &str) -> (r: String)
    ensures r@ == status_header(*t, cost@),
{
    let mut out = String::from_str("│ ");
    out.append(decimal(t.pane_count as u64).as_str());
    out.append(" panes  │  ");
    out.append(decimal(t.working_count as u64).as_str());
    out.append(" working  │  ");
    out.append(decimal(t.idle_count as u64).as_str());
    out.append(" idle  │  ");
    out.append(decimal(t.blocked_count as u64).as_str());
    out.append(" blocked  │  $");
    out.append(cost);
    out.append(" total cost  │");
    assert(out@ =~= status_header(*t, cost@));
    out
}

/// The tools since the last user message: `+<n> tools`, `-` for none.
pub open spec fn tools_text(p: PaneViewModel) -> Seq<char> {
    if p.vitals_since_last_user.tool_calls > 0 {
        "+"@ + dec(p.vitals_since_last_user.tool_calls as nat) + " tools"@
    } else {
        "-"@
    }
}

/// The last ask: the last user message cut to 57 bytes and "..." when
/// longer than 60 bytes, `-` when there is none; `None` where the cut falls
/// inside a char.
pub open spec fn last_ask_text(p: PaneViewModel) -> Option<Seq<char>> {
    match p.last_user_message {
        Some(m) => ellipsize(m, 60, 57),
        None => Some("-"@),
    }
}

/// The current activity: its snippet cut to 47 bytes and "..." when longer
/// than 50 bytes, `-` when empty; `None` where the cut falls inside a char.
pub open spec fn current_text(p: PaneViewModel) -> Option<Seq<char>> {
    if p.current.snippet.len() == 0 { Some("-"@) } else { ellipsize(p.current.snippet, 50, 47) }
}

/// The lines that the status table prints for a pane (before its blank
/// separator line), with the pane's cost as given; `None` where a cut falls
/// inside a char (where slicing panics).
pub open spec fn status_rows(p: PaneViewModel, cost: Seq<char>) -> Option<Seq<Seq<char>>> {
    match (last_ask_text(p), current_text(p)) {
        (Some(ask), Some(cur)) => {
            let head = (if p.focused { "👁 "@ } else { "   "@ }) + attention_badge(p.flags.attention) + "  "@
                + pad_right(p.pane_id, 20) + " "@ + pad_right(status_badge(p.agent_status), 12) + "  "@
                + pad_right(project_name(p), 16) + "  "@ + pad_right(model_name(p), 20) + "  $"@ + cost + "  "@
                + tools_text(p);
            let activity = "      "@ + pad_right("💬 "@ + ask + "  │  🏃 "@ + cur, 60);
            let words = flag_words(p);
            if words.len() == 0 {
                Some(seq![head, activity])
            } else {
                Some(seq![head, activity, "      🚩 "@ + join(words, " | "@)])
            }
        },
        _ => None,
    }
}

/// Builds the status table's lines for a pane as `status_rows` says.
pub fn try_status_rows(p: &PaneView, cost: &str) -> (r: Option<Vec<String>>)
    ensures
        match r {
            Some(v) => status_rows(p@, cost@) == Some(v@.map_values(|s: String| s@)),
            None => status_rows(p@, cost@) is None,
        },
{
    let ghost v = p@;
    let ask = match &p.last_user_message {
        Some(m) => match try_ellipsize(m.as_str(), 60, 57) {
            Some(a) => a,
            None => { return None; },
        },
        None => String::from_str("-"),
    };
    let cur = if p.current.snippet.as_str().is_empty() {
        String::from_str("-")
    } else {
        match try_ellipsize(p.current.snippet.as_str(), 50, 47) {
            Some(c) => c,
            None => { return None; },
        }
    };
    let mut head = if p.focused { String::from_str("👁 ") } else { String::from_str("   ") };
    head.append(attention_badge_of(p.flags.attention));
    head.append("  ");
    push_padded(&mut head, p.pane_id.as_str(), 20);
    head.append(" ");
    push_padded(&mut head, status_badge_of(p.agent_status), 12);
    head.append("  ");
    push_padded(&mut head, project_name_of(p), 16);
    head.append("  ");
    push_padded(&mut head, model_name_of(p), 20);
    head.append("  $");
    head.append(cost);
    head.append("  ");
    if p.vitals_since_last_user.tool_calls > 0 {
        head.append("+");
        head.append(decimal(p.vitals_since_last_user.tool_calls as u64).as_str());
        head.append(" tools");
    } else {
        head.append("-");
    }
    let ghost h = (if v.focused { "👁 "@ } else { "   "@ }) + attention_badge(v.flags.attention) + "  "@
        + pad_right(v.pane_id, 20) + " "@ + pad_right(status_badge(v.agent_status), 12) + "  "@
        + pad_right(project_name(v), 16) + "  "@ + pad_right(model_name(v), 20) + "  $"@ + cost@ + "  "@
        + tools_text(v);
    assert(head@ =~= h);
    let activity_text = String::from_str("💬 ").concat(ask.as_str()).concat("  │  🏃 ").concat(cur.as_str());
    let mut activity = String::from_str("      ");
    push_padded(&mut activity, activity_text.as_str(), 60);
    let words = flag_words_of(p);
    let mut rows: Vec<String> = Vec::new();
    rows.push(head);
    rows.push(activity);
    if words.len() > 0 {
        let joined = join_strings(&words, " | ");
        rows.push(String::from_str("      🚩 ").concat(joined.as_str()));
    }
    assert(rows@.map_values(|s: String| s@) =~= status_rows(v, cost@).unwrap());
    Some(rows)
}

// ── The dashboard ────────────────────────────────────────────────────

/// The attention badge of the dashboard.
pub open spec fn dash_attention(a: Attention) -> Seq<char> {
    match a {
        Attention::Critical => "🔴 CRIT"@,
        Attention::High => "🟠 HIGH"@,
        Attention::Medium => "🟡 MED "@,
        Attention::Low => "🟢 LOW "@,
        Attention::Nothing => "      "@,
    }
}

fn dash_attention_of(a: Attention) -> (r: &'static str)
    ensures r@ == dash_attention(a),
{
    match a {
        Attention::Critical => "🔴 CRIT",
        Attention::High => "🟠 HIGH",
        Attention::Medium => "🟡 MED ",
        Attention::Low => "🟢 LOW ",
        Attention::Nothing => "      ",
    }
}

/// The status word of the dashboard.
pub open spec fn dash_status(s: AgentStatus) -> Seq<char> {
    match s {
        AgentStatus::Idle => "IDLE"@,
        AgentStatus::Working => " WORK"@,
        AgentStatus::Blocked => "BLOCKED"@,
        AgentStatus::Done => "DONE"@,
        AgentStatus::Unknown => "UNKNOWN"@,
    }
}

fn dash_status_of(s: AgentStatus) -> (r: &'static str)
    ensures r@ == dash_status(s),
{
    match s {
        AgentStatus::Idle => "IDLE",
        AgentStatus::Working => " WORK",
        AgentStatus::Blocked => "BLOCKED",
        AgentStatus::Done => "DONE",
        AgentStatus::Unknown => "UNKNOWN",
    }
}

/// The dashboard's last ask: the last user message, its first 77 bytes when
/// longer than 80, `-` when there is none; `None` where that cut falls
/// inside a char.
pub open spec fn dash_ask(p: PaneViewModel) -> Option<Seq<char>> {
    match p.last_user_message {
        Some(m) => if utf8_len(m) <= 80 {
            Some(m)
        } else if is_cut(m, 77) {
            Some(fit_prefix(m, 77))
        } else {
            None
        },
        None => Some("-"@),
    }
}

/// The dashboard's tool delta: `+<n>t`, `-` for none.
pub open spec fn dash_delta(p: PaneViewModel) -> Seq<char> {
    if p.vitals_since_last_user.tool_calls > 0 {
        "+"@ + dec(p.vitals_since_last_user.tool_calls as nat) + "t"@
    } else {
        "-"@
    }
}

/// The dashboard's line for a pane, with its cost as given; `None` where
/// the cut of the last ask falls inside a char (where slicing panics).
pub open spec fn dash_row(p: PaneViewModel, cost: Seq<char>) -> Option<Seq<char>> {
    match dash_ask(p) {
        Some(ask) => Some((if p.focused { "👁"@ } else { " "@ }) + dash_attention(p.flags.attention) + " "@
            + pad_right(p.pane_id, 18) + " "@ + pad_right(dash_status(p.agent_status), 7) + " "@
            + pad_right(project_name(p), 14) + " "@ + pad_right(model_name(p), 18) + " $"@ + pad_right(cost, 8)
            + " "@ + pad_left(dash_delta(p), 5) + "  "@ + ask),
        None => None,
    }
}

/// Builds the dashboard's line for a pane as `dash_row` says.
pub fn try_dash_row(p: &PaneView, cost: &str) -> (r: Option<String>)
    ensures opt_str(r) == dash_row(p@, cost@),
{
    let ghost v = p@;
    let ask = match &p.last_user_message {
        Some(m) => {
            let (_, _, whole) = byte_prefix(m.as_str(), 80);
            if whole {
                m.clone()
            } else {
                let (head, used, _) = byte_prefix(m.as_str(), 77);
                if used == 77 { head } else { return None; }
            }
        },
        None => String::from_str("-"),
    };
    let delta = if p.vitals_since_last_user.tool_calls > 0 {
        String::from_str("+").concat(decimal(p.vitals_since_last_user.tool_calls as u64).as_str()).concat("t")
    } else {
        String::from_str("-")
    };
    let mut out = if p.focused { String::from_str("👁") } else { String::from_str(" ") };
    out.append(dash_attention_of(p.flags.attention));
    out.append(" ");
    push_padded(&mut out, p.pane_id.as_str(), 18);
    out.append(" ");
    push_padded(&mut out, dash_status_of(p.agent_status), 7);
    out.append(" ");
    push_padded(&mut out, project_name_of(p), 14);
    out.append(" ");
    push_padded(&mut out, model_name_of(p), 18);
    out.append(" $");
    push_padded(&mut out, cost, 8);
    out.append(" ");
    push_padded_left(&mut out, delta.as_str(), 5);
    out.append("  ");
    out.append(ask.as_str());
    assert(out@ =~= dash_row(v, cost@).unwrap());
    Some(out)
}

/// The dashboard's header, with the total cost as given.
pub open spec fn dash_header(t: Totals, cost: Seq<char>) -> Seq<char> {
    "Mission Control — "@ + dec(t.pane_count as nat) + " panes | "@ + dec(t.working_count as nat)
        + " working | "@ + dec(t.idle_count as nat) + " idle | "@ + dec(t.blocked_count as nat)
        + " blocked | $"@ + cost + " total"@
}

/// Builds the dashboard's header.
pub fn dash_header_line(t: &Totals, cost: &str) -> (r: String)
    ensures r@ == dash_header(*t, cost@),
{
    let mut out = String::from_str("Mission Control — ");
    out.append(decimal(t.pane_count as u64).as_str());
    out.append(" panes | ");
    out.append(decimal(t.working_count as u64).as_str());
    out.append(" working | ");
    out.append(decimal(t.idle_count as u64).as_str());
    out.append(" idle | ");
    out.append(decimal(t.blocked_count as u64).as_str());
    out.append(" blocked | $");
    out.append(cost);
    out.append(" total");
    assert(out@ =~= dash_header(*t, cost@));
    out
}

} // verus!
