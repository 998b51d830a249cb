//! The session-mapping report: which panes have a pi session, which
//! session files on disk belong to a pane, and which are orphaned, most
//! recently modified first. Listing the session directory and printing the
//! report stay with the caller.

use vstd::prelude::*;
use vstd::string::*;
use crate::json::{JsonValue, json_get, json_str};
use crate::lines::{chars_of, string_of};
use crate::reducer::panes_view;
use crate::schema::pane_view::{PaneView, PaneViewModel};
use crate::text::{byte_prefix, fit_prefix, is_cut, utf8_len};
use crate::schema::pane_view::opt_str;

verus! {

/// A session file found on disk.
pub struct SessionEntry {
    pub path: String,
    /// Size in KiB, rounded to nearest.
    pub size_kb: u64,
    /// Modification time, seconds since the Unix epoch (0 when unknown).
    pub mtime: i64,
}

/// How the panes and the session files on disk relate. Each list holds
/// indices, into the panes or into the session files.
pub struct DiagnoseReport {
    /// The panes that have a session path, in order.
    pub with_session: Vec<usize>,
    /// The panes that have none, in order.
    pub without_session: Vec<usize>,
    /// The session files that some pane names, in order.
    pub mapped: Vec<usize>,
    /// The session files that no pane names, most recently modified first
    /// (ties in their order).
    pub orphaned: Vec<usize>,
}

/// Indices as integers.
pub open spec fn ints(v: Seq<usize>) -> Seq<int> {
    v.map_values(|i: usize| i as int)
}

/// The indices below `n` that satisfy `p`, ascending.
pub open spec fn indices_where(n: int, p: spec_fn(int) -> bool) -> Seq<int>
    decreases n,
{
    if n <= 0 {
        seq![]
    } else if p(n - 1) {
        indices_where(n - 1, p).push(n - 1)
    } else {
        indices_where(n - 1, p)
    }
}

// ── Paths compared by their components ───────────────────────────────

/// The pieces of `s` between `/` separators, in order (`n + 1` pieces for
/// `n` separators, some perhaps empty).
pub open spec fn split_slash(s: Seq<char>) -> Seq<Seq<char>>
    decreases s.len(),
{
    if s.len() == 0 {
        seq![seq![]]
    } else {
        let init = split_slash(s.drop_last());
        if s.last() == '/' {
            init.push(seq![])
        } else {
            init.update(init.len() - 1, init.last().push(s.last()))
        }
    }
}

/// Whether the piece at position `i` names a component: it is not empty,
/// and it is not `.` unless it comes first.
pub open spec fn names_component(piece: Seq<char>, i: int) -> bool {
    piece.len() > 0 && (piece != seq!['.'] || i == 0)
}

/// The components named by the first `n` pieces.
pub open spec fn kept_pieces(pieces: Seq<Seq<char>>, n: int) -> Seq<Seq<char>>
    decreases n,
{
    if n <= 0 {
        seq![]
    } else if names_component(pieces[n - 1], n - 1) {
        kept_pieces(pieces, n - 1).push(pieces[n - 1])
    } else {
        kept_pieces(pieces, n - 1)
    }
}

/// The components of a Unix path as `std::path::Path::components` gives
/// them: whether it starts at the root, then its pieces between separators,
/// with repeated separators, a trailing separator and each `.` but a
/// leading one left out.
pub open spec fn path_components(s: Seq<char>) -> (bool, Seq<Seq<char>>) {
    (s.len() > 0 && s[0] == '/', kept_pieces(split_slash(s), split_slash(s).len() as int))
}

/// Two paths are the same path when their components are (as `Path`'s `==`
/// compares them).
pub open spec fn same_path(a: Seq<char>, b: Seq<char>) -> bool {
    path_components(a) == path_components(b)
}

proof fn lemma_kept_prefix(p: Seq<Seq<char>>, q: Seq<Seq<char>>, n: int)
    requires
        n <= p.len(),
        n <= q.len(),
        forall|i: int| 0 <= i < n ==> p[i] == q[i],
    ensures kept_pieces(p, n) == kept_pieces(q, n),
    decreases n,
{
    if n > 0 {
        lemma_kept_prefix(p, q, n - 1);
    }
}

/// Whether two char vectors hold the same chars.
fn chars_eq(a: &Vec<char>, b: &Vec<char>) -> (r: bool)
    ensures r == (a@ == b@),
{
    if a.len() != b.len() {
        return false;
    }
    let mut i: usize = 0;
    while i < a.len()
        invariant
            a@.len() == b@.len(),
            i <= a@.len(),
            forall|k: int| 0 <= k < i ==> a@[k] == b@[k],
        decreases a.len() - i,
    {
        if a[i] != b[i] {
            return false;
        }
        i = i + 1;
    }
    assert(a@ =~= b@);
    true
}

/// Whether a piece names a component (see `names_component`); `first` says
/// whether it is the first piece.
fn piece_counts(piece: &Vec<char>, first: bool) -> (r: bool)
    ensures r == names_component(piece@, if first { 0 } else { 1 }),
{
    if piece.len() == 0 {
        return false;
    }
    if piece.len() == 1 && piece[0] == '.' {
        assert(piece@ =~= seq!['.']);
        return first;
    }
    assert(piece@ != seq!['.']) by {
        if piece@.len() == 1 {
            assert(piece@[0] != seq!['.'][0]);
        }
    }
    true
}

/// The components of `path` (see `path_components`).
fn components_of(path: &str) -> (r: (bool, Vec<Vec<char>>))
    ensures
        r.0 == path_components(path@).0,
        r.1@.map_values(|v: Vec<char>| v@) == path_components(path@).1,
{
    let cs = chars_of(path);
    let ghost s = cs@;
    let rooted = cs.len() > 0 && cs[0] == '/';
    let mut parts: Vec<Vec<char>> = Vec::new();
    let mut cur: Vec<char> = Vec::new();
    let mut first = true;
    let mut k: usize = 0;
    assert(s.take(0) =~= Seq::<char>::empty());
    while k < cs.len()
        invariant
            s == cs@,
            k <= s.len(),
            split_slash(s.take(k as int)).len() >= 1,
            split_slash(s.take(k as int)).last() == cur@,
            first == (split_slash(s.take(k as int)).len() == 1),
            parts@.map_values(|v: Vec<char>| v@)
                == kept_pieces(split_slash(s.take(k as int)), split_slash(s.take(k as int)).len() - 1),
        decreases cs.len() - k,
    {
        let ghost segs = split_slash(s.take(k as int));
        let ghost n = segs.len() as int;
        assert(s.take(k + 1).drop_last() =~= s.take(k as int));
        assert(s.take(k + 1).last() == s[k as int]);
        let c = cs[k];
        if c == '/' {
            let ghost segs2 = segs.push(seq![]);
            assert(split_slash(s.take(k + 1)) == segs2);
            proof { lemma_kept_prefix(segs, segs2, n); }
            if piece_counts(&cur, first) {
                let ghost before = parts@;
                let done = cur;
                parts.push(done);
                assert(parts@.map_values(|v: Vec<char>| v@)
                    =~= before.map_values(|v: Vec<char>| v@).push(segs[n - 1]));
            }
            cur = Vec::new();
            first = false;
            assert(segs2.last() =~= cur@);
        } else {
            let ghost segs2 = segs.update(n - 1, segs.last().push(c));
            assert(split_slash(s.take(k + 1)) == segs2);
            proof { lemma_kept_prefix(segs, segs2, n - 1); }
            cur.push(c);
            assert(segs2.last() =~= cur@);
        }
        k = k + 1;
    }
    assert(s.take(s.len() as int) =~= s);
    assert(s == path@);
    let ghost segs = split_slash(s);
    let ghost n = segs.len() as int;
    if piece_counts(&cur, first) {
        let ghost before = parts@;
        parts.push(cur);
        assert(parts@.map_values(|v: Vec<char>| v@) =~= before.map_values(|v: Vec<char>| v@).push(segs[n - 1]));
    }
    (rooted, parts)
}

/// Whether `a` and `b` are the same path (see `same_path`).
pub fn paths_equal(a: &str, b: &str) -> (r: bool)
    ensures r == same_path(a@, b@),
{
    let (ra, pa) = components_of(a);
    let (rb, pb) = components_of(b);
    let ghost va = pa@.map_values(|v: Vec<char>| v@);
    let ghost vb = pb@.map_values(|v: Vec<char>| v@);
    if ra != rb || pa.len() != pb.len() {
        assert(va.len() != vb.len() || ra != rb);
        return false;
    }
    let mut i: usize = 0;
    while i < pa.len()
        invariant
            va == pa@.map_values(|v: Vec<char>| v@),
            vb == pb@.map_values(|v: Vec<char>| v@),
            va == path_components(a@).1,
            vb == path_components(b@).1,
            pa@.len() == pb@.len(),
            i <= pa@.len(),
            forall|k: int| 0 <= k < i ==> va[k] == vb[k],
        decreases pa.len() - i,
    {
        if !chars_eq(&pa[i], &pb[i]) {
            assert(va[i as int] != vb[i as int]);
            return false;
        }
        i = i + 1;
    }
    assert(va =~= vb);
    true
}

/// Whether an optional session path is the same path as `path`.
pub open spec fn names_path(p: Option<Seq<char>>, path: Seq<char>) -> bool {
    match p {
        Some(q) => same_path(q, path),
        None => false,
    }
}

/// Whether some pane's session path is the same path as `path`.
pub open spec fn is_mapped(panes: Seq<PaneViewModel>, path: Seq<char>) -> bool {
    exists|i: int| 0 <= i < panes.len() && names_path((#[trigger] panes[i]).session_path, path)
}

/// Whether session file `a` comes before `b` among the orphans: modified
/// later, or at the same time and listed earlier.
pub open spec fn comes_first(s: Seq<SessionEntry>, a: int, b: int) -> bool {
    s[a].mtime > s[b].mtime || (s[a].mtime == s[b].mtime && a < b)
}

/// What `diagnose` reports for these panes and session files.
pub open spec fn is_report(r: DiagnoseReport, panes: Seq<PaneViewModel>, sessions: Seq<SessionEntry>) -> bool {
    &&& ints(r.with_session@) == indices_where(panes.len() as int, |i: int| panes[i].session_path is Some)
    &&& ints(r.without_session@) == indices_where(panes.len() as int, |i: int| panes[i].session_path is None)
    &&& ints(r.mapped@) == indices_where(sessions.len() as int, |j: int| is_mapped(panes, sessions[j].path@))
    &&& forall|j: int| #![trigger r.orphaned@.contains(j as usize)]
        0 <= j < sessions.len() ==> (r.orphaned@.contains(j as usize) <==> !is_mapped(panes, sessions[j].path@))
    &&& forall|k: int| 0 <= k < r.orphaned@.len() ==> (#[trigger] r.orphaned@[k]) < sessions.len()
    &&& forall|a: int, b: int| 0 <= a < b < r.orphaned@.len()
        ==> comes_first(sessions, #[trigger] r.orphaned@[a] as int, #[trigger] r.orphaned@[b] as int)
}

/// Whether some pane names `path` as its session.
fn mapped_path(panes: &Vec<PaneView>, path: &str) -> (r: bool)
    ensures r == is_mapped(panes_view(panes@), path@),
{
    let ghost pv = panes_view(panes@);
    let mut i: usize = 0;
    while i < panes.len()
        invariant
            pv == panes_view(panes@),
            i <= panes@.len(),
            forall|k: int| 0 <= k < i ==> !names_path((#[trigger] pv[k]).session_path, path@),
        decreases panes.len() - i,
    {
        assert(pv[i as int] == panes@[i as int]@);
        match &panes[i].session_path {
            Some(p) => {
                if paths_equal(p.as_str(), path) {
                    return true;
                }
            },
            None => {},
        }
        i = i + 1;
    }
    false
}

/// Inserts orphan `x` into `order`, keeping it sorted by `comes_first`;
/// `x` is above every index already there.
fn insert_orphan(order: &mut Vec<usize>, x: usize, sessions: &Vec<SessionEntry>)
    requires
        x < sessions@.len(),
        forall|k: int| 0 <= k < old(order)@.len() ==> (#[trigger] old(order)@[k]) < x,
        forall|a: int, b: int| 0 <= a < b < old(order)@.len()
            ==> comes_first(sessions@, #[trigger] old(order)@[a] as int, #[trigger] old(order)@[b] as int),
    ensures
        final(order)@.to_set() == old(order)@.to_set().insert(x),
        final(order)@.len() == old(order)@.len() + 1,
        forall|k: int| 0 <= k < final(order)@.len() ==> (#[trigger] final(order)@[k]) <= x,
        forall|a: int, b: int| 0 <= a < b < final(order)@.len()
            ==> comes_first(sessions@, #[trigger] final(order)@[a] as int, #[trigger] final(order)@[b] as int),
{
    let ghost s = sessions@;
    let ghost v = order@;
    let mut p: usize = 0;
    while p < order.len() && sessions[x].mtime <= sessions[order[p]].mtime
        invariant
            s == sessions@,
            v == order@,
            p <= v.len(),
            x < s.len(),
            forall|k: int| 0 <= k < v.len() ==> (#[trigger] v[k]) < x,
            forall|k: int| 0 <= k < p ==> !comes_first(s, x as int, (#[trigger] v[k]) as int),
        decreases v.len() - p,
    {
        p = p + 1;
    }
    order.insert(p, x);
    let ghost w = order@;
    assert(w == v.insert(p as int, x));
    assert forall|a: int, b: int| 0 <= a < b < w.len() implies
        comes_first(s, #[trigger] w[a] as int, #[trigger] w[b] as int) by {
        if b < p {
            assert(w[a] == v[a] && w[b] == v[b]);
        } else if b == p {
            assert(w[a] == v[a]);
            assert(!comes_first(s, x as int, v[a] as int));
        } else if a < p {
            assert(w[a] == v[a] && w[b] == v[b - 1]);
            if b - 1 > a {
                assert(comes_first(s, v[a] as int, v[b - 1] as int));
            }
        } else if a == p {
            assert(w[b] == v[b - 1]);
            assert(comes_first(s, x as int, v[p as int] as int));
            if b - 1 > p {
                assert(comes_first(s, v[p as int] as int, v[b - 1] as int));
            }
        } else {
            assert(w[a] == v[a - 1] && w[b] == v[b - 1]);
        }
    }
    assert(w.to_set() =~= v.to_set().insert(x)) by {
        assert forall|y: usize| w.to_set().contains(y) <==> v.to_set().insert(x).contains(y) by {
            if w.to_set().contains(y) {
                let k = choose|k: int| 0 <= k < w.len() && w[k] == y;
                if k < p {
                    assert(v[k] == y);
                } else if k > p {
                    assert(v[k - 1] == y);
                }
            }
            if v.to_set().contains(y) {
                let k = choose|k: int| 0 <= k < v.len() && v[k] == y;
                if k < p {
                    assert(w[k] == y);
                } else {
                    assert(w[k + 1] == y);
                }
            }
            if y == x {
                assert(w[p as int] == x);
            }
        }
    }
    assert forall|k: int| 0 <= k < w.len() implies (#[trigger] w[k]) <= x by {
        if k < p {
            assert(w[k] == v[k]);
        } else if k > p {
            assert(w[k] == v[k - 1]);
        }
    }
}

/// Relates panes and the session files found on disk, as `is_report`
/// says.
pub fn diagnose(panes: &Vec<PaneView>, sessions: &Vec<SessionEntry>) -> (r: DiagnoseReport)
    ensures is_report(r, panes_view(panes@), sessions@),
{
    let ghost pv = panes_view(panes@);
    let ghost s = sessions@;
    let ghost has = |i: int| pv[i].session_path is Some;
    let ghost lacks = |i: int| pv[i].session_path is None;
    let ghost named = |j: int| is_mapped(pv, s[j].path@);
    assert(has == (|i: int| panes_view(panes@)[i].session_path is Some));
    assert(lacks == (|i: int| panes_view(panes@)[i].session_path is None));
    assert(named == (|j: int| is_mapped(panes_view(panes@), sessions@[j].path@)));
    let mut with_session: Vec<usize> = Vec::new();
    let mut without_session: Vec<usize> = Vec::new();
    let mut i: usize = 0;
    while i < panes.len()
        invariant
            pv == panes_view(panes@),
            has == (|i: int| pv[i].session_path is Some),
            lacks == (|i: int| pv[i].session_path is None),
            i <= panes@.len(),
            ints(with_session@) == indices_where(i as int, has),
            ints(without_session@) == indices_where(i as int, lacks),
        decreases panes.len() - i,
    {
        assert(pv[i as int] == panes@[i as int]@);
        if panes[i].session_path.is_some() {
            with_session.push(i);
            assert(ints(with_session@) =~= indices_where(i as int, has).push(i as int));
        } else {
            without_session.push(i);
            assert(ints(without_session@) =~= indices_where(i as int, lacks).push(i as int));
        }
        i = i + 1;
    }
    let mut mapped: Vec<usize> = Vec::new();
    let mut orphaned: Vec<usize> = Vec::new();
    let mut j: usize = 0;
    while j < sessions.len()
        invariant
            pv == panes_view(panes@),
            s == sessions@,
            named == (|j: int| is_mapped(pv, s[j].path@)),
            j <= s.len(),
            ints(mapped@) == indices_where(j as int, named),
            forall|k: int| #![trigger orphaned@.contains(k as usize)] 0 <= k < j ==> (orphaned@.contains(k as usize) <==> !named(k)),
            forall|k: int| 0 <= k < orphaned@.len() ==> (#[trigger] orphaned@[k]) < j,
            forall|a: int, b: int| 0 <= a < b < orphaned@.len()
                ==> comes_first(s, #[trigger] orphaned@[a] as int, #[trigger] orphaned@[b] as int),
        decreases s.len() - j,
    {
        if mapped_path(panes, sessions[j].path.as_str()) {
            mapped.push(j);
            assert(ints(mapped@) =~= indices_where(j as int, named).push(j as int));
            assert(named(j as int));
            assert forall|k: int| #![trigger orphaned@.contains(k as usize)] 0 <= k < j + 1 implies (orphaned@.contains(k as usize) <==> !named(k)) by {
                if k == j {
                    if orphaned@.contains(j) {
                        let t = choose|t: int| 0 <= t < orphaned@.len() && orphaned@[t] == j;
                        assert(orphaned@[t] < j);
                    }
                }
            }
        } else {
            let ghost before = orphaned@;
            assert(!named(j as int));
            insert_orphan(&mut orphaned, j, sessions);
            assert forall|k: int| #![trigger orphaned@.contains(k as usize)] 0 <= k < j + 1 implies (orphaned@.contains(k as usize) <==> !named(k)) by {
                assert(orphaned@.contains(k as usize) <==> orphaned@.to_set().contains(k as usize));
                assert(before.contains(k as usize) <==> before.to_set().contains(k as usize));
            }
        }
        j = j + 1;
    }
    DiagnoseReport { with_session, without_session, mapped, orphaned }
}

// ── Columns of the report ────────────────────────────────────────────

/// `s` kept whole when it fits in `max` bytes, else its first `max - 1`
/// bytes and an ellipsis; `None` where that cut falls inside a char (where
/// slicing panics).
pub open spec fn clip(s: Seq<char>, max: int) -> Option<Seq<char>> {
    let keep = if max >= 1 { max - 1 } else { 0 };
    if utf8_len(s) <= max {
        Some(s)
    } else if is_cut(s, keep) {
        Some(fit_prefix(s, keep) + "…"@)
    } else {
        None
    }
}

/// `clip` in executable code.
pub fn try_truncate(s: &str, max: usize) -> (r: Option<String>)
    ensures opt_str(r) == clip(s@, max as int),
{
    let (_, _, whole) = byte_prefix(s, max);
    if whole {
        return Some(s.to_owned());
    }
    let keep = if max >= 1 { max - 1 } else { 0 };
    let (head, used, _) = byte_prefix(s, keep);
    if used == keep {
        Some(head.concat("…"))
    } else {
        None
    }
}

/// Truncates `s` to `max` bytes as `clip` says.
pub fn truncate(s: &str, max: usize) -> (r: String)
    requires clip(s@, max as int) is Some,
    ensures Some(r@) == clip(s@, max as int),
{
    match try_truncate(s, max) {
        Some(t) => t,
        None => String::new(),
    }
}

/// `s` kept whole when it fits in `max` bytes; else, for `max` under 5,
/// its first `max` bytes; else its first `(max - 3) / 2` bytes, an
/// ellipsis and its last `max - 3 - (max - 3) / 2` bytes. `None` where a
/// cut falls inside a char (where slicing panics).
pub open spec fn clip_mid(s: Seq<char>, max: int) -> Option<Seq<char>> {
    let n = utf8_len(s);
    if n <= max {
        Some(s)
    } else if max < 5 {
        if is_cut(s, max) { Some(fit_prefix(s, max)) } else { None }
    } else {
        let left = (max - 3) / 2;
        let right = max - 3 - left;
        if is_cut(s, left) && is_cut(s, n - right) {
            Some(fit_prefix(s, left) + "…"@ + s.skip(fit_prefix(s, n - right).len() as int))
        } else {
            None
        }
    }
}

/// `clip_mid` in executable code.
pub fn try_truncate_mid(s: &str, max: usize) -> (r: Option<String>)
    requires utf8_len(s@) <= usize::MAX,
    ensures opt_str(r) == clip_mid(s@, max as int),
{
    let (_, n, _) = byte_prefix(s, usize::MAX);
    proof { crate::text::lemma_fit_prefix_len(s@, usize::MAX as int); }
    assert(fit_prefix(s@, usize::MAX as int) == s@);
    if n <= max {
        return Some(s.to_owned());
    }
    if max < 5 {
        let (head, used, _) = byte_prefix(s, max);
        return if used == max { Some(head) } else { None };
    }
    let left = (max - 3) / 2;
    let right = max - 3 - left;
    let (head, used, _) = byte_prefix(s, left);
    if used != left {
        return None;
    }
    let (front, used2, _) = byte_prefix(s, n - right);
    if used2 != n - right {
        return None;
    }
    let cs = chars_of(s);
    let k = front.as_str().unicode_len();
    proof { crate::text::lemma_fit_prefix_len(s@, (n - right) as int); }
    let tail = string_of(&cs, k, cs.len());
    assert(tail@ =~= s@.skip(k as int));
    Some(head.concat("…").concat(tail.as_str()))
}

/// Truncates `s` in the middle as `clip_mid` says.
pub fn truncate_mid(s: &str, max: usize) -> (r: String)
    requires
        utf8_len(s@) <= usize::MAX,
        clip_mid(s@, max as int) is Some,
    ensures Some(r@) == clip_mid(s@, max as int),
{
    match try_truncate_mid(s, max) {
        Some(t) => t,
        None => String::new(),
    }
}

/// The part of `s` after its last `/` (all of it when it has none).
pub open spec fn last_segment(s: Seq<char>) -> Seq<char>
    decreases s.len(),
{
    if s.len() == 0 {
        s
    } else if s.last() == '/' {
        seq![]
    } else {
        last_segment(s.drop_last()).push(s.last())
    }
}

/// `last_segment` in executable code.
fn after_last_slash(s: &str) -> (r: String)
    ensures r@ == last_segment(s@),
{
    let cs = chars_of(s);
    let n = cs.len();
    let mut k = n;
    assert(s@.take(n as int) =~= s@);
    assert(s@.subrange(n as int, n as int) =~= Seq::<char>::empty());
    while k > 0 && cs[k - 1] != '/'
        invariant
            k <= n == cs@.len(),
            cs@ == s@,
            last_segment(s@) == last_segment(s@.take(k as int)) + s@.subrange(k as int, n as int),
        decreases k,
    {
        let ghost t = s@.take(k as int);
        assert(t.drop_last() =~= s@.take(k - 1));
        assert(t.last() == cs@[k - 1]);
        assert(last_segment(t) == last_segment(s@.take(k - 1)).push(t.last()));
        assert(last_segment(s@.take(k - 1)) + s@.subrange(k - 1, n as int)
            =~= last_segment(t) + s@.subrange(k as int, n as int));
        k = k - 1;
    }
    proof {
        if k == 0 {
            assert(last_segment(s@.take(0)) =~= Seq::<char>::empty());
        } else {
            assert(s@.take(k as int).last() == cs@[k - 1]);
            assert(last_segment(s@.take(k as int)) =~= Seq::<char>::empty());
        }
    }
    let r = string_of(&cs, k, n);
    assert(r@ =~= last_segment(s@));
    r
}

/// The label of a session's working directory, given the first line of
/// its file parsed as JSON when it is JSON: the last segment of its `cwd`,
/// else empty.
pub open spec fn cwd_label_of(header: Option<JsonValue>) -> Seq<char> {
    match header {
        Some(h) => match json_str(json_get(h, "cwd"@)) {
            Some(c) => last_segment(c),
            None => seq![],
        },
        None => seq![],
    }
}

/// The label of a session's working directory, as `cwd_label_of` says.
pub fn cwd_label(header: Option<&JsonValue>) -> (r: String)
    ensures r@ == cwd_label_of(match header { Some(h) => Some(*h), None => None }),
{
    match header {
        Some(h) => match h.get("cwd") {
            Some(c) => match c.as_str() {
                Some(t) => after_last_slash(t),
                None => String::new(),
            },
            None => String::new(),
        },
        None => String::new(),
    }
}

// ── Session files ────────────────────────────────────────────────────

/// The file name of a path, as `Path::file_name` documents it: its last
/// component, `None` where it has none or ends in `..` (or is `.`).
pub open spec fn file_name_of(path: Seq<char>) -> Option<Seq<char>> {
    let parts = path_components(path).1;
    if parts.len() == 0 || parts.last() == seq!['.', '.'] || parts.last() == seq!['.'] {
        None
    } else {
        Some(parts.last())
    }
}

/// The position of the last `.` in `name`.
pub open spec fn last_dot(name: Seq<char>) -> Option<int>
    decreases name.len(),
{
    if name.len() == 0 {
        None
    } else if name.last() == '.' {
        Some(name.len() - 1)
    } else {
        last_dot(name.drop_last())
    }
}

/// The stem of a file name, as `Path::file_stem` documents it: the whole
/// name when it has no `.`, or when its only `.` is the first char (more
/// exactly: when its last `.` is the first char); else the part before the
/// last `.`.
pub open spec fn stem_of(name: Seq<char>) -> Seq<char> {
    match last_dot(name) {
        Some(k) => if k == 0 { name } else { name.take(k) },
        None => name,
    }
}

/// The stem of a path's file name, `None` where it has no file name.
pub open spec fn path_stem(path: Seq<char>) -> Option<Seq<char>> {
    match file_name_of(path) {
        Some(n) => Some(stem_of(n)),
        None => None,
    }
}

/// Calls std's `Path::file_stem` on `path` and gives the stem as text. The
/// contract is what std documents of `file_stem`, `file_name` and
/// `components` for a Unix path (see `path_stem`); the text of a `&str`
/// path is always valid UTF-8, so `to_str` keeps it.
#[verifier::external_body]
fn file_stem(path: &str) -> (r: Option<String>)
    ensures opt_str(r) == path_stem(path@),
{
    std::path::Path::new(path).file_stem().and_then(|s| s.to_str()).map(|s| s.to_string())
}

/// The time `secs` (seconds since the Unix epoch, the epoch itself when out
/// of chrono's range) in UTC, as chrono formats it with `%b %d %H:%M`.
pub uninterp spec fn mtime_text(secs: i64) -> Seq<char>;

/// Formats `secs` with chrono: `DateTime::from_timestamp(secs, 0)` (the
/// epoch when out of range), then `format("%b %d %H:%M")`. The contract
/// claims only that the result is `mtime_text` of `secs`; the calendar
/// arithmetic stays chrono's.
#[verifier::external_body]
fn format_mtime(secs: i64) -> (r: String)
    ensures r@ == mtime_text(secs),
{
    chrono::DateTime::from_timestamp(secs, 0).unwrap_or_default().format("%b %d %H:%M").to_string()
}

impl SessionEntry {
    /// The session's id: the stem of its file name, `?` when it has none.
    pub fn session_id(&self) -> (r: String)
        ensures
            r@ == match path_stem(self.path@) {
                Some(s) => s,
                None => "?"@,
            },
    {
        match file_stem(self.path.as_str()) {
            Some(s) => s,
            None => String::from_str("?"),
        }
    }

    /// The modification time as the report shows it.
    pub fn mtime_str(&self) -> (r: String)
        ensures r@ == mtime_text(self.mtime),
    {
        format_mtime(self.mtime)
    }
}

/// The session id of a pane's session path: the stem of its file name,
/// empty when it has none.
pub fn pane_session_id(path: &str) -> (r: String)
    ensures
        r@ == match path_stem(path@) {
            Some(s) => s,
            None => seq![],
        },
{
    match file_stem(path) {
        Some(s) => s,
        None => String::new(),
    }
}

/// A file's size in KiB, rounded to nearest (half up).
pub fn size_kb(bytes: u64) -> (r: u64)
    requires bytes <= u64::MAX - 512,
    ensures r == (bytes + 512) / 1024,
{
    (bytes + 512) / 1024
}

/// How the report names a pane: "workspace / tab" when both names are
/// known and not empty, else the pane id.
pub open spec fn pane_label_of(p: PaneViewModel) -> Seq<char> {
    let ws = match p.workspace_name { Some(w) => w, None => seq![] };
    let tab = match p.tab_name { Some(t) => t, None => seq![] };
    if ws.len() > 0 && tab.len() > 0 {
        ws + " / "@ + tab
    } else {
        p.pane_id
    }
}

/// The name of a pane in the report, as `pane_label_of` says.
pub fn pane_label(p: &PaneView) -> (r: String)
    ensures r@ == pane_label_of(p@),
{
    let ws = match &p.workspace_name { Some(w) => w.as_str(), None => "" };
    let tab = match &p.tab_name { Some(t) => t.as_str(), None => "" };
    proof { reveal_strlit(""); }
    if ws.unicode_len() > 0 && tab.unicode_len() > 0 {
        let mut out = ws.to_string();
        out.append(" / ");
        out.append(tab);
        out
    } else {
        p.pane_id.clone()
    }
}

} // verus!
