//! Lines, trimming and prefixes of text, as `str::lines`, `str::trim`,
//! `str::trim_matches` and `str::strip_prefix` define them.

use vstd::prelude::*;
use crate::text::push_char;

verus! {

// ── Characters ───────────────────────────────────────────────────────

/// Unicode `White_Space`, the property `char::is_whitespace` tests.
pub open spec fn is_ws(c: char) -> bool {
    let u = c as u32;
    ||| 0x9 <= u <= 0xD
    ||| u == 0x20
    ||| u == 0x85
    ||| u == 0xA0
    ||| u == 0x1680
    ||| 0x2000 <= u <= 0x200A
    ||| u == 0x2028
    ||| u == 0x2029
    ||| u == 0x202F
    ||| u == 0x205F
    ||| u == 0x3000
}

/// `is_ws` in executable code.
pub fn is_whitespace(c: char) -> (r: bool)
    ensures r == is_ws(c),
{
    let u = c as u32;
    (0x9 <= u && u <= 0xD) || u == 0x20 || u == 0x85 || u == 0xA0 || u == 0x1680
        || (0x2000 <= u && u <= 0x200A) || u == 0x2028 || u == 0x2029 || u == 0x202F
        || u == 0x205F || u == 0x3000
}

/// The characters that a trim removes.
#[derive(Clone, Copy, PartialEq, Eq, Debug, Structural)]
pub enum Strip {
    Whitespace,
    Char(char),
}

/// Whether a trim of kind `k` removes `c`.
pub open spec fn strips(k: Strip, c: char) -> bool {
    match k {
        Strip::Whitespace => is_ws(c),
        Strip::Char(d) => c == d,
    }
}

fn strips_exec(k: Strip, c: char) -> (r: bool)
    ensures r == strips(k, c),
{
    match k {
        Strip::Whitespace => is_whitespace(c),
        Strip::Char(d) => c == d,
    }
}

// ── Trimming ─────────────────────────────────────────────────────────

/// `s` without its leading characters that `k` removes.
pub open spec fn strip_start(s: Seq<char>, k: Strip) -> Seq<char>
    decreases s.len(),
{
    if s.len() > 0 && strips(k, s[0]) {
        strip_start(s.drop_first(), k)
    } else {
        s
    }
}

/// `s` without its trailing characters that `k` removes.
pub open spec fn strip_end(s: Seq<char>, k: Strip) -> Seq<char>
    decreases s.len(),
{
    if s.len() > 0 && strips(k, s.last()) {
        strip_end(s.drop_last(), k)
    } else {
        s
    }
}

/// `s` trimmed at both ends (`trim` for whitespace, `trim_matches` for a
/// char).
pub open spec fn strip_both(s: Seq<char>, k: Strip) -> Seq<char> {
    strip_end(strip_start(s, k), k)
}

proof fn lemma_strip_start_at(s: Seq<char>, k: Strip, i: int)
    requires
        0 <= i <= s.len(),
        forall|j: int| 0 <= j < i ==> strips(k, #[trigger] s[j]),
    ensures strip_start(s, k) == strip_start(s.skip(i), k),
    decreases i,
{
    if i > 0 {
        assert(s.drop_first().skip(i - 1) =~= s.skip(i));
        lemma_strip_start_at(s.drop_first(), k, i - 1);
    } else {
        assert(s.skip(0) =~= s);
    }
}

proof fn lemma_strip_end_at(s: Seq<char>, k: Strip, i: int)
    requires
        0 <= i <= s.len(),
        forall|j: int| i <= j < s.len() ==> strips(k, #[trigger] s[j]),
    ensures strip_end(s, k) == strip_end(s.take(i), k),
    decreases s.len() - i,
{
    if i < s.len() {
        assert(s.drop_last().take(i) =~= s.take(i));
        lemma_strip_end_at(s.drop_last(), k, i);
    } else {
        assert(s.take(i) =~= s);
    }
}

/// The bounds of `v[lo..hi]` trimmed at both ends.
pub fn strip_range(v: &Vec<char>, lo: usize, hi: usize, k: Strip) -> (r: (usize, usize))
    requires lo <= hi <= v@.len(),
    ensures
        lo <= r.0 <= r.1 <= hi,
        v@.subrange(r.0 as int, r.1 as int) == strip_both(v@.subrange(lo as int, hi as int), k),
{
    let ghost s = v@.subrange(lo as int, hi as int);
    let mut a = lo;
    while a < hi && strips_exec(k, v[a])
        invariant
            lo <= a <= hi <= v@.len(),
            s == v@.subrange(lo as int, hi as int),
            forall|j: int| lo <= j < a ==> strips(k, #[trigger] v@[j]),
        decreases hi - a,
    {
        a = a + 1;
    }
    proof {
        assert forall|j: int| 0 <= j < a - lo implies strips(k, #[trigger] s[j]) by {
            assert(s[j] == v@[lo + j]);
        }
        lemma_strip_start_at(s, k, a - lo);
        assert(s.skip(a - lo) =~= v@.subrange(a as int, hi as int));
        if a < hi {
            assert(s.skip(a - lo)[0] == v@[a as int]);
        }
    }
    let ghost t = v@.subrange(a as int, hi as int);
    assert(strip_start(s, k) == t);
    let mut b = hi;
    while b > a && strips_exec(k, v[b - 1])
        invariant
            lo <= a <= b <= hi <= v@.len(),
            t == v@.subrange(a as int, hi as int),
            forall|j: int| b <= j < hi ==> strips(k, #[trigger] v@[j]),
        decreases b - a,
    {
        b = b - 1;
    }
    proof {
        assert forall|j: int| b - a <= j < t.len() implies strips(k, #[trigger] t[j]) by {
            assert(t[j] == v@[a + j]);
        }
        lemma_strip_end_at(t, k, b - a);
        assert(t.take(b - a) =~= v@.subrange(a as int, b as int));
        if b > a {
            assert(t.take(b - a).last() == v@[b - 1]);
        }
    }
    (a, b)
}

// ── Building text ────────────────────────────────────────────────────

/// The characters of `s`.
pub fn chars_of(s: &str) -> (r: Vec<char>)
    ensures r@ == s@,
{
    let mut out: Vec<char> = Vec::new();
    for c in it: s.chars()
        invariant
            it.seq() == s@,
            out@ == s@.take(it.index() as int),
    {
        out.push(c);
        assert(out@ =~= s@.take(it.index() + 1));
    }
    assert(s@.take(s@.len() as int) =~= s@);
    out
}

/// The text of `v[lo..hi]`.
pub fn string_of(v: &Vec<char>, lo: usize, hi: usize) -> (r: String)
    requires lo <= hi <= v@.len(),
    ensures r@ == v@.subrange(lo as int, hi as int),
{
    let mut out = String::new();
    let mut i = lo;
    while i < hi
        invariant
            lo <= i <= hi <= v@.len(),
            out@ == v@.subrange(lo as int, i as int),
        decreases hi - i,
    {
        push_char(&mut out, v[i]);
        assert(out@ =~= v@.subrange(lo as int, i + 1));
        i = i + 1;
    }
    out
}

// ── Prefixes ─────────────────────────────────────────────────────────

/// `s` without the prefix `p`, if it starts with it.
pub open spec fn strip_prefix(s: Seq<char>, p: Seq<char>) -> Option<Seq<char>> {
    if p.len() <= s.len() && s.take(p.len() as int) == p {
        Some(s.skip(p.len() as int))
    } else {
        None
    }
}

/// Whether `v[lo..hi]` starts with `p`.
pub fn range_starts_with(v: &Vec<char>, lo: usize, hi: usize, p: &str) -> (r: bool)
    requires lo <= hi <= v@.len(),
    ensures r == (strip_prefix(v@.subrange(lo as int, hi as int), p@) is Some),
{
    let ghost s = v@.subrange(lo as int, hi as int);
    let mut i = lo;
    for c in it: p.chars()
        invariant
            it.seq() == p@,
            lo <= hi <= v@.len(),
            s == v@.subrange(lo as int, hi as int),
            i == lo + it.index(),
            i <= hi,
            p@.take(it.index() as int) == s.take(it.index() as int),
    {
        if i >= hi || v[i] != c {
            proof {
                let k = it.index() as int;
                if i < hi && p@.len() <= s.len() {
                    assert(s.take(p@.len() as int)[k] == s[k]);
                    assert(s[k] == v@[i as int]);
                    assert(p@[k] == c);
                    assert(s.take(p@.len() as int) != p@);
                }
            }
            return false;
        }
        assert(p@.take(it.index() + 1) =~= s.take(it.index() + 1));
        i = i + 1;
    }
    assert(p@.take(p@.len() as int) =~= p@);
    true
}

// ── Lines ────────────────────────────────────────────────────────────

/// The pieces of `s` between newlines (one more than there are newlines).
pub open spec fn split_nl(s: Seq<char>) -> Seq<Seq<char>>
    decreases s.len(),
{
    if s.len() == 0 {
        seq![seq![]]
    } else {
        let init = split_nl(s.drop_last());
        if s.last() == '\n' {
            init.push(seq![])
        } else {
            init.update(init.len() - 1, init.last().push(s.last()))
        }
    }
}

proof fn lemma_split_nl_len(s: Seq<char>)
    ensures split_nl(s).len() >= 1,
    decreases s.len(),
{
    if s.len() > 0 {
        lemma_split_nl_len(s.drop_last());
    }
}

/// A line without the `\r` of a `\r\n` ending.
pub open spec fn strip_cr(l: Seq<char>) -> Seq<char> {
    if l.len() > 0 && l.last() == '\r' { l.drop_last() } else { l }
}

/// The lines of `s`, as `str::lines` gives them: split at `\n`, a `\r`
/// before the `\n` dropped, and no empty line after a final `\n`.
pub open spec fn lines(s: Seq<char>) -> Seq<Seq<char>> {
    let parts = split_nl(s);
    let ended = parts.drop_last().map_values(|l: Seq<char>| strip_cr(l));
    if parts.last().len() == 0 { ended } else { ended.push(parts.last()) }
}

/// The lines of a list of character vectors, as sequences.
pub open spec fn lines_view(v: Seq<Vec<char>>) -> Seq<Seq<char>> {
    v.map_values(|l: Vec<char>| l@)
}

fn without_cr(line: Vec<char>) -> (r: Vec<char>)
    ensures r@ == strip_cr(line@),
{
    let mut line = line;
    let n = line.len();
    if n > 0 && line[n - 1] == '\r' {
        line.pop();
    }
    line
}

/// The lines of `s` (`str::lines`).
pub fn lines_of(s: &str) -> (r: Vec<Vec<char>>)
    ensures lines_view(r@) == lines(s@),
{
    let mut done: Vec<Vec<char>> = Vec::new();
    let mut cur: Vec<char> = Vec::new();
    for c in it: s.chars()
        invariant
            it.seq() == s@,
            split_nl(s@.take(it.index() as int)).len() >= 1,
            lines_view(done@) == split_nl(s@.take(it.index() as int)).drop_last()
                .map_values(|l: Seq<char>| strip_cr(l)),
            cur@ == split_nl(s@.take(it.index() as int)).last(),
    {
        let ghost i = it.index() as int;
        let ghost t = s@.take(i + 1);
        assert(t.drop_last() =~= s@.take(i));
        assert(t.last() == c);
        proof { lemma_split_nl_len(s@.take(i)); }
        let ghost parts = split_nl(s@.take(i));
        if c == '\n' {
            let mut line: Vec<char> = Vec::new();
            std::mem::swap(&mut line, &mut cur);
            let ghost before = done@;
            done.push(without_cr(line));
            assert(split_nl(t) == parts.push(seq![]));
            assert(split_nl(t).drop_last() =~= parts);
            assert(parts =~= parts.drop_last().push(parts.last()));
            assert(lines_view(done@) =~= lines_view(before).push(strip_cr(parts.last())));
            assert(lines_view(done@) =~= split_nl(t).drop_last().map_values(|l: Seq<char>| strip_cr(l)));
        } else {
            cur.push(c);
            assert(split_nl(t) == parts.update(parts.len() - 1, parts.last().push(c)));
            assert(split_nl(t).drop_last() =~= parts.drop_last());
        }
    }
    assert(s@.take(s@.len() as int) =~= s@);
    if cur.len() > 0 {
        let ghost before = done@;
        done.push(cur);
        assert(lines_view(done@) =~= lines_view(before).push(split_nl(s@).last()));
    }
    done
}

/// The lines of `s` that hold more than whitespace, in order.
pub open spec fn content_lines(s: Seq<char>) -> Seq<Seq<char>> {
    lines(s).filter(|l: Seq<char>| strip_both(l, Strip::Whitespace).len() > 0)
}

/// The lines of `s` that hold more than whitespace (the lines of a session
/// file that can be records).
pub fn content_lines_of(s: &str) -> (r: Vec<String>)
    ensures r@.map_values(|l: String| l@) == content_lines(s@),
{
    let ls = lines_of(s);
    let ghost lv = lines_view(ls@);
    let ghost p = |l: Seq<char>| strip_both(l, Strip::Whitespace).len() > 0;
    let mut out: Vec<String> = Vec::new();
    let mut i: usize = 0;
    while i < ls.len()
        invariant
            lv == lines_view(ls@),
            lv == lines(s@),
            p == (|l: Seq<char>| strip_both(l, Strip::Whitespace).len() > 0),
            i <= ls@.len(),
            out@.map_values(|l: String| l@) == lv.take(i as int).filter(p),
        decreases ls.len() - i,
    {
        let line = &ls[i];
        let n = line.len();
        assert(line@.subrange(0, n as int) =~= line@);
        let (a, b) = strip_range(line, 0, n, Strip::Whitespace);
        assert(lv.take(i + 1) =~= lv.take(i as int).push(line@));
        proof { lv.take(i as int).lemma_filter_push(line@, p); }
        if a < b {
            let ghost before = out@;
            out.push(string_of(line, 0, n));
            assert(out@.map_values(|l: String| l@) =~= before.map_values(|l: String| l@).push(line@));
        }
        i = i + 1;
    }
    assert(lv.take(ls@.len() as int) =~= lv);
    out
}

// ── Blank lines ──────────────────────────────────────────────────────

/// `w` is a blank line: only whitespace, and no newline.
pub open spec fn is_blank_line(w: Seq<char>) -> bool {
    forall|j: int| 0 <= j < w.len() ==> is_ws(#[trigger] w[j]) && w[j] != '\n'
}

/// `a` is empty or ends a line.
pub open spec fn at_line_start(a: Seq<char>) -> bool {
    a.len() == 0 || a.last() == '\n'
}

proof fn lemma_split_nl_append(a: Seq<char>, t: Seq<char>)
    requires at_line_start(a),
    ensures split_nl(a + t) == split_nl(a).drop_last() + split_nl(t),
    decreases t.len(),
{
    lemma_split_nl_len(a);
    if t.len() == 0 {
        assert(a + t =~= a);
        assert(split_nl(a).last() =~= Seq::<char>::empty());
        assert(split_nl(a).drop_last() + split_nl(t) =~= split_nl(a));
    } else {
        assert((a + t).drop_last() =~= a + t.drop_last());
        assert((a + t).last() == t.last());
        lemma_split_nl_append(a, t.drop_last());
        lemma_split_nl_len(t.drop_last());
        let d = split_nl(a).drop_last();
        let p = split_nl(t.drop_last());
        if t.last() == '\n' {
            assert((d + p).push(seq![]) =~= d + p.push(seq![]));
        } else {
            assert((d + p).update((d + p).len() - 1, (d + p).last().push(t.last()))
                =~= d + p.update(p.len() - 1, p.last().push(t.last())));
        }
    }
}

proof fn lemma_lines_append(a: Seq<char>, t: Seq<char>)
    requires at_line_start(a),
    ensures lines(a + t) == split_nl(a).drop_last().map_values(|l: Seq<char>| strip_cr(l)) + lines(t),
{
    lemma_split_nl_append(a, t);
    lemma_split_nl_len(t);
    let d = split_nl(a).drop_last();
    let p = split_nl(t);
    assert((d + p).drop_last() =~= d + p.drop_last());
    assert((d + p).last() == p.last());
    let f = |l: Seq<char>| strip_cr(l);
    assert((d + p.drop_last()).map_values(f) =~= d.map_values(f) + p.drop_last().map_values(f));
    if p.last().len() == 0 {
    } else {
        assert((d.map_values(f) + p.drop_last().map_values(f)).push(p.last())
            =~= d.map_values(f) + p.drop_last().map_values(f).push(p.last()));
    }
}

proof fn lemma_split_nl_one_line(w: Seq<char>)
    requires forall|j: int| 0 <= j < w.len() ==> #[trigger] w[j] != '\n',
    ensures split_nl(w) == seq![w],
    decreases w.len(),
{
    if w.len() > 0 {
        assert forall|j: int| 0 <= j < w.drop_last().len() implies #[trigger] w.drop_last()[j] != '\n' by {
            assert(w.drop_last()[j] == w[j]);
        }
        lemma_split_nl_one_line(w.drop_last());
        assert(w.last() == w[w.len() - 1]);
        assert(w.last() != '\n');
        assert(w.drop_last().push(w.last()) =~= w);
        assert(seq![w.drop_last()].update(0, w.drop_last().push(w.last())) =~= seq![w]);
    } else {
        assert(w =~= Seq::<char>::empty());
    }
}

proof fn lemma_blank_strips_away(w: Seq<char>)
    requires is_blank_line(w),
    ensures strip_both(strip_cr(w), Strip::Whitespace).len() == 0,
{
    let x = strip_cr(w);
    assert forall|j: int| 0 <= j < x.len() implies strips(Strip::Whitespace, #[trigger] x[j]) by {
        assert(x[j] == w[j]);
    }
    lemma_strip_start_at(x, Strip::Whitespace, x.len() as int);
    assert(x.skip(x.len() as int) =~= Seq::<char>::empty());
}

/// Law: inserting a blank line at the start of a line of a text leaves the
/// text's content lines (those a session file's records are read from)
/// unchanged.
pub proof fn law_blank_lines_are_ignored(a: Seq<char>, w: Seq<char>, b: Seq<char>)
    requires
        at_line_start(a),
        is_blank_line(w),
    ensures content_lines(a + w + seq!['\n'] + b) == content_lines(a + b),
{
    let t = w + seq!['\n'] + b;
    assert(a + w + seq!['\n'] + b =~= a + t);
    lemma_lines_append(a, t);
    lemma_lines_append(a, b);
    let wn = w + seq!['\n'];
    assert(t =~= wn + b);
    assert(at_line_start(wn));
    lemma_lines_append(wn, b);
    lemma_split_nl_one_line(w);
    assert(wn.drop_last() =~= w);
    assert(split_nl(wn).drop_last() =~= seq![w]);
    let f = |l: Seq<char>| strip_cr(l);
    assert(seq![w].map_values(f) =~= seq![strip_cr(w)]);
    let m = split_nl(a).drop_last().map_values(f);
    let pred = |l: Seq<char>| strip_both(l, Strip::Whitespace).len() > 0;
    lemma_blank_strips_away(w);
    assert(lines(a + t) =~= m + seq![strip_cr(w)] + lines(b));
    Seq::filter_distributes_over_add(m + seq![strip_cr(w)], lines(b), pred);
    Seq::filter_distributes_over_add(m, seq![strip_cr(w)], pred);
    Seq::filter_distributes_over_add(m, lines(b), pred);
    reveal_with_fuel(Seq::filter, 2);
    assert(seq![strip_cr(w)].filter(pred) =~= Seq::<Seq<char>>::empty());
    assert(m + Seq::<Seq<char>>::empty() =~= m);
    assert(m.filter(pred) + Seq::<Seq<char>>::empty() =~= m.filter(pred));
}

} // verus!
