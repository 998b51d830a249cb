//! Text helpers: UTF-8 byte lengths, byte-bounded prefixes and decimal text.

use vstd::prelude::*;
use vstd::string::*;

verus! {

/// Number of bytes that the UTF-8 encoding of `c` takes.
pub open spec fn char_width(c: char) -> nat {
    if (c as u32) < 0x80 {
        1
    } else if (c as u32) < 0x800 {
        2
    } else if (c as u32) < 0x10000 {
        3
    } else {
        4
    }
}

/// Number of bytes of the UTF-8 encoding of `s` (what `str::len` returns).
pub open spec fn utf8_len(s: Seq<char>) -> nat
    decreases s.len(),
{
    if s.len() == 0 {
        0
    } else {
        utf8_len(s.drop_last()) + char_width(s.last())
    }
}

/// The longest prefix of `s` whose UTF-8 encoding fits in `n` bytes.
pub open spec fn fit_prefix(s: Seq<char>, n: int) -> Seq<char>
    decreases s.len(),
{
    if utf8_len(s) <= n || s.len() == 0 {
        s
    } else {
        fit_prefix(s.drop_last(), n)
    }
}

/// `n` is a char boundary of `s`: `&s[..n]` does not panic.
pub open spec fn is_cut(s: Seq<char>, n: int) -> bool {
    utf8_len(fit_prefix(s, n)) == n
}

fn width_of(c: char) -> (w: usize)
    ensures w == char_width(c),
{
    let v = c as u32;
    if v < 0x80 { 1 } else if v < 0x800 { 2 } else if v < 0x10000 { 3 } else { 4 }
}

/// Appends `c` to `s` with std's `String::push`. The contract claims that
/// the text afterwards is the text before followed by `c`.
#[verifier::external_body]
pub(crate) fn push_char(s: &mut String, c: char)
    ensures final(s)@ == old(s)@.push(c),
{
    s.push(c);
}


pub proof fn lemma_utf8_len_take_step(s: Seq<char>, k: int)
    requires 0 <= k < s.len(),
    ensures utf8_len(s.take(k + 1)) == utf8_len(s.take(k)) + char_width(s[k]),
{
    assert(s.take(k + 1).drop_last() =~= s.take(k));
}

pub proof fn lemma_utf8_len_append(a: Seq<char>, b: Seq<char>)
    ensures utf8_len(a + b) == utf8_len(a) + utf8_len(b),
    decreases b.len(),
{
    if b.len() == 0 {
        assert(a + b =~= a);
    } else {
        lemma_utf8_len_append(a, b.drop_last());
        assert((a + b).drop_last() =~= a + b.drop_last());
    }
}

pub proof fn lemma_utf8_len_prefix_mono(s: Seq<char>, j: int, k: int)
    requires 0 <= j <= k <= s.len(),
    ensures utf8_len(s.take(j)) <= utf8_len(s.take(k)),
    decreases k - j,
{
    if j < k {
        lemma_utf8_len_prefix_mono(s, j, k - 1);
        lemma_utf8_len_take_step(s, k - 1);
    }
}

/// `fit_prefix` is the prefix that stops right before the first char that
/// would exceed the byte budget.
/// `fit_prefix` is a prefix of `s`.
pub proof fn lemma_fit_prefix_len(s: Seq<char>, n: int)
    ensures
        fit_prefix(s, n).len() <= s.len(),
        fit_prefix(s, n) == s.take(fit_prefix(s, n).len() as int),
    decreases s.len(),
{
    if utf8_len(s) <= n || s.len() == 0 {
        assert(s.take(s.len() as int) =~= s);
    } else {
        lemma_fit_prefix_len(s.drop_last(), n);
        let f = fit_prefix(s.drop_last(), n);
        assert(s.drop_last().take(f.len() as int) =~= s.take(f.len() as int));
    }
}

pub proof fn lemma_fit_prefix_at(s: Seq<char>, n: int, k: int)
    requires
        0 <= k <= s.len(),
        utf8_len(s.take(k)) <= n,
        k == s.len() || utf8_len(s.take(k + 1)) > n,
    ensures
        fit_prefix(s, n) == s.take(k),
    decreases s.len(),
{
    if k == s.len() {
        assert(s.take(k) =~= s);
    } else {
        lemma_utf8_len_prefix_mono(s, k + 1, s.len() as int);
        assert(s.take(s.len() as int) =~= s);
        let t = s.drop_last();
        assert(t.take(k) =~= s.take(k));
        if k + 1 <= t.len() {
            assert(t.take(k + 1) =~= s.take(k + 1));
        }
        lemma_fit_prefix_at(t, n, k);
    }
}

/// The longest prefix of `s` that fits in `n` UTF-8 bytes, its byte length,
/// and whether that prefix is all of `s`.
pub fn byte_prefix(s: &str, n: usize) -> (r: (String, usize, bool))
    ensures
        r.0@ == fit_prefix(s@, n as int),
        r.1 == utf8_len(r.0@),
        r.2 == (utf8_len(s@) <= n),
{
    let mut out = String::new();
    let mut bytes: usize = 0;
    let mut done = false;
    let ghost mut stop: int = 0;
    for c in it: s.chars()
        invariant
            it.seq() == s@,
            !done ==> out@ == s@.take(it.index() as int) && bytes == utf8_len(out@) && bytes <= n,
            done ==> 0 <= stop < it.index() && out@ == s@.take(stop) && utf8_len(s@.take(stop)) <= n
                && utf8_len(s@.take(stop + 1)) > n,
    {
        if !done {
            let w = width_of(c);
            proof { lemma_utf8_len_take_step(s@, it.index() as int); }
            if w <= n - bytes {
                push_char(&mut out, c);
                bytes = bytes + w;
                proof { assert(out@ =~= s@.take(it.index() + 1)); }
            } else {
                done = true;
                proof { stop = it.index() as int; }
            }
        }
    }
    proof {
        assert(s@.take(s@.len() as int) =~= s@);
        if done {
            lemma_fit_prefix_at(s@, n as int, stop);
            lemma_utf8_len_prefix_mono(s@, stop + 1, s@.len() as int);
        } else {
            lemma_fit_prefix_at(s@, n as int, s@.len() as int);
        }
    }
    let whole = !done;
    let used = if done { utf8_bytes(&out, n) } else { bytes };
    (out, used, whole)
}

/// Byte length of a string known to fit in `n` bytes.
fn utf8_bytes(s: &String, n: usize) -> (r: usize)
    requires utf8_len(s@) <= n,
    ensures r == utf8_len(s@),
{
    let mut bytes: usize = 0;
    for c in it: s.chars()
        invariant
            it.seq() == s@,
            utf8_len(s@) <= n,
            bytes == utf8_len(s@.take(it.index() as int)),
    {
        proof {
            lemma_utf8_len_take_step(s@, it.index() as int);
            lemma_utf8_len_prefix_mono(s@, it.index() + 1, s@.len() as int);
            assert(s@.take(s@.len() as int) =~= s@);
        }
        bytes = bytes + width_of(c);
    }
    proof { assert(s@.take(s@.len() as int) =~= s@); }
    bytes
}

/// `s` with every newline replaced by a space (`str::replace` of '\n' by " ").
pub open spec fn newline_to_space(s: Seq<char>) -> Seq<char> {
    s.map_values(|c: char| if c == '\n' { ' ' } else { c })
}

/// Replaces every newline of `s` with a space.
pub fn replace_newlines(s: &str) -> (r: String)
    ensures r@ == newline_to_space(s@),
{
    let mut out = String::new();
    for c in it: s.chars()
        invariant
            it.seq() == s@,
            out@ == newline_to_space(s@.take(it.index() as int)),
    {
        if c == '\n' {
            push_char(&mut out, ' ');
        } else {
            push_char(&mut out, c);
        }
        assert(out@ =~= newline_to_space(s@.take(it.index() + 1)));
    }
    assert(s@.take(s@.len() as int) =~= s@);
    out
}

/// `s` kept whole when it fits in `limit` bytes, else its first `keep` bytes
/// followed by three dots; `None` where byte `keep` falls inside a char, the
/// input on which slicing `&s[..keep]` panics.
pub open spec fn ellipsize(s: Seq<char>, limit: int, keep: int) -> Option<Seq<char>> {
    if utf8_len(s) <= limit {
        Some(s)
    } else if is_cut(s, keep) {
        Some(fit_prefix(s, keep) + "..."@)
    } else {
        None
    }
}

/// The view of an optional string.
pub open spec fn opt_view(o: Option<String>) -> Option<Seq<char>> {
    match o {
        Some(s) => Some(s@),
        None => None,
    }
}

/// `ellipsize` in executable code.
pub fn try_ellipsize(s: &str, limit: usize, keep: usize) -> (r: Option<String>)
    ensures opt_view(r) == ellipsize(s@, limit as int, keep as int),
{
    let (_, _, whole) = byte_prefix(s, limit);
    if whole {
        return Some(s.to_owned());
    }
    let (mut head, used, _) = byte_prefix(s, keep);
    if used == keep {
        head.append("...");
        Some(head)
    } else {
        None
    }
}

/// Decimal digit `d` (0..10).
pub open spec fn digit_char(d: nat) -> char {
    (48 + d) as char
}

/// Decimal text of `n`, as `format!("{}", n)` writes it.
pub open spec fn dec(n: nat) -> Seq<char>
    decreases n,
{
    if n < 10 {
        seq![digit_char(n)]
    } else {
        dec(n / 10).push(digit_char(n % 10))
    }
}

/// Decimal text of `n`.
pub fn decimal(n: u64) -> (r: String)
    ensures r@ == dec(n as nat),
    decreases n,
{
    if n < 10 {
        let mut s = String::new();
        push_char(&mut s, ((48 + n) as u8) as char);
        assert(s@ =~= seq![digit_char(n as nat)]);
        s
    } else {
        let mut s = decimal(n / 10);
        push_char(&mut s, ((48 + n % 10) as u8) as char);
        s
    }
}

/// `parts` joined with `sep` between consecutive parts.
pub open spec fn join(parts: Seq<Seq<char>>, sep: Seq<char>) -> Seq<char>
    decreases parts.len(),
{
    if parts.len() == 0 {
        seq![]
    } else if parts.len() == 1 {
        parts[0]
    } else {
        join(parts.drop_last(), sep) + sep + parts.last()
    }
}

/// Joins strings with a separator (`[String]::join`).
pub fn join_strings(parts: &Vec<String>, sep: &str) -> (r: String)
    ensures r@ == join(parts@.map_values(|p: String| p@), sep@),
{
    let ghost views = parts@.map_values(|p: String| p@);
    let mut out = String::new();
    let mut i: usize = 0;
    while i < parts.len()
        invariant
            i <= parts@.len(),
            views == parts@.map_values(|p: String| p@),
            out@ == join(views.take(i as int), sep@),
        decreases parts.len() - i,
    {
        if i > 0 {
            out.append(sep);
        }
        out.append(parts[i].as_str());
        assert(views.take(i + 1).drop_last() =~= views.take(i as int));
        i = i + 1;
    }
    assert(views.take(parts@.len() as int) =~= views);
    out
}

} // verus!
