//! A JSON document model for the pieces of pi session records that the
//! collector interprets, with lookups and the compact text form.

use vstd::prelude::*;
use crate::text::push_char;
use vstd::string::*;
use vstd::std_specs::iter::IteratorSpec;

verus! {

/// A parsed JSON value. Numbers keep their JSON text; object entries keep
/// the order in which the document parser yields them.
pub enum JsonValue {
    Null,
    Bool(bool),
    Number(String),
    Str(String),
    Array(Vec<JsonValue>),
    Object(Vec<(String, JsonValue)>),
}

/// Index of the first entry of `entries` whose key is `key`.
pub open spec fn entry_index(entries: Seq<(String, JsonValue)>, key: Seq<char>) -> Option<int>
    decreases entries.len(),
{
    if entries.len() == 0 {
        None
    } else if entries[0].0@ == key {
        Some(0)
    } else {
        match entry_index(entries.drop_first(), key) {
            Some(i) => Some(i + 1),
            None => None,
        }
    }
}

/// The value that `v.get(key)` finds: the entry of that key in an object.
pub open spec fn json_get(v: JsonValue, key: Seq<char>) -> Option<JsonValue> {
    match v {
        JsonValue::Object(entries) => match entry_index(entries@, key) {
            Some(i) => Some(entries@[i].1),
            None => None,
        },
        _ => None,
    }
}

/// The string that `v.as_str()` gives.
pub open spec fn json_str(v: Option<JsonValue>) -> Option<Seq<char>> {
    match v {
        Some(JsonValue::Str(s)) => Some(s@),
        _ => None,
    }
}

/// The boolean that `v.as_bool()` gives.
pub open spec fn json_bool(v: Option<JsonValue>) -> Option<bool> {
    match v {
        Some(JsonValue::Bool(b)) => Some(b),
        _ => None,
    }
}

pub proof fn lemma_entry_index_bounds(entries: Seq<(String, JsonValue)>, key: Seq<char>)
    ensures
        entry_index(entries, key) matches Some(i) ==> 0 <= i < entries.len() && entries[i].0@ == key,
    decreases entries.len(),
{
    if entries.len() > 0 {
        lemma_entry_index_bounds(entries.drop_first(), key);
    }
}

impl JsonValue {
    /// Looks up `key` in an object value (`serde_json::Value::get`).
    pub fn get(&self, key: &str) -> (r: Option<&JsonValue>)
        ensures
            match r {
                Some(x) => json_get(*self, key@) == Some(*x),
                None => json_get(*self, key@) is None,
            },
    {
        match self {
            JsonValue::Object(entries) => {
                let mut i: usize = 0;
                assert(entries@.skip(0) =~= entries@);
                while i < entries.len()
                    invariant
                        *self == JsonValue::Object(*entries),
                        i <= entries@.len(),
                        entry_index(entries@, key@) == (match entry_index(entries@.skip(i as int), key@) {
                            Some(j) => Some(j + i),
                            None => None::<int>,
                        }),
                    decreases entries.len() - i,
                {
                    assert(entries@.skip(i as int).drop_first() =~= entries@.skip(i + 1));
                    assert(entries@.skip(i as int)[0] == entries@[i as int]);
                    if str_eq(entries[i].0.as_str(), key) {
                        assert(entries@.skip(i as int)[0].0@ == key@);
                        assert(entry_index(entries@.skip(i as int), key@) == Some(0int));
                        assert(entry_index(entries@, key@) == Some(i as int));
                        assert(*self == JsonValue::Object(*entries));
                        assert(json_get(*self, key@) == Some(entries@[i as int].1));
                        let r = &entries[i].1;
                        assert(*r == entries@[i as int].1);
                        return Some(r);
                    }
                    i = i + 1;
                }
                None
            }
            _ => None,
        }
    }

    /// `serde_json::Value::as_str`.
    pub fn as_str(&self) -> (r: Option<&str>)
        ensures
            match r {
                Some(s) => json_str(Some(*self)) == Some(s@),
                None => json_str(Some(*self)) is None,
            },
    {
        match self {
            JsonValue::Str(s) => Some(s.as_str()),
            _ => None,
        }
    }

    /// `serde_json::Value::as_bool`.
    pub fn as_bool(&self) -> (r: Option<bool>)
        ensures r == json_bool(Some(*self)),
    {
        match self {
            JsonValue::Bool(b) => Some(*b),
            _ => None,
        }
    }
}

/// Lower-case hexadecimal digit of `d` (0..16).
pub open spec fn hex_digit(d: u32) -> char {
    if d < 10 {
        (48 + d) as char
    } else {
        (87 + d) as char
    }
}

/// How a char is written inside a JSON string literal.
pub open spec fn escape_char(c: char) -> Seq<char> {
    if c == '"' {
        seq!['\\', '"']
    } else if c == '\\' {
        seq!['\\', '\\']
    } else if c == '\n' {
        seq!['\\', 'n']
    } else if c == '\r' {
        seq!['\\', 'r']
    } else if c == '\t' {
        seq!['\\', 't']
    } else if c == '\x08' {
        seq!['\\', 'b']
    } else if c == '\x0c' {
        seq!['\\', 'f']
    } else if (c as u32) < 0x20 {
        seq!['\\', 'u', '0', '0', hex_digit((c as u32) / 16), hex_digit((c as u32) % 16)]
    } else {
        seq![c]
    }
}

/// The escaped body of a JSON string literal.
pub open spec fn escaped(s: Seq<char>) -> Seq<char>
    decreases s.len(),
{
    if s.len() == 0 {
        seq![]
    } else {
        escaped(s.drop_last()) + escape_char(s.last())
    }
}

/// A JSON string literal.
pub open spec fn quoted(s: Seq<char>) -> Seq<char> {
    seq!['"'] + escaped(s) + seq!['"']
}

/// The compact JSON text of a value (no whitespace between tokens), as
/// `serde_json::to_string` writes it.
pub open spec fn json_text(v: JsonValue) -> Seq<char>
    decreases v, 0int,
{
    match v {
        JsonValue::Null => "null"@,
        JsonValue::Bool(b) => if b { "true"@ } else { "false"@ },
        JsonValue::Number(t) => t@,
        JsonValue::Str(s) => quoted(s@),
        JsonValue::Array(items) => seq!['['] + items_text(items@, items@.len() as int) + seq![']'],
        JsonValue::Object(entries) => seq!['{'] + entries_text(entries@, entries@.len() as int) + seq!['}'],
    }
}

/// The first `n` array elements, comma separated.
pub open spec fn items_text(items: Seq<JsonValue>, n: int) -> Seq<char>
    decreases items, n,
{
    if n <= 0 || n > items.len() {
        seq![]
    } else if n == 1 {
        json_text(items[0])
    } else {
        items_text(items, n - 1) + seq![','] + json_text(items[n - 1])
    }
}

/// The first `n` object entries as `"key":value`, comma separated.
pub open spec fn entries_text(entries: Seq<(String, JsonValue)>, n: int) -> Seq<char>
    decreases entries, n,
{
    if n <= 0 || n > entries.len() {
        seq![]
    } else if n == 1 {
        quoted(entries[0].0@) + seq![':'] + json_text(entries[0].1)
    } else {
        entries_text(entries, n - 1) + seq![','] + quoted(entries[n - 1].0@) + seq![':'] + json_text(entries[n - 1].1)
    }
}

fn hex_char(d: u32) -> (c: char)
    requires d < 16,
    ensures c == hex_digit(d),
{
    if d < 10 {
        ((48 + d) as u8) as char
    } else {
        ((87 + d) as u8) as char
    }
}

/// Appends the escaped form of `s` to `out`.
pub(crate) fn write_escaped(s: &str, out: &mut String)
    ensures final(out)@ == old(out)@ + escaped(s@),
{
    let ghost start = out@;
    for c in it: s.chars()
        invariant
            it.seq() == s@,
            out@ == start + escaped(s@.take(it.index() as int)),
    {
        let ghost before = out@;
        let v = c as u32;
        if c == '"' {
            push_char(out, '\\');
            push_char(out, '"');
        } else if c == '\\' {
            push_char(out, '\\');
            push_char(out, '\\');
        } else if c == '\n' {
            push_char(out, '\\');
            push_char(out, 'n');
        } else if c == '\r' {
            push_char(out, '\\');
            push_char(out, 'r');
        } else if c == '\t' {
            push_char(out, '\\');
            push_char(out, 't');
        } else if c == '\x08' {
            push_char(out, '\\');
            push_char(out, 'b');
        } else if c == '\x0c' {
            push_char(out, '\\');
            push_char(out, 'f');
        } else if v < 0x20 {
            push_char(out, '\\');
            push_char(out, 'u');
            push_char(out, '0');
            push_char(out, '0');
            push_char(out, hex_char(v / 16));
            push_char(out, hex_char(v % 16));
        } else {
            push_char(out, c);
        }
        proof {
            let k = it.index() as int;
            assert(s@.take(k + 1).drop_last() =~= s@.take(k));
            assert(s@.take(k + 1).last() == c);
            assert(out@ =~= before + escape_char(c));
        }
    }
    proof {
        assert(s@.take(s@.len() as int) =~= s@);
    }
}

/// Appends the compact JSON text of `v` to `out`.
pub fn write_json(v: &JsonValue, out: &mut String)
    ensures final(out)@ == old(out)@ + json_text(*v),
    decreases v,
{
    let ghost start = out@;
    match v {
        JsonValue::Null => {
            out.append("null");
        }
        JsonValue::Bool(b) => {
            if *b {
                out.append("true");
            } else {
                out.append("false");
            }
        }
        JsonValue::Number(t) => {
            out.append(t.as_str());
        }
        JsonValue::Str(s) => {
            push_char(out, '"');
            write_escaped(s.as_str(), out);
            push_char(out, '"');
            assert(out@ =~= start + quoted(s@));
        }
        JsonValue::Array(items) => {
            push_char(out, '[');
            let mut i: usize = 0;
            while i < items.len()
                invariant
                    *v == JsonValue::Array(*items),
                    i <= items@.len(),
                    out@ == start + seq!['['] + items_text(items@, i as int),
                decreases items.len() - i,
            {
                let ghost before = out@;
                if i > 0 {
                    push_char(out, ',');
                }
                proof {
                    assert(decreases_to!(*items => items@));
                    assert(decreases_to!(items@ => items@[i as int]));
                    assert(decreases_to!(*v => (*v)->Array_0));
                    assert(decreases_to!(*v => items@[i as int]));
                }
                write_json(&items[i], out);
                assert(out@ =~= start + seq!['['] + items_text(items@, i + 1));
                i = i + 1;
            }
            push_char(out, ']');
            assert(out@ =~= start + json_text(*v));
        }
        JsonValue::Object(entries) => {
            push_char(out, '{');
            let mut i: usize = 0;
            while i < entries.len()
                invariant
                    *v == JsonValue::Object(*entries),
                    i <= entries@.len(),
                    out@ == start + seq!['{'] + entries_text(entries@, i as int),
                decreases entries.len() - i,
            {
                if i > 0 {
                    push_char(out, ',');
                }
                push_char(out, '"');
                write_escaped(entries[i].0.as_str(), out);
                push_char(out, '"');
                push_char(out, ':');
                proof {
                    assert(decreases_to!(*entries => entries@));
                    assert(decreases_to!(entries@ => entries@[i as int]));
                    assert(decreases_to!(entries@[i as int] => entries@[i as int].1));
                    assert(decreases_to!(*v => (*v)->Object_0));
                    assert(decreases_to!(*v => entries@[i as int].1));
                }
                write_json(&entries[i].1, out);
                assert(out@ =~= start + seq!['{'] + entries_text(entries@, i + 1));
                i = i + 1;
            }
            push_char(out, '}');
            assert(out@ =~= start + json_text(*v));
        }
    }
}

/// The compact JSON text of `v` (`serde_json::Value`'s `to_string`).
pub fn json_to_string(v: &JsonValue) -> (r: String)
    ensures r@ == json_text(*v),
{
    let mut out = String::new();
    write_json(v, &mut out);
    assert(out@ =~= json_text(*v));
    out
}

/// String equality on views.
pub fn str_eq(a: &str, b: &str) -> (r: bool)
    ensures r == (a@ == b@),
{
    let mut ai = a.chars();
    let mut bi = b.chars();
    let ghost a0 = a@;
    let ghost b0 = b@;
    let ghost mut k: int = 0;
    loop
        invariant
            a0 == a@, b0 == b@,
            ai.remaining() == a@.skip(k),
            bi.remaining() == b@.skip(k),
            0 <= k <= a@.len(), k <= b@.len(),
            a@.take(k) == b@.take(k),
        decreases a@.len() - k,
    {
        let ca = ai.next();
        let cb = bi.next();
        match (ca, cb) {
            (None, None) => {
                assert(a@ =~= a@.take(k));
                assert(b@ =~= b@.take(k));
                return true;
            }
            (Some(x), Some(y)) => {
                if x != y {
                    assert(a@[k] == x);
                    assert(b@[k] == y);
                    return false;
                }
                assert(a@.take(k + 1) =~= a@.take(k).push(x));
                assert(b@.take(k + 1) =~= b@.take(k).push(y));
                proof { k = k + 1; }
            }
            _ => {
                return false;
            }
        }
    }
}

} // verus!
