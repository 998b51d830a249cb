//! Pi session collector: turns the records of a session `.jsonl` file into
//! `PiSignals`: cumulative totals, the conversation tree (linked by
//! `parentId`), the deepest leaf since the last user message, and tool
//! errors that no assistant text followed.

use vstd::prelude::*;
use vstd::string::*;
use crate::json::{JsonValue, json_bool, json_get, json_str, json_text, json_to_string, str_eq};
use crate::schema::raw_signals::{ContentBlock, ContentBlockModel, ErrorSummary, ErrorSummaryModel, LeafKind, LeafSummary, LeafSummaryModel, MessageNode, MessageNodeModel, MessageRole, blocks_view, nodes_view, opt_error};
use crate::schema::pane_view::opt_str;
use crate::schema::raw_signals::{ModelId, PiSignals, ThinkingLevel};
use crate::time::{Timestamp, parse_rfc3339, parse_uuid, rfc3339_instant, utc_now, uuid_value};
use crate::text::{dec, decimal};
use crate::schema::pane_view::clone_opt_str;
use crate::text::{ellipsize, join, join_strings, newline_to_space, opt_view, replace_newlines, try_ellipsize};

verus! {

// ── Records of a session file ────────────────────────────────────────

/// One line of a pi session file.
pub enum RawRecord {
    Session { id: String, cwd: Option<String>, timestamp: String },
    ModelChange { provider: String, model_id: String, parent_id: Option<String> },
    ThinkingLevelChange { thinking_level: String },
    Message { parent_id: Option<String>, message: RawMessage },
}

/// The `message` object of a message record. `cost_micros` is the message's
/// `usage.cost.total`, in millionths of a US dollar.
pub struct RawMessage {
    pub id: Option<String>,
    pub role: String,
    pub content: JsonValue,
    pub cost_micros: Option<u64>,
}

// ── Content blocks ───────────────────────────────────────────────────

/// The text parts of the elements of a tool-result content array.
pub open spec fn text_parts(items: Seq<JsonValue>) -> Seq<Seq<char>>
    decreases items.len(),
{
    if items.len() == 0 {
        seq![]
    } else {
        let init = text_parts(items.drop_last());
        match json_str(json_get(items.last(), "text"@)) {
            Some(t) => init.push(t),
            None => init,
        }
    }
}

/// The readable text of a tool-result block: its `content` string, the
/// `text` of each element of its `content` array joined by newlines, or the
/// JSON text of any other `content`; empty when there is no `content`.
pub open spec fn tool_result_text(block: JsonValue) -> Seq<char> {
    match json_get(block, "content"@) {
        None => seq![],
        Some(c) => match c {
            JsonValue::Str(s) => s@,
            JsonValue::Array(items) => join(text_parts(items@), "\n"@),
            _ => json_text(c),
        },
    }
}

/// The content block that one element of a content array denotes, if any.
pub open spec fn block_of(b: JsonValue) -> Option<ContentBlockModel> {
    match json_str(json_get(b, "type"@)) {
        None => None,
        Some(ty) => if ty == "text"@ {
            match json_str(json_get(b, "text"@)) {
                Some(t) => Some(ContentBlockModel::Text { text: t }),
                None => None,
            }
        } else if ty == "thinking"@ {
            match json_str(json_get(b, "text"@)) {
                Some(t) => Some(ContentBlockModel::Thinking { text: t }),
                None => None,
            }
        } else if ty == "toolCall"@ {
            Some(ContentBlockModel::ToolCall {
                name: match json_str(json_get(b, "name"@)) {
                    Some(n) => n,
                    None => "?"@,
                },
                arguments: match json_get(b, "arguments"@) {
                    Some(a) => json_text(a),
                    None => json_text(JsonValue::Null),
                },
            })
        } else if ty == "toolResult"@ {
            Some(ContentBlockModel::ToolResult {
                content: tool_result_text(b),
                is_error: match json_bool(json_get(b, "isError"@)) {
                    Some(e) => e,
                    None => false,
                },
            })
        } else {
            None
        },
    }
}

/// The blocks of a content array, skipping elements that denote none.
pub open spec fn blocks_of(items: Seq<JsonValue>) -> Seq<ContentBlockModel>
    decreases items.len(),
{
    if items.len() == 0 {
        seq![]
    } else {
        let init = blocks_of(items.drop_last());
        match block_of(items.last()) {
            Some(b) => init.push(b),
            None => init,
        }
    }
}

/// The blocks of a message's `content`: an array of blocks, or a plain
/// string taken as one text block; nothing for any other value.
pub open spec fn content_of(raw: JsonValue) -> Seq<ContentBlockModel> {
    match raw {
        JsonValue::Array(items) => blocks_of(items@),
        JsonValue::Str(s) => seq![ContentBlockModel::Text { text: s@ }],
        _ => seq![],
    }
}

/// Extracts the readable text of a tool-result block.
pub fn extract_tool_result_content(block: &JsonValue) -> (r: String)
    ensures r@ == tool_result_text(*block),
{
    match block.get("content") {
        None => String::new(),
        Some(c) => match c {
            JsonValue::Str(s) => s.clone(),
            JsonValue::Array(items) => {
                let mut parts: Vec<String> = Vec::new();
                let mut i: usize = 0;
                while i < items.len()
                    invariant
                        i <= items@.len(),
                        parts@.map_values(|p: String| p@) == text_parts(items@.take(i as int)),
                    decreases items.len() - i,
                {
                    assert(items@.take(i + 1).drop_last() =~= items@.take(i as int));
                    match items[i].get("text") {
                        Some(t) => match t.as_str() {
                            Some(x) => {
                                parts.push(x.to_owned());
                                assert(parts@.map_values(|p: String| p@) =~= text_parts(items@.take(i as int)).push(x@));
                            },
                            None => {},
                        },
                        None => {},
                    }
                    i = i + 1;
                }
                assert(items@.take(items@.len() as int) =~= items@);
                join_strings(&parts, "\n")
            },
            _ => json_to_string(c),
        },
    }
}

fn str_field(v: &JsonValue, key: &str) -> (r: Option<String>)
    ensures opt_view(r) == json_str(json_get(*v, key@)),
{
    match v.get(key) {
        Some(x) => match x.as_str() {
            Some(s) => Some(s.to_owned()),
            None => None,
        },
        None => None,
    }
}

fn block_from(b: &JsonValue) -> (r: Option<ContentBlock>)
    ensures
        match r {
            Some(x) => block_of(*b) == Some(x@),
            None => block_of(*b) is None,
        },
{
    let ty = match str_field(b, "type") {
        Some(t) => t,
        None => return None,
    };
    if str_eq(ty.as_str(), "text") {
        match str_field(b, "text") {
            Some(t) => Some(ContentBlock::Text { text: t }),
            None => None,
        }
    } else if str_eq(ty.as_str(), "thinking") {
        match str_field(b, "text") {
            Some(t) => Some(ContentBlock::Thinking { text: t }),
            None => None,
        }
    } else if str_eq(ty.as_str(), "toolCall") {
        let name = match str_field(b, "name") {
            Some(n) => n,
            None => String::from_str("?"),
        };
        let arguments = match b.get("arguments") {
            Some(a) => json_to_string(a),
            None => json_to_string(&JsonValue::Null),
        };
        Some(ContentBlock::ToolCall { name, arguments })
    } else if str_eq(ty.as_str(), "toolResult") {
        let content = extract_tool_result_content(b);
        let is_error = match b.get("isError") {
            Some(e) => match e.as_bool() {
                Some(x) => x,
                None => false,
            },
            None => false,
        };
        Some(ContentBlock::ToolResult { content, is_error })
    } else {
        None
    }
}

/// Parses pi's content value into content blocks (pi writes tool calls as
/// `"toolCall"`, in camelCase).
pub fn parse_content(raw: &JsonValue) -> (r: Vec<ContentBlock>)
    ensures blocks_view(r@) == content_of(*raw),
{
    match raw {
        JsonValue::Array(items) => {
            let mut out: Vec<ContentBlock> = Vec::new();
            let mut i: usize = 0;
            while i < items.len()
                invariant
                    i <= items@.len(),
                    blocks_view(out@) == blocks_of(items@.take(i as int)),
                decreases items.len() - i,
            {
                assert(items@.take(i + 1).drop_last() =~= items@.take(i as int));
                match block_from(&items[i]) {
                    Some(b) => {
                        out.push(b);
                        assert(blocks_view(out@) =~= blocks_of(items@.take(i as int)).push(b@));
                    },
                    None => {},
                }
                i = i + 1;
            }
            assert(items@.take(items@.len() as int) =~= items@);
            out
        },
        JsonValue::Str(s) => {
            let mut out: Vec<ContentBlock> = Vec::new();
            out.push(ContentBlock::Text { text: s.clone() });
            assert(blocks_view(out@) =~= seq![ContentBlockModel::Text { text: s@ }]);
            out
        },
        _ => {
            let out: Vec<ContentBlock> = Vec::new();
            assert(blocks_view(out@) =~= Seq::<ContentBlockModel>::empty());
            out
        },
    }
}

// ── Truncation ───────────────────────────────────────────────────────

/// `max_len - 3`, or 0 when `max_len < 3`.
pub open spec fn keep_len(max_len: int) -> int {
    if max_len >= 3 { max_len - 3 } else { 0 }
}

/// The collector's truncation: newlines become spaces; text longer than
/// `max_len` bytes keeps its first `max_len - 3` bytes and gains "...";
/// `None` where that cut falls inside a char (where slicing panics).
pub open spec fn truncated(s: Seq<char>, max_len: int) -> Option<Seq<char>> {
    ellipsize(newline_to_space(s), max_len, keep_len(max_len))
}

/// `truncated` in executable code; `None` where the cut falls inside a char.
pub fn try_truncate(s: &str, max_len: usize) -> (r: Option<String>)
    ensures opt_view(r) == truncated(s@, max_len as int),
{
    let t = replace_newlines(s);
    try_ellipsize(t.as_str(), max_len, max_len.saturating_sub(3))
}

/// Truncates `s` to `max_len` bytes as `truncated` says.
pub fn truncate(s: &str, max_len: usize) -> (r: String)
    requires truncated(s@, max_len as int) is Some,
    ensures Some(r@) == truncated(s@, max_len as int),
{
    match try_truncate(s, max_len) {
        Some(t) => t,
        None => String::new(),
    }
}

// ── Conversation tree ────────────────────────────────────────────────

/// Indices, in order, of the first `n` nodes whose parent id is `id`.
pub open spec fn child_indices(nodes: Seq<MessageNodeModel>, id: Seq<char>, n: int) -> Seq<int>
    decreases n,
{
    if n <= 0 || n > nodes.len() {
        seq![]
    } else if nodes[n - 1].parent_id == Some(id) {
        child_indices(nodes, id, n - 1).push(n - 1)
    } else {
        child_indices(nodes, id, n - 1)
    }
}

/// Indices, in order, of the nodes whose parent id is `id` (the child map
/// that `parentId` links give).
pub open spec fn children_of(nodes: Seq<MessageNodeModel>, id: Seq<char>) -> Seq<int> {
    child_indices(nodes, id, nodes.len() as int)
}

/// How many of the first `n` nodes have an id outside `seen`.
pub open spec fn unseen_count(nodes: Seq<MessageNodeModel>, seen: Set<Seq<char>>, n: int) -> nat
    decreases n,
{
    if n <= 0 || n > nodes.len() {
        0
    } else {
        unseen_count(nodes, seen, n - 1) + if seen.contains(nodes[n - 1].id) { 0nat } else { 1nat }
    }
}

/// The termination measure of the tree walks.
pub open spec fn unseen(nodes: Seq<MessageNodeModel>, seen: Set<Seq<char>>) -> nat {
    unseen_count(nodes, seen, nodes.len() as int)
}

pub proof fn lemma_unseen_superset(nodes: Seq<MessageNodeModel>, seen: Set<Seq<char>>, more: Set<Seq<char>>, n: int)
    requires seen.subset_of(more),
    ensures unseen_count(nodes, more, n) <= unseen_count(nodes, seen, n),
    decreases n,
{
    if n > 0 && n <= nodes.len() {
        lemma_unseen_superset(nodes, seen, more, n - 1);
    }
}

pub proof fn lemma_unseen_insert(nodes: Seq<MessageNodeModel>, seen: Set<Seq<char>>, i: int, n: int)
    requires
        0 <= i < n <= nodes.len(),
        !seen.contains(nodes[i].id),
    ensures unseen_count(nodes, seen.insert(nodes[i].id), n) < unseen_count(nodes, seen, n),
    decreases n,
{
    if i < n - 1 {
        lemma_unseen_insert(nodes, seen, i, n - 1);
    } else {
        lemma_unseen_superset(nodes, seen, seen.insert(nodes[i].id), n - 1);
    }
}

/// The deeper of two walk results, each a node and its depth; on equal
/// depths the second one (the later reply).
pub open spec fn deeper(a: Option<(int, int)>, b: Option<(int, int)>) -> Option<(int, int)> {
    match (a, b) {
        (Some(x), Some(y)) => if y.1 >= x.1 { b } else { a },
        (None, _) => b,
        (_, None) => a,
    }
}

/// Depth-first walk from node `i` to its deepest descendant: ids already in
/// `seen` are not entered again (so cycles end), a node without children is
/// its own deepest node (depth 0), and among the children's walks the one
/// that reaches deepest wins, the later child on a tie. Gives the node
/// found with its depth below `i`, and the ids seen after the walk.
pub open spec fn walk(nodes: Seq<MessageNodeModel>, i: int, seen: Set<Seq<char>>) -> (Option<(int, int)>, Set<Seq<char>>)
    decreases unseen(nodes, seen), 0int, 0int,
{
    if !(0 <= i < nodes.len()) || seen.contains(nodes[i].id) {
        (None, seen)
    } else {
        let s1 = seen.insert(nodes[i].id);
        let kids = children_of(nodes, nodes[i].id);
        proof { lemma_unseen_insert(nodes, seen, i, nodes.len() as int); }
        if kids.len() == 0 {
            (Some((i, 0)), s1)
        } else {
            walk_kids(nodes, kids, kids.len() as int, s1)
        }
    }
}

/// The walk over the first `k` of `kids`, in order; depths count from the
/// parent of `kids`.
pub open spec fn walk_kids(nodes: Seq<MessageNodeModel>, kids: Seq<int>, k: int, seen: Set<Seq<char>>) -> (Option<(int, int)>, Set<Seq<char>>)
    decreases unseen(nodes, seen), 1int, k,
{
    if k <= 0 || k > kids.len() {
        (None, seen)
    } else {
        let prev = walk_kids(nodes, kids, k - 1, seen);
        let s = seen.union(prev.1);
        proof { lemma_unseen_superset(nodes, seen, s, nodes.len() as int); }
        let cur = walk(nodes, kids[k - 1], s);
        let below = match cur.0 {
            Some(x) => Some((x.0, x.1 + 1)),
            None => None,
        };
        (deeper(prev.0, below), s.union(cur.1))
    }
}

proof fn lemma_unseen_bound(nodes: Seq<MessageNodeModel>, seen: Set<Seq<char>>, n: int)
    ensures unseen_count(nodes, seen, n) <= if n < 0 { 0 } else { n },
    decreases n,
{
    if n > 0 && n <= nodes.len() {
        lemma_unseen_bound(nodes, seen, n - 1);
    }
}

/// The ids of a list of strings.
pub open spec fn id_set(v: Seq<String>) -> Set<Seq<char>> {
    Set::new(|x: Seq<char>| exists|j: int| 0 <= j < v.len() && v[j]@ == x)
}

proof fn lemma_id_set_push(v: Seq<String>, s: String)
    ensures id_set(v.push(s)) == id_set(v).insert(s@),
{
    assert forall|x: Seq<char>| id_set(v.push(s)).contains(x) implies id_set(v).insert(s@).contains(x) by {
        let j = choose|j: int| 0 <= j < v.push(s).len() && v.push(s)[j]@ == x;
        if j < v.len() {
            assert(v[j]@ == x);
        }
    }
    assert forall|x: Seq<char>| id_set(v).insert(s@).contains(x) implies id_set(v.push(s)).contains(x) by {
        if x == s@ {
            assert(v.push(s)[v.len() as int]@ == x);
        } else {
            let j = choose|j: int| 0 <= j < v.len() && v[j]@ == x;
            assert(v.push(s)[j]@ == x);
        }
    }
    assert(id_set(v.push(s)) =~= id_set(v).insert(s@));
}

proof fn lemma_id_set_extends(v: Seq<String>, w: Seq<String>)
    requires v.len() <= w.len(), forall|j: int| 0 <= j < v.len() ==> w[j] == v[j],
    ensures id_set(v).subset_of(id_set(w)),
{
    assert forall|x: Seq<char>| id_set(v).contains(x) implies id_set(w).contains(x) by {
        let j = choose|j: int| 0 <= j < v.len() && v[j]@ == x;
        assert(w[j]@ == x);
    }
}

fn seen_contains(seen: &Vec<String>, id: &String) -> (r: bool)
    ensures r == id_set(seen@).contains(id@),
{
    let mut j: usize = 0;
    while j < seen.len()
        invariant
            j <= seen@.len(),
            forall|k: int| 0 <= k < j ==> seen@[k]@ != id@,
        decreases seen.len() - j,
    {
        if seen[j] == *id {
            assert(seen@[j as int]@ == id@);
            return true;
        }
        j = j + 1;
    }
    false
}

/// `r` holds, for each node, the indices of the nodes whose parent id is that
/// node's id.
pub open spec fn is_child_map(nodes: Seq<MessageNodeModel>, r: Seq<Vec<usize>>) -> bool {
    &&& r.len() == nodes.len()
    &&& forall|i: int| 0 <= i < nodes.len() ==>
        (#[trigger] r[i])@.map_values(|x: usize| x as int) == children_of(nodes, nodes[i].id)
}

pub proof fn lemma_child_indices_bound(nodes: Seq<MessageNodeModel>, id: Seq<char>, n: int)
    ensures forall|k: int| 0 <= k < child_indices(nodes, id, n).len() ==>
        0 <= #[trigger] child_indices(nodes, id, n)[k] < nodes.len(),
    decreases n,
{
    if n > 0 && n <= nodes.len() {
        lemma_child_indices_bound(nodes, id, n - 1);
        let c = child_indices(nodes, id, n - 1);
        assert forall|k: int| 0 <= k < child_indices(nodes, id, n).len() implies
            0 <= #[trigger] child_indices(nodes, id, n)[k] < nodes.len() by {
            if k < c.len() {
                assert(child_indices(nodes, id, n)[k] == c[k]);
            }
        }
    }
}

fn children_list(nodes: &Vec<MessageNode>, id: &String) -> (r: Vec<usize>)
    ensures r@.map_values(|x: usize| x as int) == children_of(nodes_view(nodes@), id@),
{
    let ghost nv = nodes_view(nodes@);
    let mut out: Vec<usize> = Vec::new();
    let mut j: usize = 0;
    while j < nodes.len()
        invariant
            nv == nodes_view(nodes@),
            j <= nodes@.len(),
            out@.map_values(|x: usize| x as int) == child_indices(nv, id@, j as int),
        decreases nodes.len() - j,
    {
        let is_child = match &nodes[j].parent_id {
            Some(p) => *p == *id,
            None => false,
        };
        assert(nv[j as int] == nodes@[j as int]@);
        if is_child {
            out.push(j);
            assert(out@.map_values(|x: usize| x as int) =~= child_indices(nv, id@, j as int).push(j as int));
        }
        j = j + 1;
    }
    out
}

/// Builds the child map of the conversation tree from `parentId` links.
pub fn build_child_map(nodes: &Vec<MessageNode>) -> (r: Vec<Vec<usize>>)
    ensures is_child_map(nodes_view(nodes@), r@),
{
    let ghost nv = nodes_view(nodes@);
    let mut out: Vec<Vec<usize>> = Vec::new();
    let mut i: usize = 0;
    while i < nodes.len()
        invariant
            nv == nodes_view(nodes@),
            i <= nodes@.len(),
            out@.len() == i,
            forall|k: int| 0 <= k < i ==>
                (#[trigger] out@[k])@.map_values(|x: usize| x as int) == children_of(nv, nv[k].id),
        decreases nodes.len() - i,
    {
        let kids = children_list(nodes, &nodes[i].id);
        out.push(kids);
        i = i + 1;
    }
    out
}

/// The optional index as an optional integer.
pub open spec fn opt_int(o: Option<usize>) -> Option<int> {
    match o {
        Some(x) => Some(x as int),
        None => None,
    }
}

/// A walk result in integers.
pub open spec fn opt_pair(o: Option<(usize, usize)>) -> Option<(int, int)> {
    match o {
        Some(x) => Some((x.0 as int, x.1 as int)),
        None => None,
    }
}

/// Walks from node `i` to its deepest descendant, giving it with its depth
/// (see `walk`).
pub fn walk_deepest(nodes: &Vec<MessageNode>, kids: &Vec<Vec<usize>>, i: usize, seen: &mut Vec<String>) -> (r: Option<(usize, usize)>)
    requires
        is_child_map(nodes_view(nodes@), kids@),
        i < nodes@.len(),
    ensures
        (opt_pair(r), id_set(final(seen)@)) == walk(nodes_view(nodes@), i as int, id_set(old(seen)@)),
        old(seen)@.len() <= final(seen)@.len(),
        forall|j: int| 0 <= j < old(seen)@.len() ==> final(seen)@[j] == old(seen)@[j],
        r matches Some(d) ==> d.0 < nodes@.len() && d.1 < unseen(nodes_view(nodes@), id_set(old(seen)@)),
    decreases unseen(nodes_view(nodes@), id_set(old(seen)@)), 0int, 0int,
{
    let ghost nv = nodes_view(nodes@);
    let ghost seen0 = id_set(seen@);
    assert(nv[i as int] == nodes@[i as int]@);
    if seen_contains(seen, &nodes[i].id) {
        return None;
    }
    seen.push(nodes[i].id.clone());
    proof {
        lemma_id_set_push(old(seen)@, nodes@[i as int].id);
        lemma_unseen_insert(nv, seen0, i as int, nv.len() as int);
    }
    let ghost s1 = id_set(seen@);
    let ks = &kids[i];
    let ghost kq = children_of(nv, nv[i as int].id);
    assert(ks@.map_values(|x: usize| x as int) == kq);
    proof { lemma_child_indices_bound(nv, nv[i as int].id, nv.len() as int); }
    if ks.len() == 0 {
        assert(kq.len() == 0);
        return Some((i, 0));
    }
    let mut deepest: Option<(usize, usize)> = None;
    let mut k: usize = 0;
    while k < ks.len()
        invariant
            nv == nodes_view(nodes@),
            is_child_map(nv, kids@),
            ks@.map_values(|x: usize| x as int) == kq,
            forall|m: int| 0 <= m < kq.len() ==> 0 <= #[trigger] kq[m] < nv.len(),
            k <= ks@.len(),
            (opt_pair(deepest), id_set(seen@)) == walk_kids(nv, kq, k as int, s1),
            s1.subset_of(id_set(seen@)),
            unseen(nv, s1) < unseen(nv, seen0),
            old(seen)@.len() < seen@.len(),
            forall|j: int| 0 <= j < old(seen)@.len() ==> seen@[j] == old(seen)@[j],
            deepest matches Some(d) ==> d.0 < nodes@.len() && d.1 < unseen(nv, seen0),
            seen0 == id_set(old(seen)@),
        decreases ks.len() - k,
    {
        let ghost before = seen@;
        let ghost sb = id_set(seen@);
        proof {
            lemma_unseen_superset(nv, s1, sb, nv.len() as int);
            assert(s1.union(sb) =~= sb);
            assert(kq[k as int] == ks@[k as int] as int);
        }
        assert(unseen(nodes_view(nodes@), id_set(seen@)) < unseen(nodes_view(nodes@), id_set(old(seen)@)));
        let d = walk_deepest(nodes, kids, ks[k], seen);
        proof {
            lemma_id_set_extends(before, seen@);
            assert(sb.union(id_set(seen@)) =~= id_set(seen@));
        }
        match d {
            Some((n, dep)) => {
                proof {
                    lemma_unseen_bound(nv, seen0, nv.len() as int);
                    assert(dep < unseen(nv, sb));
                    assert(unseen(nv, sb) <= unseen(nv, s1));
                    assert(unseen(nv, seen0) <= nv.len());
                    assert(nv.len() == nodes@.len());
                }
                let nlen = nodes.len();
                assert(dep < nlen);
                let below = dep + 1;
                match deepest {
                    Some((_, best)) => {
                        if below >= best {
                            deepest = Some((n, below));
                        }
                    },
                    None => {
                        deepest = Some((n, below));
                    },
                }
            },
            None => {},
        }
        k = k + 1;
    }
    deepest
}

// ── Counting tool calls ──────────────────────────────────────────────

/// Number of tool-call blocks among `c`.
pub open spec fn tool_call_count(c: Seq<ContentBlockModel>) -> nat
    decreases c.len(),
{
    if c.len() == 0 {
        0
    } else {
        tool_call_count(c.drop_last()) + if c.last() is ToolCall { 1nat } else { 0nat }
    }
}

/// The tool calls of one node, as a `u32` (`count() as u32`).
pub open spec fn node_calls(n: MessageNodeModel) -> nat {
    (tool_call_count(n.content) as u32) as nat
}

/// Total tool calls in the subtree walked from node `i`, by the same
/// depth-first walk as `walk` (each id counted once).
pub open spec fn count_walk(nodes: Seq<MessageNodeModel>, i: int, seen: Set<Seq<char>>) -> (nat, Set<Seq<char>>)
    decreases unseen(nodes, seen), 0int, 0int,
{
    if !(0 <= i < nodes.len()) || seen.contains(nodes[i].id) {
        (0, seen)
    } else {
        let s1 = seen.insert(nodes[i].id);
        let kids = children_of(nodes, nodes[i].id);
        proof { lemma_unseen_insert(nodes, seen, i, nodes.len() as int); }
        let r = count_kids(nodes, kids, kids.len() as int, s1);
        (node_calls(nodes[i]) + r.0, r.1)
    }
}

/// The counts over the first `k` of `kids`, in order.
pub open spec fn count_kids(nodes: Seq<MessageNodeModel>, kids: Seq<int>, k: int, seen: Set<Seq<char>>) -> (nat, Set<Seq<char>>)
    decreases unseen(nodes, seen), 1int, k,
{
    if k <= 0 || k > kids.len() {
        (0, seen)
    } else {
        let prev = count_kids(nodes, kids, k - 1, seen);
        let s = seen.union(prev.1);
        proof { lemma_unseen_superset(nodes, seen, s, nodes.len() as int); }
        let cur = count_walk(nodes, kids[k - 1], s);
        (prev.0 + cur.0, s.union(cur.1))
    }
}

fn count_block_calls(content: &Vec<ContentBlock>) -> (r: u32)
    ensures r == (tool_call_count(blocks_view(content@)) as u32),
{
    let ghost bv = blocks_view(content@);
    let mut n: usize = 0;
    let mut i: usize = 0;
    while i < content.len()
        invariant
            bv == blocks_view(content@),
            i <= content@.len(),
            n == tool_call_count(bv.take(i as int)),
            n <= i,
        decreases content.len() - i,
    {
        assert(bv.take(i + 1).drop_last() =~= bv.take(i as int));
        assert(bv[i as int] == content@[i as int]@);
        match &content[i] {
            ContentBlock::ToolCall { .. } => {
                n = n + 1;
            },
            _ => {},
        }
        i = i + 1;
    }
    assert(bv.take(content@.len() as int) =~= bv);
    #[verifier::truncate]
    (n as u32)
}

/// Counts the tool calls in the subtree walked from node `i`; `None` where
/// the `u32` count overflows (where the sum panics).
pub fn count_tools_in_subtree(nodes: &Vec<MessageNode>, kids: &Vec<Vec<usize>>, i: usize, seen: &mut Vec<String>) -> (r: Option<u32>)
    requires
        is_child_map(nodes_view(nodes@), kids@),
        i < nodes@.len(),
    ensures
        id_set(final(seen)@) == count_walk(nodes_view(nodes@), i as int, id_set(old(seen)@)).1,
        match r {
            Some(c) => c == count_walk(nodes_view(nodes@), i as int, id_set(old(seen)@)).0,
            None => count_walk(nodes_view(nodes@), i as int, id_set(old(seen)@)).0 > u32::MAX,
        },
        old(seen)@.len() <= final(seen)@.len(),
        forall|j: int| 0 <= j < old(seen)@.len() ==> final(seen)@[j] == old(seen)@[j],
    decreases unseen(nodes_view(nodes@), id_set(old(seen)@)), 0int, 0int,
{
    let ghost nv = nodes_view(nodes@);
    let ghost seen0 = id_set(seen@);
    assert(nv[i as int] == nodes@[i as int]@);
    if seen_contains(seen, &nodes[i].id) {
        return Some(0);
    }
    seen.push(nodes[i].id.clone());
    proof {
        lemma_id_set_push(old(seen)@, nodes@[i as int].id);
        lemma_unseen_insert(nv, seen0, i as int, nv.len() as int);
    }
    let ghost s1 = id_set(seen@);
    let ks = &kids[i];
    let ghost kq = children_of(nv, nv[i as int].id);
    assert(ks@.map_values(|x: usize| x as int) == kq);
    proof { lemma_child_indices_bound(nv, nv[i as int].id, nv.len() as int); }
    let own = count_block_calls(&nodes[i].content);
    let mut total: u32 = own;
    let mut overflow = false;
    let mut k: usize = 0;
    while k < ks.len()
        invariant
            nv == nodes_view(nodes@),
            is_child_map(nv, kids@),
            ks@.map_values(|x: usize| x as int) == kq,
            forall|m: int| 0 <= m < kq.len() ==> 0 <= #[trigger] kq[m] < nv.len(),
            k <= ks@.len(),
            id_set(seen@) == count_kids(nv, kq, k as int, s1).1,
            !overflow ==> total == own + count_kids(nv, kq, k as int, s1).0,
            overflow ==> own + count_kids(nv, kq, k as int, s1).0 > u32::MAX,
            own == node_calls(nv[i as int]),
            i < nv.len(),
            seen0 == id_set(old(seen)@),
            s1.subset_of(id_set(seen@)),
            unseen(nv, s1) < unseen(nv, seen0),
            old(seen)@.len() < seen@.len(),
            forall|j: int| 0 <= j < old(seen)@.len() ==> seen@[j] == old(seen)@[j],
        decreases ks.len() - k,
    {
        let ghost before = seen@;
        let ghost sb = id_set(seen@);
        proof {
            lemma_unseen_superset(nv, s1, sb, nv.len() as int);
            assert(s1.union(sb) =~= sb);
            assert(kq[k as int] == ks@[k as int] as int);
        }
        assert(unseen(nodes_view(nodes@), id_set(seen@)) < unseen(nodes_view(nodes@), id_set(old(seen)@)));
        let c = count_tools_in_subtree(nodes, kids, ks[k], seen);
        proof {
            lemma_id_set_extends(before, seen@);
            assert(sb.union(id_set(seen@)) =~= id_set(seen@));
        }
        if !overflow {
            match c {
                Some(c) => {
                    match total.checked_add(c) {
                        Some(t) => { total = t; },
                        None => { overflow = true; },
                    }
                },
                None => { overflow = true; },
            }
        }
        k = k + 1;
    }
    if overflow { None } else { Some(total) }
}

// ── What the deepest message holds ───────────────────────────────────

/// The text of the first text block.
pub open spec fn first_text(c: Seq<ContentBlockModel>) -> Option<Seq<char>>
    decreases c.len(),
{
    if c.len() == 0 {
        None
    } else {
        match c[0] {
            ContentBlockModel::Text { text } => Some(text),
            _ => first_text(c.drop_first()),
        }
    }
}

/// The name and arguments of the first tool-call block.
pub open spec fn first_tool_call(c: Seq<ContentBlockModel>) -> Option<(Seq<char>, Seq<char>)>
    decreases c.len(),
{
    if c.len() == 0 {
        None
    } else {
        match c[0] {
            ContentBlockModel::ToolCall { name, arguments } => Some((name, arguments)),
            _ => first_tool_call(c.drop_first()),
        }
    }
}

/// The content of the first tool-result block.
pub open spec fn first_tool_result(c: Seq<ContentBlockModel>) -> Option<Seq<char>>
    decreases c.len(),
{
    if c.len() == 0 {
        None
    } else {
        match c[0] {
            ContentBlockModel::ToolResult { content, .. } => Some(content),
            _ => first_tool_result(c.drop_first()),
        }
    }
}

/// The content of the first tool-result block that reports an error.
pub open spec fn first_error(c: Seq<ContentBlockModel>) -> Option<Seq<char>>
    decreases c.len(),
{
    if c.len() == 0 {
        None
    } else {
        match c[0] {
            ContentBlockModel::ToolResult { content, is_error } => if is_error {
                Some(content)
            } else {
                first_error(c.drop_first())
            },
            _ => first_error(c.drop_first()),
        }
    }
}

/// Scans the blocks once for the first text, tool call, tool result and
/// tool error.
fn scan_blocks(content: &Vec<ContentBlock>) -> (r: (Option<String>, Option<(String, String)>, Option<String>, Option<String>))
    ensures
        opt_view(r.0) == first_text(blocks_view(content@)),
        (match r.1 { Some(p) => Some((p.0@, p.1@)), None => None }) == first_tool_call(blocks_view(content@)),
        opt_view(r.2) == first_tool_result(blocks_view(content@)),
        opt_view(r.3) == first_error(blocks_view(content@)),
{
    let ghost bv = blocks_view(content@);
    let mut text: Option<String> = None;
    let mut call: Option<(String, String)> = None;
    let mut result: Option<String> = None;
    let mut error: Option<String> = None;
    let mut i: usize = 0;
    assert(bv.skip(0) =~= bv);
    while i < content.len()
        invariant
            bv == blocks_view(content@),
            i <= content@.len(),
            first_text(bv) == (if text is Some { opt_view(text) } else { first_text(bv.skip(i as int)) }),
            first_tool_call(bv) == (if call is Some {
                match call { Some(p) => Some((p.0@, p.1@)), None => None }
            } else {
                first_tool_call(bv.skip(i as int))
            }),
            first_tool_result(bv) == (if result is Some { opt_view(result) } else { first_tool_result(bv.skip(i as int)) }),
            first_error(bv) == (if error is Some { opt_view(error) } else { first_error(bv.skip(i as int)) }),
        decreases content.len() - i,
    {
        assert(bv.skip(i as int).drop_first() =~= bv.skip(i + 1));
        assert(bv.skip(i as int)[0] == content@[i as int]@);
        match &content[i] {
            ContentBlock::Text { text: t } => {
                if text.is_none() {
                    text = Some(t.clone());
                }
            },
            ContentBlock::ToolCall { name, arguments } => {
                if call.is_none() {
                    call = Some((name.clone(), arguments.clone()));
                }
            },
            ContentBlock::ToolResult { content: c, is_error } => {
                if result.is_none() {
                    result = Some(c.clone());
                }
                if *is_error && error.is_none() {
                    error = Some(c.clone());
                }
            },
            _ => {},
        }
        i = i + 1;
    }
    (text, call, result, error)
}

/// Index of the last user message.
pub open spec fn last_user_index(nodes: Seq<MessageNodeModel>) -> Option<int>
    decreases nodes.len(),
{
    if nodes.len() == 0 {
        None
    } else if nodes.last().role == MessageRole::User {
        Some(nodes.len() - 1)
    } else {
        last_user_index(nodes.drop_last())
    }
}

/// The deepest node found walking from the last user message, when it is
/// not that message itself (then the agent has not answered yet).
pub open spec fn deepest_since_last_user(nodes: Seq<MessageNodeModel>) -> Option<int> {
    match last_user_index(nodes) {
        None => None,
        Some(u) => match walk(nodes, u, Set::empty()).0 {
            Some(x) => if x.0 == u { None } else { Some(x.0) },
            None => None,
        },
    }
}

/// The summary of a deepest node holding `c`; `None` where a truncation
/// falls inside a char (where the collector panics).
pub open spec fn leaf_of(c: Seq<ContentBlockModel>) -> Option<LeafSummaryModel> {
    if first_error(c) is Some {
        match first_tool_result(c) {
            Some(t) => match truncated(t, 100) {
                Some(x) => Some(LeafSummaryModel { kind: LeafKind::ToolResult, tool_name: None, snippet: Some(x) }),
                None => None,
            },
            None => Some(LeafSummaryModel { kind: LeafKind::ToolResult, tool_name: None, snippet: None }),
        }
    } else if first_tool_call(c) is Some && first_text(c) is None {
        let (name, args) = first_tool_call(c).unwrap();
        match truncated(args, 80) {
            Some(x) => Some(LeafSummaryModel {
                kind: LeafKind::ToolCall,
                tool_name: Some(name),
                snippet: Some(name + " "@ + x),
            }),
            None => None,
        }
    } else if first_text(c) is Some {
        match truncated(first_text(c).unwrap(), 200) {
            Some(x) => Some(LeafSummaryModel { kind: LeafKind::AssistantText, tool_name: None, snippet: Some(x) }),
            None => None,
        }
    } else {
        Some(LeafSummaryModel { kind: LeafKind::ToolResult, tool_name: None, snippet: None })
    }
}

/// The leaf summary when no assistant message follows the last user message.
pub open spec fn pending_leaf() -> LeafSummaryModel {
    LeafSummaryModel { kind: LeafKind::UserPending, tool_name: None, snippet: None }
}

/// Where the agent is right now; `None` where the collector panics.
pub open spec fn deepest_leaf(nodes: Seq<MessageNodeModel>) -> Option<LeafSummaryModel> {
    match deepest_since_last_user(nodes) {
        None => Some(pending_leaf()),
        Some(d) => leaf_of(nodes[d].content),
    }
}

/// A tool error at the deepest node with no text after it; the outer `None`
/// is where the collector panics.
pub open spec fn error_since(nodes: Seq<MessageNodeModel>) -> Option<Option<ErrorSummaryModel>> {
    match deepest_since_last_user(nodes) {
        None => Some(None),
        Some(d) => {
            let c = nodes[d].content;
            if first_error(c) is None || first_text(c) is Some {
                Some(None)
            } else {
                match truncated(first_error(c).unwrap(), 200) {
                    Some(x) => Some(Some(ErrorSummaryModel { tool_name: "unknown"@, excerpt: x })),
                    None => None,
                }
            }
        },
    }
}

/// Tool calls in the subtree of the last user message.
pub open spec fn tools_since(nodes: Seq<MessageNodeModel>) -> nat {
    match last_user_index(nodes) {
        None => 0,
        Some(u) => count_walk(nodes, u, Set::empty()).0,
    }
}

/// The first text of the last user message that has one.
pub open spec fn last_user_text(nodes: Seq<MessageNodeModel>) -> Option<Seq<char>>
    decreases nodes.len(),
{
    if nodes.len() == 0 {
        None
    } else if nodes.last().role == MessageRole::User && first_text(nodes.last().content) is Some {
        first_text(nodes.last().content)
    } else {
        last_user_text(nodes.drop_last())
    }
}

/// `t` when it has at most `max` chars, else its first `max - 3` chars
/// followed by "...".
pub open spec fn clip_chars(t: Seq<char>, max: int) -> Seq<char> {
    if t.len() <= max {
        t
    } else {
        t.subrange(0, max - 3) + "..."@
    }
}

/// The last user message, truncated to 100 chars.
pub open spec fn last_user_message(nodes: Seq<MessageNodeModel>) -> Option<Seq<char>> {
    match last_user_text(nodes) {
        None => None,
        Some(t) => Some(clip_chars(t, 100)),
    }
}

/// `clip_chars` in executable code.
pub fn clip_to_chars(t: &str, max: usize) -> (r: String)
    requires max >= 3,
    ensures r@ == clip_chars(t@, max as int),
{
    let n = t.unicode_len();
    if n <= max {
        return t.to_string();
    }
    let head = t.substring_char(0, max - 3);
    let mut out = head.to_string();
    out.append("...");
    out
}

fn find_last_user_index(nodes: &Vec<MessageNode>) -> (r: Option<usize>)
    ensures
        opt_int(r) == last_user_index(nodes_view(nodes@)),
        r matches Some(u) ==> u < nodes@.len(),
{
    let ghost nv = nodes_view(nodes@);
    let mut j: usize = nodes.len();
    assert(nv.take(j as int) =~= nv);
    while j > 0
        invariant
            nv == nodes_view(nodes@),
            j <= nodes@.len(),
            last_user_index(nv) == last_user_index(nv.take(j as int)),
        decreases j,
    {
        assert(nv.take(j as int).drop_last() =~= nv.take(j - 1));
        assert(nv.take(j as int).last() == nodes@[j - 1]@);
        if nodes[j - 1].role == MessageRole::User {
            return Some(j - 1);
        }
        j = j - 1;
    }
    assert(nv.take(0) =~= Seq::<MessageNodeModel>::empty());
    None
}

/// The last user message text, truncated (see `last_user_message`).
pub fn find_last_user_message(nodes: &Vec<MessageNode>) -> (r: Option<String>)
    ensures opt_view(r) == last_user_message(nodes_view(nodes@)),
{
    let ghost nv = nodes_view(nodes@);
    let mut j: usize = nodes.len();
    assert(nv.take(j as int) =~= nv);
    while j > 0
        invariant
            nv == nodes_view(nodes@),
            j <= nodes@.len(),
            last_user_text(nv) == last_user_text(nv.take(j as int)),
        decreases j,
    {
        assert(nv.take(j as int).drop_last() =~= nv.take(j - 1));
        assert(nv.take(j as int).last() == nodes@[j - 1]@);
        if nodes[j - 1].role == MessageRole::User {
            let (t, _, _, _) = scan_blocks(&nodes[j - 1].content);
            match t {
                Some(t) => {
                    return Some(clip_to_chars(t.as_str(), 100));
                },
                None => {},
            }
        }
        j = j - 1;
    }
    assert(nv.take(0) =~= Seq::<MessageNodeModel>::empty());
    None
}

fn leaf_from(content: &Vec<ContentBlock>) -> (r: Option<LeafSummary>)
    ensures
        match r {
            Some(l) => leaf_of(blocks_view(content@)) == Some(l@),
            None => leaf_of(blocks_view(content@)) is None,
        },
{
    let (text, call, result, error) = scan_blocks(content);
    if error.is_some() {
        match result {
            Some(t) => match try_truncate(t.as_str(), 100) {
                Some(x) => Some(LeafSummary { kind: LeafKind::ToolResult, tool_name: None, snippet: Some(x) }),
                None => None,
            },
            None => Some(LeafSummary { kind: LeafKind::ToolResult, tool_name: None, snippet: None }),
        }
    } else if call.is_some() && text.is_none() {
        let (name, args) = match call {
            Some(p) => p,
            None => { return None; },
        };
        match try_truncate(args.as_str(), 80) {
            Some(x) => {
                let mut snippet = name.clone();
                snippet.append(" ");
                snippet.append(x.as_str());
                Some(LeafSummary { kind: LeafKind::ToolCall, tool_name: Some(name), snippet: Some(snippet) })
            },
            None => None,
        }
    } else if text.is_some() {
        let t = match text {
            Some(t) => t,
            None => { return None; },
        };
        match try_truncate(t.as_str(), 200) {
            Some(x) => Some(LeafSummary { kind: LeafKind::AssistantText, tool_name: None, snippet: Some(x) }),
            None => None,
        }
    } else {
        Some(LeafSummary { kind: LeafKind::ToolResult, tool_name: None, snippet: None })
    }
}

/// Walks from the last user message to the deepest node and summarizes it;
/// `None` where a snippet cut would fall inside a char.
pub fn walk_deepest_leaf(nodes: &Vec<MessageNode>, kids: &Vec<Vec<usize>>) -> (r: Option<LeafSummary>)
    requires is_child_map(nodes_view(nodes@), kids@),
    ensures
        match r {
            Some(l) => deepest_leaf(nodes_view(nodes@)) == Some(l@),
            None => deepest_leaf(nodes_view(nodes@)) is None,
        },
{
    let pending = LeafSummary { kind: LeafKind::UserPending, tool_name: None, snippet: None };
    let u = match find_last_user_index(nodes) {
        Some(u) => u,
        None => { return Some(pending); },
    };
    let mut seen: Vec<String> = Vec::new();
    proof { assert(id_set(seen@) =~= Set::<Seq<char>>::empty()); }
    match walk_deepest(nodes, kids, u, &mut seen) {
        None => Some(pending),
        Some((d, _)) => {
            if d == u {
                return Some(pending);
            }
            assert(nodes_view(nodes@)[d as int] == nodes@[d as int]@);
            leaf_from(&nodes[d].content)
        },
    }
}

/// Detects a tool error at the deepest node that no text follows; the outer
/// `None` is where the excerpt cut would fall inside a char.
pub fn detect_error_since_last_user(nodes: &Vec<MessageNode>, kids: &Vec<Vec<usize>>) -> (r: Option<Option<ErrorSummary>>)
    requires is_child_map(nodes_view(nodes@), kids@),
    ensures
        match r {
            Some(e) => error_since(nodes_view(nodes@)) == Some(opt_error(e)),
            None => error_since(nodes_view(nodes@)) is None,
        },
{
    let u = match find_last_user_index(nodes) {
        Some(u) => u,
        None => { return Some(None); },
    };
    let mut seen: Vec<String> = Vec::new();
    proof { assert(id_set(seen@) =~= Set::<Seq<char>>::empty()); }
    let d = match walk_deepest(nodes, kids, u, &mut seen) {
        None => { return Some(None); },
        Some((d, _)) => d,
    };
    if d == u {
        return Some(None);
    }
    assert(nodes_view(nodes@)[d as int] == nodes@[d as int]@);
    let (text, _, _, error) = scan_blocks(&nodes[d].content);
    if error.is_none() || text.is_some() {
        return Some(None);
    }
    let e = match error {
        Some(e) => e,
        None => { return Some(None); },
    };
    match try_truncate(e.as_str(), 200) {
        Some(x) => Some(Some(ErrorSummary { tool_name: String::from_str("unknown"), excerpt: x })),
        None => None,
    }
}

/// Counts the tool calls after the last user message; `None` where the
/// `u32` count overflows.
pub fn count_tools_since_last_user(nodes: &Vec<MessageNode>, kids: &Vec<Vec<usize>>) -> (r: Option<u32>)
    requires is_child_map(nodes_view(nodes@), kids@),
    ensures
        match r {
            Some(c) => c == tools_since(nodes_view(nodes@)),
            None => tools_since(nodes_view(nodes@)) > u32::MAX,
        },
{
    let u = match find_last_user_index(nodes) {
        Some(u) => u,
        None => { return Some(0); },
    };
    let mut seen: Vec<String> = Vec::new();
    proof { assert(id_set(seen@) =~= Set::<Seq<char>>::empty()); }
    count_tools_in_subtree(nodes, kids, u, &mut seen)
}

// ── Building the signals ─────────────────────────────────────────────

/// Why a session could not be turned into signals.
pub enum Error {
    /// The file could not be read: its path and the reason.
    Io(String, String),
    /// No session record gave a session id; carries the file's path.
    NoSessionRecord(String),
}

/// What the records of a session accumulate, record by record.
pub struct SessionScan {
    pub session_id: u128,
    pub started_at: Timestamp,
    pub cwd: Seq<char>,
    pub models: Seq<(Seq<char>, Seq<char>)>,
    pub thinking: Option<ThinkingLevel>,
    pub nodes: Seq<MessageNodeModel>,
    pub tool_calls: nat,
    pub cost: nat,
    pub cost_since_user: nat,
    pub index: nat,
}

/// The role that a message's `role` text names.
pub open spec fn role_of(s: Seq<char>) -> Option<MessageRole> {
    if s == "user"@ {
        Some(MessageRole::User)
    } else if s == "assistant"@ {
        Some(MessageRole::Assistant)
    } else if s == "toolResult"@ {
        Some(MessageRole::ToolResult)
    } else {
        None
    }
}

/// The thinking level that a `thinkingLevel` text names (unknown = Low).
pub open spec fn level_of(s: Seq<char>) -> ThinkingLevel {
    if s == "xhigh"@ {
        ThinkingLevel::Xhigh
    } else if s == "high"@ {
        ThinkingLevel::High
    } else if s == "medium"@ {
        ThinkingLevel::Medium
    } else {
        ThinkingLevel::Low
    }
}

/// The id of a message node: the message's own id, or `mc-node-N` where `N`
/// counts the message records before it.
pub open spec fn node_id(id: Option<String>, index: nat) -> Seq<char> {
    match id {
        Some(i) => i@,
        None => "mc-node-"@ + dec(index),
    }
}

/// The scan before any record; `now` stands in for unknown times.
pub open spec fn scan_start(now: Timestamp) -> SessionScan {
    SessionScan {
        session_id: 0,
        started_at: now,
        cwd: "."@,
        models: seq![],
        thinking: None,
        nodes: seq![],
        tool_calls: 0,
        cost: 0,
        cost_since_user: 0,
        index: 0,
    }
}

/// The scan after one more record. A session record sets the id (0 where it
/// is not a UUID), the cwd and, when it parses, the start time; a message
/// with a known role becomes a node stamped `now`. Costs add up; the cost
/// since the last user message restarts at each user message.
pub open spec fn scan_step(acc: SessionScan, rec: RawRecord, now: Timestamp) -> SessionScan {
    match rec {
        RawRecord::Session { id, cwd, timestamp } => SessionScan {
            session_id: match uuid_value(id@) {
                Some(u) => u,
                None => 0,
            },
            cwd: match cwd {
                Some(c) => c@,
                None => "."@,
            },
            started_at: match rfc3339_instant(timestamp@) {
                Some(t) => t,
                None => acc.started_at,
            },
            ..acc
        },
        RawRecord::ModelChange { provider, model_id, .. } => SessionScan {
            models: acc.models.push((provider@, model_id@)),
            ..acc
        },
        RawRecord::ThinkingLevelChange { thinking_level } => SessionScan {
            thinking: Some(level_of(thinking_level@)),
            ..acc
        },
        RawRecord::Message { parent_id, message } => match role_of(message.role@) {
            None => SessionScan { index: acc.index + 1, ..acc },
            Some(role) => {
                let content = content_of(message.content);
                let node = MessageNodeModel {
                    id: node_id(message.id, acc.index),
                    parent_id: opt_str(parent_id),
                    role,
                    content,
                    timestamp: now,
                };
                let c: nat = match message.cost_micros {
                    Some(x) => x as nat,
                    None => 0,
                };
                SessionScan {
                    nodes: acc.nodes.push(node),
                    tool_calls: acc.tool_calls + node_calls(node),
                    cost: acc.cost + c,
                    cost_since_user: if role == MessageRole::User { 0 } else { acc.cost_since_user + c },
                    index: acc.index + 1,
                    ..acc
                }
            },
        },
    }
}

/// The scan after all of `records`.
pub open spec fn scan(records: Seq<RawRecord>, now: Timestamp) -> SessionScan
    decreases records.len(),
{
    if records.len() == 0 {
        scan_start(now)
    } else {
        scan_step(scan(records.drop_last(), now), records.last(), now)
    }
}

/// Number of user messages.
pub open spec fn user_count(nodes: Seq<MessageNodeModel>) -> nat
    decreases nodes.len(),
{
    if nodes.len() == 0 {
        0
    } else {
        user_count(nodes.drop_last()) + if nodes.last().role == MessageRole::User { 1nat } else { 0nat }
    }
}

/// `n`, or `u64::MAX` when larger (a saturating sum).
pub open spec fn sat_u64(n: nat) -> u64 {
    if n > u64::MAX { u64::MAX } else { n as u64 }
}

/// The collector does not panic on these records: the `u32` tool-call total
/// does not overflow and, for a session with an id, no truncation cuts a char.
pub open spec fn session_ok(records: Seq<RawRecord>, now: Timestamp) -> bool {
    let sc = scan(records, now);
    &&& sc.tool_calls <= u32::MAX
    &&& sc.session_id != 0 ==> {
        &&& deepest_leaf(sc.nodes) is Some
        &&& error_since(sc.nodes) is Some
        &&& tools_since(sc.nodes) <= u32::MAX
    }
}

/// `p` is what the collector derives from `records` of the file at `path`.
pub open spec fn signals_match(p: PiSignals, path: Seq<char>, records: Seq<RawRecord>, now: Timestamp) -> bool {
    let sc = scan(records, now);
    &&& p.session_id == sc.session_id
    &&& p.session_path@ == path
    &&& p.started_at == sc.started_at
    &&& p.cwd@ == sc.cwd
    &&& p.model@.map_values(|m: ModelId| m@) == sc.models
    &&& p.thinking_level == sc.thinking
    &&& p.total_turns == (user_count(sc.nodes) as u32)
    &&& p.total_tool_calls == sc.tool_calls
    &&& p.total_cost_micros == sat_u64(sc.cost)
    &&& nodes_view(p.conversation_tree@) == sc.nodes
    &&& last_user_message(sc.nodes) == opt_str(p.last_user_message)
    &&& deepest_leaf(sc.nodes) == Some(p.deepest_leaf_since_last_user@)
    &&& p.tool_calls_since_last_user == tools_since(sc.nodes)
    &&& p.cost_since_last_user_micros == sat_u64(sc.cost_since_user)
    &&& error_since(sc.nodes) == Some(opt_error(p.error_since_last_user))
    &&& p.last_activity_at == now
}

/// What building signals from `records` gives: `None` where the collector
/// panics, the missing-session error where no record gave an id, else signals
/// that `signals_match`.
pub open spec fn outcome_ok(r: Option<Result<PiSignals, Error>>, path: Seq<char>, records: Seq<RawRecord>, now: Timestamp) -> bool {
    match r {
        None => !session_ok(records, now),
        Some(Err(e)) => session_ok(records, now) && scan(records, now).session_id == 0
            && (e matches Error::NoSessionRecord(p) && p@ == path),
        Some(Ok(p)) => session_ok(records, now) && scan(records, now).session_id != 0
            && signals_match(p, path, records, now),
    }
}

proof fn lemma_scan_tool_calls_mono(records: Seq<RawRecord>, now: Timestamp, i: int)
    requires 0 <= i <= records.len(),
    ensures scan(records.take(i), now).tool_calls <= scan(records, now).tool_calls,
    decreases records.len() - i,
{
    if i < records.len() {
        lemma_scan_tool_calls_mono(records, now, i + 1);
        assert(records.take(i + 1).drop_last() =~= records.take(i));
    } else {
        assert(records.take(i) =~= records);
    }
}

fn role_from(s: &String) -> (r: Option<MessageRole>)
    ensures r == role_of(s@),
{
    if str_eq(s.as_str(), "user") {
        Some(MessageRole::User)
    } else if str_eq(s.as_str(), "assistant") {
        Some(MessageRole::Assistant)
    } else if str_eq(s.as_str(), "toolResult") {
        Some(MessageRole::ToolResult)
    } else {
        None
    }
}

fn level_from(s: &String) -> (r: ThinkingLevel)
    ensures r == level_of(s@),
{
    if str_eq(s.as_str(), "xhigh") {
        ThinkingLevel::Xhigh
    } else if str_eq(s.as_str(), "high") {
        ThinkingLevel::High
    } else if str_eq(s.as_str(), "medium") {
        ThinkingLevel::Medium
    } else {
        ThinkingLevel::Low
    }
}

fn count_users(nodes: &Vec<MessageNode>) -> (r: u32)
    ensures r == (user_count(nodes_view(nodes@)) as u32),
{
    let ghost nv = nodes_view(nodes@);
    let mut n: usize = 0;
    let mut i: usize = 0;
    while i < nodes.len()
        invariant
            nv == nodes_view(nodes@),
            i <= nodes@.len(),
            n == user_count(nv.take(i as int)),
            n <= i,
        decreases nodes.len() - i,
    {
        assert(nv.take(i + 1).drop_last() =~= nv.take(i as int));
        assert(nv[i as int] == nodes@[i as int]@);
        if nodes[i].role == MessageRole::User {
            n = n + 1;
        }
        i = i + 1;
    }
    assert(nv.take(nodes@.len() as int) =~= nv);
    #[verifier::truncate]
    (n as u32)
}

fn sat_add(a: u64, b: u64) -> (r: u64)
    ensures r == if a + b > u64::MAX { u64::MAX } else { (a + b) as u64 },
{
    a.saturating_add(b)
}

/// Builds `PiSignals` from the records of the session file at `session_path`
/// with `now` as the time of reading; `None` exactly where a cut would fall
/// inside a char or the tool-call count would overflow (see `session_ok`).
pub fn try_build_signals_at(session_path: &str, records: &Vec<RawRecord>, now: Timestamp) -> (r: Option<Result<PiSignals, Error>>)
    ensures outcome_ok(r, session_path@, records@, now),
{
    let ghost rs = records@;
    let mut session_id: u128 = 0;
    let mut started_at = now;
    let mut cwd = String::from_str(".");
    let mut model: Vec<ModelId> = Vec::new();
    let mut thinking_level: Option<ThinkingLevel> = None;
    let mut nodes: Vec<MessageNode> = Vec::new();
    let mut total_tool_calls: u32 = 0;
    let mut total_cost: u64 = 0;
    let mut cost_since_user: u64 = 0;
    let mut message_index: u64 = 0;
    let mut i: usize = 0;
    assert(rs.take(0) =~= Seq::<RawRecord>::empty());
    while i < records.len()
        invariant
            rs == records@,
            i <= rs.len(),
            ({
                let sc = scan(rs.take(i as int), now);
                &&& session_id == sc.session_id
                &&& started_at == sc.started_at
                &&& cwd@ == sc.cwd
                &&& model@.map_values(|m: ModelId| m@) == sc.models
                &&& thinking_level == sc.thinking
                &&& nodes_view(nodes@) == sc.nodes
                &&& total_tool_calls == sc.tool_calls
                &&& total_cost == sat_u64(sc.cost)
                &&& cost_since_user == sat_u64(sc.cost_since_user)
                &&& message_index == sc.index
            }),
            message_index <= i,
        decreases records.len() - i,
    {
        let ghost prev = scan(rs.take(i as int), now);
        assert(rs.take(i + 1).drop_last() =~= rs.take(i as int));
        assert(rs.take(i + 1).last() == rs[i as int]);
        match &records[i] {
            RawRecord::Session { id, cwd: session_cwd, timestamp } => {
                session_id = match parse_uuid(id.as_str()) {
                    Some(u) => u,
                    None => 0,
                };
                cwd = match session_cwd {
                    Some(c) => c.clone(),
                    None => String::from_str("."),
                };
                match parse_rfc3339(timestamp.as_str()) {
                    Some(t) => { started_at = t; },
                    None => {},
                }
            },
            RawRecord::ModelChange { provider, model_id, .. } => {
                model.push(ModelId { provider: provider.clone(), model_id: model_id.clone() });
                assert(model@.map_values(|m: ModelId| m@) =~= prev.models.push((provider@, model_id@)));
            },
            RawRecord::ThinkingLevelChange { thinking_level: tl } => {
                thinking_level = Some(level_from(tl));
            },
            RawRecord::Message { parent_id, message } => {
                let nid = match &message.id {
                    Some(id) => id.clone(),
                    None => {
                        let mut s = String::from_str("mc-node-");
                        let n = decimal(message_index);
                        s.append(n.as_str());
                        s
                    },
                };
                let this_index = message_index;
                message_index = message_index + 1;
                match role_from(&message.role) {
                    None => {},
                    Some(role) => {
                        let content = parse_content(&message.content);
                        let calls = count_block_calls(&content);
                        let c: u64 = match message.cost_micros {
                            Some(x) => x,
                            None => 0,
                        };
                        let node = MessageNode {
                            id: nid,
                            parent_id: clone_opt_str(parent_id),
                            role,
                            content,
                            timestamp: now,
                        };
                        assert(node@.id == node_id(message.id, this_index as nat));
                        nodes.push(node);
                        assert(nodes_view(nodes@) =~= prev.nodes.push(node@));
                        total_tool_calls = match total_tool_calls.checked_add(calls) {
                            Some(t) => t,
                            None => {
                                proof {
                                    assert(scan(rs.take(i + 1), now).tool_calls > u32::MAX);
                                    lemma_scan_tool_calls_mono(rs, now, i + 1);
                                }
                                return None;
                            },
                        };
                        total_cost = sat_add(total_cost, c);
                        if role == MessageRole::User {
                            cost_since_user = 0;
                        } else {
                            cost_since_user = sat_add(cost_since_user, c);
                        }
                    },
                }
            },
        }
        i = i + 1;
    }
    assert(rs.take(rs.len() as int) =~= rs);
    if session_id == 0 {
        return Some(Err(Error::NoSessionRecord(session_path.to_owned())));
    }
    let kids = build_child_map(&nodes);
    let total_turns = count_users(&nodes);
    let last_user_message = find_last_user_message(&nodes);
    let deepest_leaf = match walk_deepest_leaf(&nodes, &kids) {
        Some(l) => l,
        None => { return None; },
    };
    let tool_calls_since_last_user = match count_tools_since_last_user(&nodes, &kids) {
        Some(c) => c,
        None => { return None; },
    };
    let error_since_last_user = match detect_error_since_last_user(&nodes, &kids) {
        Some(e) => e,
        None => { return None; },
    };
    Some(Ok(PiSignals {
        session_id,
        session_path: session_path.to_owned(),
        started_at,
        cwd,
        model,
        thinking_level,
        total_turns,
        total_tool_calls,
        total_cost_micros: total_cost,
        conversation_tree: nodes,
        last_user_message,
        deepest_leaf_since_last_user: deepest_leaf,
        tool_calls_since_last_user,
        cost_since_last_user_micros: cost_since_user,
        error_since_last_user,
        last_activity_at: now,
    }))
}

/// Builds `PiSignals` from records on which the collector does not panic.
pub fn build_signals_at(session_path: &str, records: &Vec<RawRecord>, now: Timestamp) -> (r: Result<PiSignals, Error>)
    requires session_ok(records@, now),
    ensures
        match r {
            Err(e) => scan(records@, now).session_id == 0 && (e matches Error::NoSessionRecord(p) && p@ == session_path@),
            Ok(p) => scan(records@, now).session_id != 0 && signals_match(p, session_path@, records@, now),
        },
{
    match try_build_signals_at(session_path, records, now) {
        Some(r) => r,
        None => Err(Error::NoSessionRecord(session_path.to_owned())),
    }
}

/// Builds `PiSignals` from the records of a session, reading the clock once
/// for the times the records do not carry; `None` exactly where a cut would
/// fall inside a char or the tool-call count would overflow.
pub fn build_signals(session_path: &str, records: &Vec<RawRecord>) -> (r: Option<Result<PiSignals, Error>>)
    ensures exists|now: Timestamp| outcome_ok(r, session_path@, records@, now),
{
    let now = utc_now();
    let r = try_build_signals_at(session_path, records, now);
    assert(outcome_ok(r, session_path@, records@, now));
    r
}

// ── Turns ────────────────────────────────────────────────────────────

/// Whether a record is a message whose role is `user`.
pub open spec fn is_user_record(r: RawRecord) -> bool {
    match r {
        RawRecord::Message { message, .. } => message.role@ == "user"@,
        _ => false,
    }
}

proof fn lemma_user_nodes_count_user_records(records: Seq<RawRecord>, now: Timestamp)
    ensures
        user_count(scan(records, now).nodes) == records.filter(|r: RawRecord| is_user_record(r)).len(),
    decreases records.len(),
{
    reveal_with_fuel(Seq::filter, 1);
    if records.len() > 0 {
        lemma_user_nodes_count_user_records(records.drop_last(), now);
        let acc = scan(records.drop_last(), now);
        let nodes2 = scan(records, now).nodes;
        if nodes2.len() > acc.nodes.len() {
            assert(nodes2.drop_last() =~= acc.nodes);
        } else {
            assert(nodes2 =~= acc.nodes);
        }
    }
}

/// Law: a session's turn count is the number of its message records whose
/// role is `user`, whatever the other records are.
pub proof fn law_turns_count_user_messages(p: PiSignals, path: Seq<char>, records: Seq<RawRecord>, now: Timestamp)
    requires signals_match(p, path, records, now),
    ensures p.total_turns == (records.filter(|r: RawRecord| is_user_record(r)).len() as u32),
{
    lemma_user_nodes_count_user_records(records, now);
}

// ── Records among the lines ──────────────────────────────────────────

/// The records among the parse outcomes of a file's lines, in order; a
/// line that is no record gives `None` and is skipped.
pub open spec fn kept_records(parsed: Seq<Option<RawRecord>>) -> Seq<RawRecord>
    decreases parsed.len(),
{
    if parsed.len() == 0 {
        seq![]
    } else {
        match parsed.last() {
            Some(r) => kept_records(parsed.drop_last()).push(r),
            None => kept_records(parsed.drop_last()),
        }
    }
}

/// The records among the parse outcomes of a file's lines, as
/// `kept_records` says.
pub fn records_of(parsed: Vec<Option<RawRecord>>) -> (r: Vec<RawRecord>)
    ensures r@ == kept_records(parsed@),
{
    let ghost orig = parsed@;
    let mut parsed = parsed;
    let mut out: Vec<RawRecord> = Vec::new();
    let mut i: usize = 0;
    assert(orig.take(0) =~= Seq::<Option<RawRecord>>::empty());
    while i < parsed.len()
        invariant
            parsed@.len() == orig.len(),
            i <= orig.len(),
            forall|j: int| i <= j < orig.len() ==> parsed@[j] == orig[j],
            out@ == kept_records(orig.take(i as int)),
        decreases parsed.len() - i,
    {
        assert(orig.take(i + 1).drop_last() =~= orig.take(i as int));
        assert(orig.take(i + 1).last() == orig[i as int]);
        let item = parsed[i].take();
        match item {
            Some(rec) => {
                out.push(rec);
            },
            None => {},
        }
        i = i + 1;
    }
    assert(orig.take(orig.len() as int) =~= orig);
    out
}

proof fn lemma_kept_records_add(p: Seq<Option<RawRecord>>, q: Seq<Option<RawRecord>>)
    ensures kept_records(p + q) == kept_records(p) + kept_records(q),
    decreases q.len(),
{
    if q.len() == 0 {
        assert(p + q =~= p);
        assert(kept_records(p) + kept_records(q) =~= kept_records(p));
    } else {
        assert((p + q).drop_last() =~= p + q.drop_last());
        assert((p + q).last() == q.last());
        lemma_kept_records_add(p, q.drop_last());
        match q.last() {
            Some(r) => {
                assert((kept_records(p) + kept_records(q.drop_last())).push(r)
                    =~= kept_records(p) + kept_records(q.drop_last()).push(r));
            },
            None => {},
        }
    }
}

/// Law: a line that is no record, wherever it stands among the lines,
/// leaves the records read from a file unchanged.
pub proof fn law_non_records_are_ignored(p: Seq<Option<RawRecord>>, q: Seq<Option<RawRecord>>)
    ensures kept_records(p + seq![None] + q) == kept_records(p + q),
{
    lemma_kept_records_add(p + seq![None], q);
    lemma_kept_records_add(p, seq![None]);
    lemma_kept_records_add(p, q);
    let n = seq![None::<RawRecord>];
    assert(n.drop_last() =~= Seq::<Option<RawRecord>>::empty());
    assert(n.last() is None);
    assert(kept_records(n.drop_last()) =~= Seq::<RawRecord>::empty());
    assert(kept_records(n) =~= Seq::<RawRecord>::empty());
    assert(kept_records(p) + Seq::<RawRecord>::empty() =~= kept_records(p));
}

// ── Laws ─────────────────────────────────────────────────────────────

/// Law: the cost since the last user message never exceeds the session's
/// total cost, in the scan and in the signals built from it.
pub proof fn law_cost_since_user_bounded(records: Seq<RawRecord>, now: Timestamp)
    ensures
        scan(records, now).cost_since_user <= scan(records, now).cost,
        sat_u64(scan(records, now).cost_since_user) <= sat_u64(scan(records, now).cost),
    decreases records.len(),
{
    if records.len() > 0 {
        law_cost_since_user_bounded(records.drop_last(), now);
    }
}

} // verus!
