//! The order of the status table: most urgent attention first, then by
//! pane id, panes that tie on both in their order.

use vstd::prelude::*;
use crate::json::str_eq;
use crate::lines::chars_of;
use crate::reducer::panes_view;
use crate::schema::pane_view::{PaneView, PaneViewModel, attention_rank, rank_of};

verus! {

// ── Ordering pane ids ────────────────────────────────────────────────

/// `a` sorts strictly before `b` as strings do: by code point, a proper
/// prefix first (UTF-8 byte order is code point order).
pub open spec fn id_less(a: Seq<char>, b: Seq<char>) -> bool
    decreases a.len(),
{
    if a.len() == 0 {
        b.len() > 0
    } else if b.len() == 0 {
        false
    } else if a[0] != b[0] {
        a[0] < b[0]
    } else {
        id_less(a.drop_first(), b.drop_first())
    }
}

proof fn lemma_id_less_trans(a: Seq<char>, b: Seq<char>, c: Seq<char>)
    requires
        id_less(a, b),
        id_less(b, c),
    ensures id_less(a, c),
    decreases a.len(),
{
    if a.len() > 0 && b.len() > 0 && c.len() > 0 && a[0] == b[0] && b[0] == c[0] {
        lemma_id_less_trans(a.drop_first(), b.drop_first(), c.drop_first());
    }
}

proof fn lemma_id_less_total(a: Seq<char>, b: Seq<char>)
    ensures
        a == b || id_less(a, b) || id_less(b, a),
        !(id_less(a, b) && id_less(b, a)),
    decreases a.len(),
{
    if a.len() > 0 && b.len() > 0 && a[0] == b[0] {
        lemma_id_less_total(a.drop_first(), b.drop_first());
        if a.drop_first() == b.drop_first() {
            assert(a =~= seq![a[0]] + a.drop_first());
            assert(b =~= seq![b[0]] + b.drop_first());
        }
    } else if a.len() == 0 && b.len() == 0 {
        assert(a =~= b);
    } else if a.len() > 0 && b.len() > 0 {
        assert(a[0] < b[0] || b[0] < a[0]);
    }
}

proof fn lemma_id_less_skip(a: Seq<char>, b: Seq<char>, i: int)
    requires
        0 <= i <= a.len(),
        i <= b.len(),
        a.take(i) == b.take(i),
    ensures id_less(a, b) == id_less(a.skip(i), b.skip(i)),
    decreases i,
{
    if i > 0 {
        assert(a[0] == a.take(i)[0] && b[0] == b.take(i)[0]);
        assert(a.drop_first().take(i - 1) =~= a.take(i).drop_first());
        assert(b.drop_first().take(i - 1) =~= b.take(i).drop_first());
        lemma_id_less_skip(a.drop_first(), b.drop_first(), i - 1);
        assert(a.drop_first().skip(i - 1) =~= a.skip(i));
        assert(b.drop_first().skip(i - 1) =~= b.skip(i));
    } else {
        assert(a.skip(0) =~= a);
        assert(b.skip(0) =~= b);
    }
}

/// Whether pane id `a` sorts strictly before `b`.
pub fn id_before(a: &str, b: &str) -> (r: bool)
    ensures r == id_less(a@, b@),
{
    let ca = chars_of(a);
    let cb = chars_of(b);
    let mut i: usize = 0;
    while i < ca.len() && i < cb.len() && ca[i] == cb[i]
        invariant
            ca@ == a@,
            cb@ == b@,
            i <= ca@.len(),
            i <= cb@.len(),
            a@.take(i as int) == b@.take(i as int),
        decreases ca.len() - i,
    {
        assert(a@.take(i + 1) =~= a@.take(i as int).push(a@[i as int]));
        assert(b@.take(i + 1) =~= b@.take(i as int).push(b@[i as int]));
        i = i + 1;
    }
    proof {
        lemma_id_less_skip(a@, b@, i as int);
        if i < ca.len() {
            assert(a@.skip(i as int)[0] == a@[i as int]);
        }
        if i < cb.len() {
            assert(b@.skip(i as int)[0] == b@[i as int]);
        }
    }
    if i == ca.len() {
        i < cb.len()
    } else if i == cb.len() {
        false
    } else {
        ca[i] < cb[i]
    }
}

// ── Ordering panes ───────────────────────────────────────────────────

/// Pane `a` comes strictly before pane `b` in the status table: higher
/// attention first, then lower pane id, then earlier position.
pub open spec fn status_before(panes: Seq<PaneViewModel>, a: int, b: int) -> bool {
    let ra = attention_rank(panes[a].flags.attention);
    let rb = attention_rank(panes[b].flags.attention);
    ||| ra > rb
    ||| ra == rb && id_less(panes[a].pane_id, panes[b].pane_id)
    ||| ra == rb && panes[a].pane_id == panes[b].pane_id && a < b
}

proof fn lemma_status_trans(panes: Seq<PaneViewModel>, a: int, b: int, c: int)
    requires
        status_before(panes, a, b),
        status_before(panes, b, c),
    ensures status_before(panes, a, c),
{
    let (ia, ib, ic) = (panes[a].pane_id, panes[b].pane_id, panes[c].pane_id);
    lemma_id_less_total(ia, ib);
    lemma_id_less_total(ib, ic);
    lemma_id_less_total(ia, ic);
    if id_less(ia, ib) && id_less(ib, ic) {
        lemma_id_less_trans(ia, ib, ic);
    }
}

proof fn lemma_status_total(panes: Seq<PaneViewModel>, a: int, b: int)
    requires a != b,
    ensures
        status_before(panes, a, b) || status_before(panes, b, a),
        !(status_before(panes, a, b) && status_before(panes, b, a)),
{
    lemma_id_less_total(panes[a].pane_id, panes[b].pane_id);
}

/// Whether pane `a` comes strictly before pane `b`.
fn goes_before(panes: &Vec<PaneView>, a: usize, b: usize) -> (r: bool)
    requires
        a < panes@.len(),
        b < panes@.len(),
    ensures r == status_before(panes_view(panes@), a as int, b as int),
{
    let ghost pv = panes_view(panes@);
    assert(pv[a as int] == panes@[a as int]@ && pv[b as int] == panes@[b as int]@);
    let ra = rank_of(panes[a].flags.attention);
    let rb = rank_of(panes[b].flags.attention);
    if ra != rb {
        return ra > rb;
    }
    if str_eq(panes[a].pane_id.as_str(), panes[b].pane_id.as_str()) {
        proof { lemma_id_less_total(pv[a as int].pane_id, pv[b as int].pane_id); }
        return a < b;
    }
    id_before(panes[a].pane_id.as_str(), panes[b].pane_id.as_str())
}

/// Whether `order` lists each pane index exactly once, in status order.
pub open spec fn is_status_order(panes: Seq<PaneViewModel>, order: Seq<usize>) -> bool {
    &&& order.len() == panes.len()
    &&& forall|k: int| 0 <= k < order.len() ==> (#[trigger] order[k]) < panes.len()
    &&& forall|a: int, b: int| 0 <= a < b < order.len()
        ==> status_before(panes, #[trigger] order[a] as int, #[trigger] order[b] as int)
}

/// The pane indices in status order.
pub fn status_order(panes: &Vec<PaneView>) -> (r: Vec<usize>)
    ensures is_status_order(panes_view(panes@), r@),
{
    let ghost pv = panes_view(panes@);
    let mut order: Vec<usize> = Vec::new();
    let mut x: usize = 0;
    while x < panes.len()
        invariant
            pv == panes_view(panes@),
            x <= panes@.len(),
            order@.len() == x,
            forall|k: int| 0 <= k < order@.len() ==> (#[trigger] order@[k]) < x,
            forall|a: int, b: int| 0 <= a < b < order@.len()
                ==> status_before(pv, #[trigger] order@[a] as int, #[trigger] order@[b] as int),
        decreases panes.len() - x,
    {
        let ghost v = order@;
        let mut p: usize = 0;
        while p < order.len() && !goes_before(panes, x, order[p])
            invariant
                pv == panes_view(panes@),
                v == order@,
                p <= v.len(),
                x < panes@.len(),
                forall|k: int| 0 <= k < v.len() ==> (#[trigger] v[k]) < x,
                forall|k: int| 0 <= k < p ==> !status_before(pv, x as int, (#[trigger] v[k]) as int),
            decreases v.len() - p,
        {
            p = p + 1;
        }
        order.insert(p, x);
        let ghost w = order@;
        assert(w == v.insert(p as int, x));
        assert forall|a: int, b: int| 0 <= a < b < w.len() implies
            status_before(pv, #[trigger] w[a] as int, #[trigger] w[b] as int) by {
            if b < p {
                assert(w[a] == v[a] && w[b] == v[b]);
            } else if b == p {
                assert(w[a] == v[a]);
                lemma_status_total(pv, x as int, v[a] as int);
            } else if a < p {
                assert(w[a] == v[a] && w[b] == v[b - 1]);
            } else if a == p {
                assert(w[b] == v[b - 1]);
                if b - 1 > p {
                    lemma_status_trans(pv, x as int, v[p as int] as int, v[b - 1] as int);
                }
            } else {
                assert(w[a] == v[a - 1] && w[b] == v[b - 1]);
            }
        }
        assert forall|k: int| 0 <= k < w.len() implies (#[trigger] w[k]) < x + 1 by {
            if k < p {
                assert(w[k] == v[k]);
            } else if k > p {
                assert(w[k] == v[k - 1]);
            }
        }
        x = x + 1;
    }
    order
}

/// The panes in status order: higher attention first, then by pane id,
/// ties in their order.
pub fn sort_for_status(panes: &Vec<PaneView>) -> (r: Vec<PaneView>)
    ensures
        exists|order: Seq<usize>| #[trigger] is_status_order(panes_view(panes@), order)
            && panes_view(r@) == order.map_values(|i: usize| panes_view(panes@)[i as int]),
{
    let order = status_order(panes);
    let ghost pv = panes_view(panes@);
    let mut out: Vec<PaneView> = Vec::new();
    let mut k: usize = 0;
    while k < order.len()
        invariant
            pv == panes_view(panes@),
            is_status_order(pv, order@),
            k <= order@.len(),
            panes_view(out@) == order@.take(k as int).map_values(|i: usize| pv[i as int]),
        decreases order.len() - k,
    {
        let i = order[k];
        let ghost before = out@;
        out.push(panes[i].clone());
        assert(panes_view(out@) =~= panes_view(before).push(pv[i as int]));
        assert(order@.take(k + 1).map_values(|i: usize| pv[i as int])
            =~= order@.take(k as int).map_values(|i: usize| pv[i as int]).push(pv[i as int]));
        k = k + 1;
    }
    assert(order@.take(order@.len() as int) =~= order@);
    out
}

/// Law: a status order lists every pane exactly once.
pub proof fn law_status_order_is_a_permutation(panes: Seq<PaneViewModel>, order: Seq<usize>)
    requires is_status_order(panes, order),
    ensures
        order.no_duplicates(),
        forall|k: usize| k < panes.len() ==> #[trigger] order.contains(k),
{
    let ints = order.map_values(|i: usize| i as int);
    assert forall|a: int, b: int| 0 <= a < ints.len() && 0 <= b < ints.len() && a != b
        implies ints[a] != ints[b] by {
        assert(ints[a] == order[a] as int && ints[b] == order[b] as int);
        lemma_id_less_total(panes[order[a] as int].pane_id, panes[order[a] as int].pane_id);
        if a < b {
            assert(status_before(panes, order[a] as int, order[b] as int));
        } else {
            assert(status_before(panes, order[b] as int, order[a] as int));
        }
    }
    assert(ints.no_duplicates());
    ints.unique_seq_to_set();
    let range = vstd::set_lib::set_int_range(0, panes.len() as int);
    vstd::set_lib::lemma_int_range(0, panes.len() as int);
    assert(ints.to_set().subset_of(range)) by {
        assert forall|x: int| ints.to_set().contains(x) implies range.contains(x) by {
            let j = choose|j: int| 0 <= j < ints.len() && ints[j] == x;
            assert(order[j] < panes.len());
        }
    }
    vstd::seq_lib::seq_to_set_is_finite(ints);
    vstd::set_lib::lemma_subset_equality(ints.to_set(), range);
    assert forall|k: usize| k < panes.len() implies #[trigger] order.contains(k) by {
        assert(range.contains(k as int));
        assert(ints.to_set().contains(k as int));
        let j = choose|j: int| 0 <= j < ints.len() && ints[j] == k as int;
        assert(order[j] == k);
    }
    assert forall|a: int, b: int| 0 <= a < order.len() && 0 <= b < order.len() && a != b
        implies order[a] != order[b] by {
        assert(ints[a] != ints[b]);
    }
}

} // verus!
