//! Laws of the edge map: what each mutation guarantees about both
//! directions, and that removing what was added restores the map.

use vstd::prelude::*;
use crate::edge::id::{EdgeView, flip_view};
use crate::edge::map::{
    RawEdgeMap, add_edge_list, add_edge_post, add_mid, clear_all_post, is_in, lemma_concat_contains,
    lemma_edges_symmetric, lemma_filter_all_false, lemma_filter_all_true, lemma_filter_mem, lemma_drop_absent, lemma_push_then_drop,
    lemma_fresh_targets, lemma_push_contains, not_eq, not_in, remove_edge_post, remove_mid,
    remove_step, set_neighbors_post, add_step, set_step, set_mid, set_cleared,
};
use crate::ids::NonNilUuid;

verus! {

/// After a successful `add_edge`, every requested target is linked to the
/// near entity in both directions.
pub proof fn lemma_add_links_both_directions(
    old: RawEdgeMap,
    new: RawEdgeMap,
    u: NonNilUuid,
    e: EdgeView,
    inputs: Seq<NonNilUuid>,
    added: Seq<NonNilUuid>,
    t: NonNilUuid,
)
    requires
        old.wf(),
        new.wf(),
        add_edge_post(old, new, u, e, inputs, added),
        inputs.contains(t),
    ensures
        new.nbrs(u, e).contains(t),
        new.nbrs(t, flip_view(e)).contains(u),
{
    lemma_fresh_targets(old.nbrs(u, e), inputs);
    let mid = add_mid(old, u, e, added, u, e);
    lemma_concat_contains(old.nbrs(u, e), added, t);
    lemma_push_contains(mid, u, t);
    assert(new.nbrs(u, e).contains(t));
    lemma_edges_symmetric(new, u, e, t);
}

/// Adding targets that are all already linked changes nothing and reports
/// nothing added.
pub proof fn lemma_add_idempotent(
    old: RawEdgeMap,
    new: RawEdgeMap,
    u: NonNilUuid,
    e: EdgeView,
    inputs: Seq<NonNilUuid>,
    added: Seq<NonNilUuid>,
)
    requires
        old.wf(),
        add_edge_post(old, new, u, e, inputs, added),
        forall|t: NonNilUuid| #[trigger] inputs.contains(t) ==> old.nbrs(u, e).contains(t),
    ensures
        added == Seq::<NonNilUuid>::empty(),
        forall|x: NonNilUuid, f: EdgeView| #[trigger] new.nbrs(x, f) == old.nbrs(x, f),
{
    lemma_fresh_targets(old.nbrs(u, e), inputs);
    if added.len() > 0 {
        assert(added.contains(added[0]));
    }
    assert(added =~= Seq::<NonNilUuid>::empty());
    assert forall|x: NonNilUuid, f: EdgeView| #[trigger] new.nbrs(x, f) == old.nbrs(x, f) by {
        assert(old.nbrs(u, e) + added =~= old.nbrs(u, e));
        assert(!added.contains(x));
    }
}

/// After `remove_edge`, none of the requested targets is linked to the near
/// entity in either direction.
pub proof fn lemma_remove_unlinks_both_directions(
    old: RawEdgeMap,
    new: RawEdgeMap,
    u: NonNilUuid,
    e: EdgeView,
    inputs: Seq<NonNilUuid>,
    removed: Seq<NonNilUuid>,
    t: NonNilUuid,
)
    requires
        old.wf(),
        new.wf(),
        remove_edge_post(old, new, u, e, inputs, removed),
        inputs.contains(t),
    ensures
        !new.nbrs(u, e).contains(t),
        !new.nbrs(t, flip_view(e)).contains(u),
{
    let mid = remove_mid(old, u, e, removed, u, e);
    lemma_filter_mem(old.nbrs(u, e), not_in(removed), t);
    lemma_filter_mem(inputs, is_in(old.nbrs(u, e)), t);
    lemma_filter_mem(mid, not_eq(u), t);
    assert(!new.nbrs(u, e).contains(t));
    lemma_edges_symmetric(new, u, e, t);
}

proof fn lemma_undo_one(
    m0: RawEdgeMap,
    m1: RawEdgeMap,
    m2: RawEdgeMap,
    u: NonNilUuid,
    e: EdgeView,
    added: Seq<NonNilUuid>,
    x: NonNilUuid,
    f: EdgeView,
)
    requires
        m0.wf(),
        forall|a: NonNilUuid| #[trigger] added.contains(a) ==> !m0.nbrs(u, e).contains(a),
        m1.nbrs(x, f) == add_edge_list(m0, u, e, added, x, f),
        m2.nbrs(x, f) == remove_step(m1, u, e, added, added, x, f),
        x == u && f == e ==> m1.nbrs(u, e) == m0.nbrs(u, e) + added,
        x == u && f == e ==> (m0.nbrs(u, e) + added).filter(not_in(added)) == m0.nbrs(u, e),
    ensures
        m2.nbrs(x, f) == m0.nbrs(x, f),
{
    let fe = flip_view(e);
    if x == u && f == e {
        if f == fe && added.contains(x) {
            lemma_drop_absent(m0.nbrs(u, e), u);
        }
    } else if f == fe && added.contains(x) {
        lemma_edges_symmetric(m0, x, f, u);
        assert(flip_view(f) == e);
        lemma_push_then_drop(m0.nbrs(x, f), u);
    }
}

/// Removing exactly what `add_edge` added restores every list of the map,
/// and reports the same targets as removed.
pub proof fn lemma_remove_undoes_add(
    m0: RawEdgeMap,
    m1: RawEdgeMap,
    m2: RawEdgeMap,
    u: NonNilUuid,
    e: EdgeView,
    inputs: Seq<NonNilUuid>,
    added: Seq<NonNilUuid>,
    removed: Seq<NonNilUuid>,
)
    requires
        m0.wf(),
        add_edge_post(m0, m1, u, e, inputs, added),
        remove_edge_post(m1, m2, u, e, added, removed),
    ensures
        removed == added,
        forall|x: NonNilUuid, f: EdgeView| #[trigger] m2.nbrs(x, f) == m0.nbrs(x, f),
{
    let fe = flip_view(e);
    let base = m0.nbrs(u, e);
    lemma_fresh_targets(base, inputs);
    assert forall|a: NonNilUuid| #[trigger] added.contains(a) implies !base.contains(a) by {}
    let mid_u = base + added;
    lemma_push_contains(mid_u, u, u);
    if fe == e && added.contains(u) {
        lemma_concat_contains(base, added, u);
    }
    assert(m1.nbrs(u, e) == add_edge_list(m0, u, e, added, u, e));
    assert(m1.nbrs(u, e) == mid_u);
    assert forall|i: int| 0 <= i < added.len() implies #[trigger] is_in(m1.nbrs(u, e))(
        added[i],
    ) by {
        assert(added.contains(added[i]));
        lemma_concat_contains(base, added, added[i]);
    }
    lemma_filter_all_true(added, is_in(m1.nbrs(u, e)));
    assert(removed == added);
    assert forall|i: int| 0 <= i < base.len() implies #[trigger] not_in(added)(base[i]) by {
        assert(base.contains(base[i]));
    }
    lemma_filter_all_true(base, not_in(added));
    assert forall|i: int| 0 <= i < added.len() implies !#[trigger] not_in(added)(added[i]) by {
        assert(added.contains(added[i]));
    }
    lemma_filter_all_false(added, not_in(added));
    Seq::filter_distributes_over_add(base, added, not_in(added));
    assert(mid_u.filter(not_in(added)) =~= base);
    assert forall|x: NonNilUuid, f: EdgeView| #[trigger] m2.nbrs(x, f) == m0.nbrs(x, f) by {
        assert(m1.nbrs(x, f) == add_edge_list(m0, u, e, added, x, f));
        assert(m2.nbrs(x, f) == remove_step(m1, u, e, added, added, x, f));
        lemma_undo_one(m0, m1, m2, u, e, added, x, f);
    }
}

/// After `clear_all(w)`, `w` has no edges left and no list mentions `w`.
pub proof fn lemma_clear_all_isolates(old: RawEdgeMap, new: RawEdgeMap, w: NonNilUuid, x: NonNilUuid, f: EdgeView)
    requires
        clear_all_post(old, new, w),
    ensures
        new.nbrs(w, f) == Seq::<NonNilUuid>::empty(),
        !new.nbrs(x, f).contains(w),
{
    assert(new.nbrs(w, f) == Seq::<NonNilUuid>::empty());
    if x != w {
        lemma_filter_mem(old.nbrs(x, f), not_eq(w), w);
    }
}

/// After `set_neighbors(u, e, new_list)`, the list under `(u, e)` is exactly
/// `new_list`, and `u` is listed under `(v, flip(e))` exactly for the `v`
/// in `new_list`.
pub proof fn lemma_set_neighbors_replaces(
    old: RawEdgeMap,
    new: RawEdgeMap,
    u: NonNilUuid,
    e: EdgeView,
    new_list: Seq<NonNilUuid>,
    added: Seq<NonNilUuid>,
    removed: Seq<NonNilUuid>,
    v: NonNilUuid,
)
    requires
        old.wf(),
        new.wf(),
        set_neighbors_post(old, new, u, e, new_list, added, removed),
    ensures
        new.nbrs(u, e) == new_list,
        new.nbrs(v, flip_view(e)).contains(u) <==> new_list.contains(v),
{
    lemma_filter_mem(new_list, not_in(old.nbrs(u, e)), u);
    assert(new.nbrs(u, e) == new_list);
    lemma_edges_symmetric(new, u, e, v);
}

/// No edge list holds an entity twice.
pub open spec fn lists_distinct(m: RawEdgeMap) -> bool {
    forall|u: NonNilUuid, e: EdgeView| #[trigger] m.nbrs(u, e).no_duplicates()
}

proof fn lemma_filter_distinct(s: Seq<NonNilUuid>, p: spec_fn(NonNilUuid) -> bool)
    requires
        s.no_duplicates(),
    ensures
        s.filter(p).no_duplicates(),
    decreases s.len(),
{
    reveal(Seq::filter);
    if s.len() > 0 {
        let d = s.drop_last();
        assert(d.no_duplicates()) by {
            assert forall|i: int, j: int| 0 <= i < d.len() && 0 <= j < d.len() && i != j implies d[i]
                != d[j] by {
                assert(d[i] == s[i] && d[j] == s[j]);
            }
        }
        lemma_filter_distinct(d, p);
        if p(s.last()) {
            lemma_filter_mem(d, p, s.last());
            if d.contains(s.last()) {
                let k = choose|k: int| 0 <= k < d.len() && d[k] == s.last();
                assert(s[k] == s[s.len() - 1]);
            }
            lemma_push_distinct(d.filter(p), s.last());
        }
    }
}

proof fn lemma_push_distinct(s: Seq<NonNilUuid>, x: NonNilUuid)
    requires
        s.no_duplicates(),
        !s.contains(x),
    ensures
        s.push(x).no_duplicates(),
{
    let t = s.push(x);
    assert forall|i: int, j: int| 0 <= i < t.len() && 0 <= j < t.len() && i != j implies t[i] != t[j] by {
        if i < s.len() && j < s.len() {
            assert(t[i] == s[i] && t[j] == s[j]);
        } else if i < s.len() {
            assert(s.contains(s[i]));
        } else {
            assert(s.contains(s[j]));
        }
    }
}

/// A successful `add_edge` keeps every list free of repeats.
pub proof fn lemma_add_keeps_lists_distinct(
    old: RawEdgeMap,
    new: RawEdgeMap,
    u: NonNilUuid,
    e: EdgeView,
    inputs: Seq<NonNilUuid>,
    added: Seq<NonNilUuid>,
)
    requires
        lists_distinct(old),
        add_edge_post(old, new, u, e, inputs, added),
    ensures
        lists_distinct(new),
{
    lemma_fresh_targets(old.nbrs(u, e), inputs);
    assert forall|x: NonNilUuid, f: EdgeView| #[trigger] new.nbrs(x, f).no_duplicates() by {
        assert(old.nbrs(x, f).no_duplicates());
        assert(old.nbrs(u, e).no_duplicates());
        let mid = add_mid(old, u, e, added, x, f);
        if x == u && f == e {
            assert forall|i: int, j: int| 0 <= i < old.nbrs(u, e).len() && 0 <= j < added.len()
                implies old.nbrs(u, e)[i] != added[j] by {
                assert(added.contains(added[j]));
                assert(old.nbrs(u, e).contains(old.nbrs(u, e)[i]));
            }
            vstd::seq_lib::lemma_no_dup_in_concat(old.nbrs(u, e), added);
        }
        assert(mid.no_duplicates());
        if f == flip_view(e) && added.contains(x) && !mid.contains(u) {
            lemma_push_distinct(mid, u);
        }
        assert(new.nbrs(x, f) == add_edge_list(old, u, e, added, x, f));
    }
}

/// `remove_edge` keeps every list free of repeats.
pub proof fn lemma_remove_keeps_lists_distinct(
    old: RawEdgeMap,
    new: RawEdgeMap,
    u: NonNilUuid,
    e: EdgeView,
    inputs: Seq<NonNilUuid>,
    removed: Seq<NonNilUuid>,
)
    requires
        lists_distinct(old),
        remove_edge_post(old, new, u, e, inputs, removed),
    ensures
        lists_distinct(new),
{
    assert forall|x: NonNilUuid, f: EdgeView| #[trigger] new.nbrs(x, f).no_duplicates() by {
        assert(old.nbrs(x, f).no_duplicates());
        assert(old.nbrs(u, e).no_duplicates());
        let mid = remove_mid(old, u, e, removed, x, f);
        if x == u && f == e {
            lemma_filter_distinct(old.nbrs(u, e), not_in(removed));
        }
        if f == flip_view(e) && removed.contains(x) {
            lemma_filter_distinct(mid, not_eq(u));
        }
        assert(new.nbrs(x, f) == remove_step(old, u, e, removed, removed, x, f));
    }
}

/// After `set_neighbors` on lists free of repeats, every list other than
/// the near entity's own list on that edge is free of repeats; that one is
/// too when the new list is.  (A repeated entry in the new list is stored
/// as given.)
pub proof fn lemma_set_keeps_list_distinct(
    old: RawEdgeMap,
    new: RawEdgeMap,
    u: NonNilUuid,
    e: EdgeView,
    new_list: Seq<NonNilUuid>,
    added: Seq<NonNilUuid>,
    removed: Seq<NonNilUuid>,
    x: NonNilUuid,
    f: EdgeView,
)
    requires
        lists_distinct(old),
        !(x == u && f == e) || new_list.no_duplicates(),
        set_neighbors_post(old, new, u, e, new_list, added, removed),
    ensures
        new.nbrs(x, f).no_duplicates(),
{
    assert(old.nbrs(x, f).no_duplicates());
    let mid = set_mid(old, u, e, new_list, removed, x, f);
    if f == flip_view(e) && removed.contains(x) {
        lemma_filter_distinct(old.nbrs(x, f), not_eq(u));
    }
    assert(set_cleared(old, u, e, removed, x, f).no_duplicates());
    assert(mid.no_duplicates());
    if f == flip_view(e) && added.contains(x) && !mid.contains(u) {
        lemma_push_distinct(mid, u);
    }
    assert(new.nbrs(x, f) == set_step(old, u, e, new_list, removed, added, x, f));
}

/// `set_neighbors` with a list free of repeats keeps every list free of
/// repeats.
pub proof fn lemma_set_keeps_lists_distinct(
    old: RawEdgeMap,
    new: RawEdgeMap,
    u: NonNilUuid,
    e: EdgeView,
    new_list: Seq<NonNilUuid>,
    added: Seq<NonNilUuid>,
    removed: Seq<NonNilUuid>,
)
    requires
        lists_distinct(old),
        new_list.no_duplicates(),
        set_neighbors_post(old, new, u, e, new_list, added, removed),
    ensures
        lists_distinct(new),
{
    assert forall|x: NonNilUuid, f: EdgeView| #[trigger] new.nbrs(x, f).no_duplicates() by {
        lemma_set_keeps_list_distinct(old, new, u, e, new_list, added, removed, x, f);
    }
}

/// `clear_all` keeps every list free of repeats.
pub proof fn lemma_clear_keeps_lists_distinct(old: RawEdgeMap, new: RawEdgeMap, w: NonNilUuid)
    requires
        lists_distinct(old),
        clear_all_post(old, new, w),
    ensures
        lists_distinct(new),
{
    assert forall|x: NonNilUuid, f: EdgeView| #[trigger] new.nbrs(x, f).no_duplicates() by {
        assert(old.nbrs(x, f).no_duplicates());
        if x != w {
            lemma_filter_distinct(old.nbrs(x, f), not_eq(w));
        }
    }
}

/// After `set_neighbors` on lists free of repeats, the near entity appears
/// exactly once in the reverse list of each new target.  (Where the edge
/// is its own reverse and the near entity lists itself, that reverse list
/// is the new list, so the new list must then be free of repeats.)
pub proof fn lemma_set_neighbors_reverse_once(
    old: RawEdgeMap,
    new: RawEdgeMap,
    u: NonNilUuid,
    e: EdgeView,
    new_list: Seq<NonNilUuid>,
    added: Seq<NonNilUuid>,
    removed: Seq<NonNilUuid>,
    v: NonNilUuid,
)
    requires
        old.wf(),
        new.wf(),
        lists_distinct(old),
        !(v == u && flip_view(e) == e) || new_list.no_duplicates(),
        set_neighbors_post(old, new, u, e, new_list, added, removed),
        new_list.contains(v),
    ensures
        new.nbrs(v, flip_view(e)).contains(u),
        new.nbrs(v, flip_view(e)).no_duplicates(),
{
    lemma_set_keeps_list_distinct(old, new, u, e, new_list, added, removed, v, flip_view(e));
    assert(new.nbrs(u, e) == set_step(old, u, e, new_list, removed, added, u, e));
    if flip_view(e) == e && added.contains(u) {
        assert(added == new_list.filter(not_in(old.nbrs(u, e))));
        lemma_filter_mem(new_list, not_in(old.nbrs(u, e)), u);
    }
    assert(new.nbrs(u, e) == new_list);
    lemma_edges_symmetric(new, u, e, v);
}

} // verus!
