//! Bidirectional edge storage.
//!
//! For every entity UUID the map keeps, per edge, the list of UUIDs on the
//! far side.  Both directions of every edge are stored: `v` is listed under
//! `(u, e)` exactly when `u` is listed under `(v, flip(e))`.

use vstd::prelude::*;
use std::collections::HashMap;
use crate::edge::id::{EdgeView, FullEdge, flip_view};
use crate::ids::{
    EntityTyped, EntityUuid, NonNilUuid, RuntimeEntityId, lemma_uuid_view_injective,
};
use crate::text::str_eq;

verus! {

broadcast use vstd::std_specs::hash::group_hash_axioms, lemma_uuid_view_injective;

/// Errors produced by edge operations.
#[derive(Debug, Clone, Copy)]
pub enum EdgeError {
    /// Entity type mismatch for the near endpoint of an edge.
    NearTypeMismatch { actual: &'static str, expected: &'static str },
    /// Entity type mismatch for the far endpoint of an edge.
    FarTypeMismatch { actual: &'static str, expected: &'static str },
}

/// The far-side list of one edge on one entity.
#[derive(Debug, Clone)]
pub(crate) struct EdgeSlot {
    pub(crate) edge: FullEdge,
    pub(crate) targets: Vec<NonNilUuid>,
}

/// Unified bidirectional edge store.
#[derive(Debug, Clone)]
pub struct RawEdgeMap {
    map: HashMap<u128, Vec<EdgeSlot>>,
}

/// Keeps every value other than `u`.
pub open spec fn not_eq(u: NonNilUuid) -> spec_fn(NonNilUuid) -> bool {
    |y: NonNilUuid| y != u
}

/// Keeps every value that does not occur in `s`.
pub open spec fn not_in(s: Seq<NonNilUuid>) -> spec_fn(NonNilUuid) -> bool {
    |y: NonNilUuid| !s.contains(y)
}

/// Keeps every value that occurs in `s`.
pub open spec fn is_in(s: Seq<NonNilUuid>) -> spec_fn(NonNilUuid) -> bool {
    |y: NonNilUuid| s.contains(y)
}


/// The UUIDs of a sequence of runtime ids, in order.
pub open spec fn ids_of(t: Seq<RuntimeEntityId>) -> Seq<NonNilUuid> {
    t.map_values(|r: RuntimeEntityId| r.spec_uuid())
}

/// Every id in `t` names an entity of type `name`.
pub open spec fn all_of_type(t: Seq<RuntimeEntityId>, name: Seq<char>) -> bool {
    forall|i: int| 0 <= i < t.len() ==> #[trigger] t[i].spec_type_name()@ == name
}

/// The near id and every target have the types the edge expects.
pub open spec fn types_match(near: RuntimeEntityId, edge: FullEdge, t: Seq<RuntimeEntityId>) -> bool {
    near.spec_type_name()@ == edge.near.entity_name@ && all_of_type(t, edge.far.entity_name@)
}

/// The error reported for a type mismatch: the near id is checked first,
/// then the targets in order, and the first mismatch is reported.
pub open spec fn type_error(
    near: RuntimeEntityId,
    edge: FullEdge,
    t: Seq<RuntimeEntityId>,
    err: EdgeError,
) -> bool {
    if near.spec_type_name()@ != edge.near.entity_name@ {
        err == (EdgeError::NearTypeMismatch {
            actual: near.spec_type_name(),
            expected: edge.near.entity_name,
        })
    } else {
        exists|k: int|
            0 <= k < t.len() && all_of_type(t.take(k), edge.far.entity_name@)
                && t[k].spec_type_name()@ != edge.far.entity_name@ && err == (
            EdgeError::FarTypeMismatch {
                actual: t[k].spec_type_name(),
                expected: edge.far.entity_name,
            })
    }
}

/// The inputs that are not already listed in `existing`, first occurrence
/// only, in input order.
pub open spec fn fresh_targets(existing: Seq<NonNilUuid>, input: Seq<NonNilUuid>) -> Seq<
    NonNilUuid,
>
    decreases input.len(),
{
    if input.len() == 0 {
        Seq::empty()
    } else {
        let prev = fresh_targets(existing, input.drop_last());
        let x = input.last();
        if existing.contains(x) || prev.contains(x) {
            prev
        } else {
            prev.push(x)
        }
    }
}

/// The near list after `add_edge(u, e, ..)` added `added`, before the
/// reverse entries are written.
pub open spec fn add_mid(
    old: RawEdgeMap,
    u: NonNilUuid,
    e: EdgeView,
    added: Seq<NonNilUuid>,
    x: NonNilUuid,
    f: EdgeView,
) -> Seq<NonNilUuid> {
    if x == u && f == e {
        old.nbrs(u, e) + added
    } else {
        old.nbrs(x, f)
    }
}

/// The list under `(x, f)` once the reverse entries of the targets in
/// `done` have been written.
pub open spec fn add_step(
    old: RawEdgeMap,
    u: NonNilUuid,
    e: EdgeView,
    added: Seq<NonNilUuid>,
    done: Seq<NonNilUuid>,
    x: NonNilUuid,
    f: EdgeView,
) -> Seq<NonNilUuid> {
    let mid = add_mid(old, u, e, added, x, f);
    if f == flip_view(e) && done.contains(x) && !mid.contains(u) {
        mid.push(u)
    } else {
        mid
    }
}

/// The list stored under `(x, f)` after `add_edge(u, e, ..)` added `added`.
pub open spec fn add_edge_list(
    old: RawEdgeMap,
    u: NonNilUuid,
    e: EdgeView,
    added: Seq<NonNilUuid>,
    x: NonNilUuid,
    f: EdgeView,
) -> Seq<NonNilUuid> {
    add_step(old, u, e, added, added, x, f)
}

/// `new` is `old` after `add_edge(u, e, inputs)` returned `Ok(added)`.
pub open spec fn add_edge_post(
    old: RawEdgeMap,
    new: RawEdgeMap,
    u: NonNilUuid,
    e: EdgeView,
    inputs: Seq<NonNilUuid>,
    added: Seq<NonNilUuid>,
) -> bool {
    &&& added == fresh_targets(old.nbrs(u, e), inputs)
    &&& forall|x: NonNilUuid, f: EdgeView| #[trigger]
        new.nbrs(x, f) == add_edge_list(old, u, e, added, x, f)
}


/// The near list after `remove_edge(u, e, ..)` removed `removed`, before the
/// reverse entries are cleared.
pub open spec fn remove_mid(
    old: RawEdgeMap,
    u: NonNilUuid,
    e: EdgeView,
    removed: Seq<NonNilUuid>,
    x: NonNilUuid,
    f: EdgeView,
) -> Seq<NonNilUuid> {
    if x == u && f == e {
        old.nbrs(u, e).filter(not_in(removed))
    } else {
        old.nbrs(x, f)
    }
}

/// The list under `(x, f)` once the reverse entries of the targets in
/// `done` have been cleared.
pub open spec fn remove_step(
    old: RawEdgeMap,
    u: NonNilUuid,
    e: EdgeView,
    removed: Seq<NonNilUuid>,
    done: Seq<NonNilUuid>,
    x: NonNilUuid,
    f: EdgeView,
) -> Seq<NonNilUuid> {
    let mid = remove_mid(old, u, e, removed, x, f);
    if f == flip_view(e) && done.contains(x) {
        mid.filter(not_eq(u))
    } else {
        mid
    }
}

/// `new` is `old` after `remove_edge(u, e, inputs)` returned `removed`.
pub open spec fn remove_edge_post(
    old: RawEdgeMap,
    new: RawEdgeMap,
    u: NonNilUuid,
    e: EdgeView,
    inputs: Seq<NonNilUuid>,
    removed: Seq<NonNilUuid>,
) -> bool {
    &&& removed == inputs.filter(is_in(old.nbrs(u, e)))
    &&& forall|x: NonNilUuid, f: EdgeView| #[trigger]
        new.nbrs(x, f) == remove_step(old, u, e, removed, removed, x, f)
}


/// After `set_neighbors(u, e, ..)`: the reverse entries of the targets in
/// `done` (drawn from the dropped targets) have been cleared.
pub open spec fn set_cleared(
    old: RawEdgeMap,
    u: NonNilUuid,
    e: EdgeView,
    done: Seq<NonNilUuid>,
    x: NonNilUuid,
    f: EdgeView,
) -> Seq<NonNilUuid> {
    if f == flip_view(e) && done.contains(x) {
        old.nbrs(x, f).filter(not_eq(u))
    } else {
        old.nbrs(x, f)
    }
}

/// After `set_neighbors(u, e, new_list)`: dropped targets cleared and the
/// near list replaced.
pub open spec fn set_mid(
    old: RawEdgeMap,
    u: NonNilUuid,
    e: EdgeView,
    new_list: Seq<NonNilUuid>,
    removed: Seq<NonNilUuid>,
    x: NonNilUuid,
    f: EdgeView,
) -> Seq<NonNilUuid> {
    if x == u && f == e {
        new_list
    } else {
        set_cleared(old, u, e, removed, x, f)
    }
}

/// The list under `(x, f)` once the reverse entries of the new targets in
/// `done` have been written.
pub open spec fn set_step(
    old: RawEdgeMap,
    u: NonNilUuid,
    e: EdgeView,
    new_list: Seq<NonNilUuid>,
    removed: Seq<NonNilUuid>,
    done: Seq<NonNilUuid>,
    x: NonNilUuid,
    f: EdgeView,
) -> Seq<NonNilUuid> {
    let mid = set_mid(old, u, e, new_list, removed, x, f);
    if f == flip_view(e) && done.contains(x) && !mid.contains(u) {
        mid.push(u)
    } else {
        mid
    }
}

/// `new` is `old` after `set_neighbors(u, e, new_list)` returned
/// `Ok((added, removed))`.
pub open spec fn set_neighbors_post(
    old: RawEdgeMap,
    new: RawEdgeMap,
    u: NonNilUuid,
    e: EdgeView,
    new_list: Seq<NonNilUuid>,
    added: Seq<NonNilUuid>,
    removed: Seq<NonNilUuid>,
) -> bool {
    &&& added == new_list.filter(not_in(old.nbrs(u, e)))
    &&& removed == old.nbrs(u, e).filter(not_in(new_list))
    &&& forall|x: NonNilUuid, f: EdgeView| #[trigger]
        new.nbrs(x, f) == set_step(old, u, e, new_list, removed, added, x, f)
}

/// `new` is `old` after `clear_all(w)`.
pub open spec fn clear_all_post(old: RawEdgeMap, new: RawEdgeMap, w: NonNilUuid) -> bool {
    forall|x: NonNilUuid, f: EdgeView| #[trigger]
        new.nbrs(x, f) == if x == w {
            Seq::<NonNilUuid>::empty()
        } else {
            old.nbrs(x, f).filter(not_eq(w))
        }
}

/// The fresh targets are exactly the inputs not already listed, each once.
pub proof fn lemma_fresh_targets(existing: Seq<NonNilUuid>, input: Seq<NonNilUuid>)
    ensures
        forall|x: NonNilUuid| #[trigger]
            fresh_targets(existing, input).contains(x) <==> (input.contains(x)
                && !existing.contains(x)),
        fresh_targets(existing, input).no_duplicates(),
    decreases input.len(),
{
    if input.len() > 0 {
        lemma_fresh_targets(existing, input.drop_last());
        let prev = fresh_targets(existing, input.drop_last());
        let last = input.last();
        assert forall|x: NonNilUuid| #[trigger]
            fresh_targets(existing, input).contains(x) <==> (input.contains(x)
                && !existing.contains(x)) by {
            if input.contains(x) && x != last {
                let k = choose|k: int| 0 <= k < input.len() && input[k] == x;
                assert(input.drop_last()[k] == x);
            }
            if input.drop_last().contains(x) {
                let k = choose|k: int| 0 <= k < input.drop_last().len() && input.drop_last()[k] == x;
                assert(input[k] == x);
            }
            if !(existing.contains(last) || prev.contains(last)) {
                let r = prev.push(last);
                if r.contains(x) && x != last {
                    let k = choose|k: int| 0 <= k < r.len() && r[k] == x;
                    assert(prev[k] == x);
                }
                if x == last {
                    assert(r[prev.len() as int] == x);
                }
                if prev.contains(x) {
                    let k = choose|k: int| 0 <= k < prev.len() && prev[k] == x;
                    assert(r[k] == x);
                }
            }
            assert(input[input.len() - 1] == last);
        }
    }
}


/// Filtering with a predicate that fails everywhere leaves nothing.
pub proof fn lemma_filter_all_false(s: Seq<NonNilUuid>, p: spec_fn(NonNilUuid) -> bool)
    requires
        forall|i: int| 0 <= i < s.len() ==> !p(s[i]),
    ensures
        s.filter(p) == Seq::<NonNilUuid>::empty(),
    decreases s.len(),
{
    reveal(Seq::filter);
    if s.len() > 0 {
        lemma_filter_all_false(s.drop_last(), p);
    }
}

/// Every edge is stored in both directions: `v` is listed under `(u, e)`
/// exactly when `u` is listed under `(v, flip(e))`.
pub proof fn lemma_edges_symmetric(m: RawEdgeMap, u: NonNilUuid, e: EdgeView, v: NonNilUuid)
    requires
        m.wf(),
    ensures
        m.nbrs(u, e).contains(v) <==> m.nbrs(v, flip_view(e)).contains(u),
{
    assert(flip_view(flip_view(e)) == e);
    if m.nbrs(v, flip_view(e)).contains(u) {
        assert(m.nbrs(u, flip_view(flip_view(e))).contains(v));
    }
}


spec fn covered(s: Seq<EdgeSlot>, i: int, j: int, x: NonNilUuid, f: EdgeView) -> bool {
    (exists|a: int|
        0 <= a < i && flip_view(#[trigger] s[a].edge@) == f && s[a].targets@.contains(x)) || (0
        <= i < s.len() && flip_view(s[i].edge@) == f && s[i].targets@.take(j).contains(x))
}

spec fn clear_state(
    old: RawEdgeMap,
    w: NonNilUuid,
    s: Seq<EdgeSlot>,
    i: int,
    j: int,
    x: NonNilUuid,
    f: EdgeView,
) -> Seq<NonNilUuid> {
    if x == w {
        Seq::empty()
    } else if covered(s, i, j, x, f) {
        old.nbrs(x, f).filter(not_eq(w))
    } else {
        old.nbrs(x, f)
    }
}

pub(crate) open spec fn slots_distinct(s: Seq<EdgeSlot>) -> bool {
    forall|i: int, j: int|
        0 <= i < s.len() && 0 <= j < s.len() && i != j ==> s[i].edge@ != s[j].edge@
}

pub(crate) open spec fn slot_has(s: Seq<EdgeSlot>, e: EdgeView) -> bool {
    exists|i: int| 0 <= i < s.len() && s[i].edge@ == e
}

pub(crate) open spec fn slot_list(s: Seq<EdgeSlot>, e: EdgeView) -> Seq<NonNilUuid> {
    if slot_has(s, e) {
        s[choose|i: int| 0 <= i < s.len() && s[i].edge@ == e].targets@
    } else {
        Seq::empty()
    }
}

pub(crate) proof fn lemma_slot_list_at(s: Seq<EdgeSlot>, i: int)
    requires
        slots_distinct(s),
        0 <= i < s.len(),
    ensures
        slot_list(s, s[i].edge@) == s[i].targets@,
{
    let e = s[i].edge@;
    assert(slot_has(s, e));
    let j = choose|j: int| 0 <= j < s.len() && s[j].edge@ == e;
    assert(j == i);
}

proof fn lemma_slot_list_update(s: Seq<EdgeSlot>, i: int, ns: EdgeSlot)
    requires
        slots_distinct(s),
        0 <= i < s.len(),
        ns.edge@ == s[i].edge@,
    ensures
        slots_distinct(s.update(i, ns)),
        forall|f: EdgeView|
            #[trigger] slot_list(s.update(i, ns), f) == if f == s[i].edge@ {
                ns.targets@
            } else {
                slot_list(s, f)
            },
{
    let t = s.update(i, ns);
    assert(slots_distinct(t));
    assert forall|f: EdgeView|
        #[trigger] slot_list(t, f) == if f == s[i].edge@ {
            ns.targets@
        } else {
            slot_list(s, f)
        } by {
        if f == s[i].edge@ {
            lemma_slot_list_at(t, i);
        } else {
            if slot_has(s, f) {
                let j = choose|j: int| 0 <= j < s.len() && s[j].edge@ == f;
                assert(t[j].edge@ == f);
                lemma_slot_list_at(t, j);
                lemma_slot_list_at(s, j);
            } else {
                assert(!slot_has(t, f));
            }
        }
    }
}

pub(crate) proof fn lemma_slot_list_push(s: Seq<EdgeSlot>, ns: EdgeSlot)
    requires
        slots_distinct(s),
        !slot_has(s, ns.edge@),
    ensures
        slots_distinct(s.push(ns)),
        forall|f: EdgeView|
            #[trigger] slot_list(s.push(ns), f) == if f == ns.edge@ {
                ns.targets@
            } else {
                slot_list(s, f)
            },
{
    let t = s.push(ns);
    assert(slots_distinct(t));
    assert forall|f: EdgeView|
        #[trigger] slot_list(t, f) == if f == ns.edge@ {
            ns.targets@
        } else {
            slot_list(s, f)
        } by {
        if f == ns.edge@ {
            lemma_slot_list_at(t, s.len() as int);
        } else {
            if slot_has(s, f) {
                let j = choose|j: int| 0 <= j < s.len() && s[j].edge@ == f;
                assert(t[j].edge@ == f);
                lemma_slot_list_at(t, j);
                lemma_slot_list_at(s, j);
            } else {
                assert(!slot_has(t, f));
            }
        }
    }
}

/// Membership in a filtered sequence.
pub proof fn lemma_filter_mem(s: Seq<NonNilUuid>, p: spec_fn(NonNilUuid) -> bool, x: NonNilUuid)
    ensures
        s.filter(p).contains(x) <==> (s.contains(x) && p(x)),
    decreases s.len(),
{
    reveal(Seq::filter);
    if s.len() > 0 {
        lemma_filter_mem(s.drop_last(), p, x);
        if s.drop_last().contains(x) {
            let k = choose|k: int| 0 <= k < s.drop_last().len() && s.drop_last()[k] == x;
            assert(s[k] == x);
        }
        if s.contains(x) && x != s.last() {
            let k = choose|k: int| 0 <= k < s.len() && s[k] == x;
            assert(s.drop_last()[k] == x);
        }
        if s.filter(p).contains(x) && x != s.last() {
            let sub = s.drop_last().filter(p);
            let k = choose|k: int| 0 <= k < s.filter(p).len() && s.filter(p)[k] == x;
            if p(s.last()) {
                assert(sub[k] == x);
            }
        }
        if s.contains(x) && p(x) && x == s.last() {
            assert(s.filter(p).last() == x);
        }
    }
}


/// Membership in a concatenation.
pub proof fn lemma_concat_contains(a: Seq<NonNilUuid>, b: Seq<NonNilUuid>, z: NonNilUuid)
    ensures
        (a + b).contains(z) <==> (a.contains(z) || b.contains(z)),
{
    if a.contains(z) {
        let k = choose|k: int| 0 <= k < a.len() && a[k] == z;
        assert((a + b)[k] == z);
    }
    if b.contains(z) {
        let k = choose|k: int| 0 <= k < b.len() && b[k] == z;
        assert((a + b)[a.len() + k] == z);
    }
    if (a + b).contains(z) {
        let k = choose|k: int| 0 <= k < (a + b).len() && (a + b)[k] == z;
        if k < a.len() {
            assert(a[k] == z);
        } else {
            assert(b[k - a.len()] == z);
        }
    }
}

/// Membership in a pushed sequence.
pub proof fn lemma_push_contains(a: Seq<NonNilUuid>, v: NonNilUuid, z: NonNilUuid)
    ensures
        a.push(v).contains(z) <==> (a.contains(z) || z == v),
{
    if a.contains(z) {
        let k = choose|k: int| 0 <= k < a.len() && a[k] == z;
        assert(a.push(v)[k] == z);
    }
    if z == v {
        assert(a.push(v)[a.len() as int] == z);
    }
    if a.push(v).contains(z) {
        let k = choose|k: int| 0 <= k < a.push(v).len() && a.push(v)[k] == z;
        if k < a.len() {
            assert(a[k] == z);
        }
    }
}

/// Filtering with a predicate that holds everywhere changes nothing.
pub proof fn lemma_filter_all_true(s: Seq<NonNilUuid>, p: spec_fn(NonNilUuid) -> bool)
    requires
        forall|i: int| 0 <= i < s.len() ==> p(s[i]),
    ensures
        s.filter(p) == s,
    decreases s.len(),
{
    reveal(Seq::filter);
    if s.len() > 0 {
        lemma_filter_all_true(s.drop_last(), p);
        assert(s.drop_last().push(s.last()) =~= s);
    }
}


/// Pushing `u` and then dropping every `u` gives back a sequence that did
/// not hold `u`.
pub proof fn lemma_push_then_drop(s: Seq<NonNilUuid>, u: NonNilUuid)
    requires
        !s.contains(u),
    ensures
        s.push(u).filter(not_eq(u)) == s,
{
    reveal(Seq::filter);
    assert(s.push(u).drop_last() =~= s);
    assert forall|i: int| 0 <= i < s.len() implies #[trigger] not_eq(u)(s[i]) by {
        assert(s.contains(s[i]));
    }
    lemma_filter_all_true(s, not_eq(u));
}

/// Dropping every `u` from a sequence without `u` changes nothing.
pub proof fn lemma_drop_absent(s: Seq<NonNilUuid>, u: NonNilUuid)
    requires
        !s.contains(u),
    ensures
        s.filter(not_eq(u)) == s,
{
    assert forall|i: int| 0 <= i < s.len() implies #[trigger] not_eq(u)(s[i]) by {
        assert(s.contains(s[i]));
    }
    lemma_filter_all_true(s, not_eq(u));
}

/// Filtering twice by `y != u` is the same as filtering once.
pub proof fn lemma_filter_not_eq_idem(s: Seq<NonNilUuid>, u: NonNilUuid)
    ensures
        s.filter(not_eq(u)).filter(not_eq(u)) == s.filter(not_eq(u)),
{
    let t = s.filter(not_eq(u));
    assert forall|i: int| 0 <= i < t.len() implies #[trigger] not_eq(u)(t[i]) by {
        s.lemma_filter_pred(not_eq(u), i);
    }
    lemma_filter_all_true(t, not_eq(u));
}

fn contains_uuid(v: &Vec<NonNilUuid>, x: NonNilUuid) -> (r: bool)
    ensures
        r == v@.contains(x),
{
    let mut i: usize = 0;
    while i < v.len()
        invariant
            i <= v.len(),
            forall|j: int| 0 <= j < i ==> v@[j] != x,
        decreases v.len() - i,
    {
        if v[i].same_as(&x) {
            return true;
        }
        i = i + 1;
    }
    false
}

pub(crate) fn copy_uuids(v: &Vec<NonNilUuid>) -> (r: Vec<NonNilUuid>)
    ensures
        r@ == v@,
{
    let mut r: Vec<NonNilUuid> = Vec::new();
    let mut i: usize = 0;
    while i < v.len()
        invariant
            i <= v.len(),
            r@ == v@.take(i as int),
        decreases v.len() - i,
    {
        r.push(v[i]);
        i = i + 1;
        assert(r@ =~= v@.take(i as int));
    }
    assert(v@.take(v.len() as int) =~= v@);
    r
}

fn without_uuid(v: &Vec<NonNilUuid>, x: NonNilUuid) -> (r: Vec<NonNilUuid>)
    ensures
        r@ == v@.filter(not_eq(x)),
{
    let mut r: Vec<NonNilUuid> = Vec::new();
    let mut i: usize = 0;
    while i < v.len()
        invariant
            i <= v.len(),
            r@ == v@.take(i as int).filter(not_eq(x)),
        decreases v.len() - i,
    {
        proof {
            reveal(Seq::filter);
            assert(v@.take(i + 1).drop_last() =~= v@.take(i as int));
        }
        if !v[i].same_as(&x) {
            r.push(v[i]);
        }
        i = i + 1;
    }
    assert(v@.take(v.len() as int) =~= v@);
    r
}

fn checked_targets(near: RuntimeEntityId, edge: FullEdge, add_targets: &Vec<RuntimeEntityId>) -> (r:
    Result<Vec<NonNilUuid>, EdgeError>)
    ensures
        r is Ok <==> types_match(near, edge, add_targets@),
        r matches Err(err) ==> type_error(near, edge, add_targets@, err),
        r matches Ok(v) ==> v@ == ids_of(add_targets@),
{
        if !str_eq(near.entity_type_name(), edge.near.entity_name) {
            return Err(
                EdgeError::NearTypeMismatch {
                    actual: near.entity_type_name(),
                    expected: edge.near.entity_name,
                },
            );
        }
        let mut inputs: Vec<NonNilUuid> = Vec::new();
        let mut i: usize = 0;
        while i < add_targets.len()
            invariant
                i <= add_targets.len(),
                inputs@ == ids_of(add_targets@.take(i as int)),
                all_of_type(add_targets@.take(i as int), edge.far.entity_name@),
                near.spec_type_name()@ == edge.near.entity_name@,
            decreases add_targets.len() - i,
        {
            let t = add_targets[i];
            if !str_eq(t.entity_type_name(), edge.far.entity_name) {
                proof {
                    assert(add_targets@[i as int] == t);
                    assert(0 <= i < add_targets@.len() && all_of_type(
                        add_targets@.take(i as int),
                        edge.far.entity_name@,
                    ) && add_targets@[i as int].spec_type_name()@ != edge.far.entity_name@);
                }
                return Err(
                    EdgeError::FarTypeMismatch {
                        actual: t.entity_type_name(),
                        expected: edge.far.entity_name,
                    },
                );
            }
            inputs.push(t.entity_uuid());
            proof {
                assert(add_targets@.take(i + 1) =~= add_targets@.take(i as int).push(t));
                assert(ids_of(add_targets@.take(i + 1)) =~= ids_of(add_targets@.take(i as int)).push(
                    t.spec_uuid(),
                ));
            }
            i = i + 1;
        }
        proof {
            assert(add_targets@.take(add_targets.len() as int) =~= add_targets@);
        }
        Ok(inputs)
}

pub(crate) fn find_slot(slots: &Vec<EdgeSlot>, edge: &FullEdge) -> (r: Option<usize>)
    ensures
        match r {
            Some(i) => i < slots.len() && slots@[i as int].edge@ == edge@,
            None => !slot_has(slots@, edge@),
        },
{
    let mut i: usize = 0;
    while i < slots.len()
        invariant
            i <= slots.len(),
            forall|j: int| 0 <= j < i ==> slots@[j].edge@ != edge@,
        decreases slots.len() - i,
    {
        if slots[i].edge.same_edge(edge) {
            return Some(i);
        }
        i = i + 1;
    }
    None
}

impl RawEdgeMap {
    /// The far-side UUIDs listed under edge `e` on entity `u`.
    pub closed spec fn nbrs(&self, u: NonNilUuid, e: EdgeView) -> Seq<NonNilUuid> {
        if self.map@.contains_key(u@) {
            slot_list(self.map@[u@]@, e)
        } else {
            Seq::empty()
        }
    }


    /// The 128-bit values of the entities that have an entry in the map.
    pub closed spec fn key_set(&self) -> Set<u128> {
        self.map@.dom()
    }

    /// The key set is finite, and every listed neighbor has an entry.
    pub proof fn lemma_neighbors_are_keys(&self, u: NonNilUuid, e: EdgeView, v: NonNilUuid)
        requires
            self.wf(),
        ensures
            self.key_set().finite(),
            self.nbrs(u, e).contains(v) ==> self.key_set().contains(v@),
    {
        if self.nbrs(u, e).contains(v) {
            assert(self.nbrs(v, flip_view(e)).contains(u));
        }
    }

    closed spec fn structural(&self) -> bool {
        forall|k: u128| #[trigger] self.map@.contains_key(k) ==> slots_distinct(self.map@[k]@)
    }

    closed spec fn symmetric(&self) -> bool {
        forall|u: NonNilUuid, e: EdgeView, v: NonNilUuid| #[trigger]
            self.nbrs(u, e).contains(v) ==> self.nbrs(v, flip_view(e)).contains(u)
    }

    /// Well-formedness: one list per edge per entity, and every edge is
    /// stored in both directions.
    pub closed spec fn wf(&self) -> bool {
        self.structural() && self.symmetric()
    }

    /// An empty edge map.
    pub fn new() -> (r: RawEdgeMap)
        ensures
            r.wf(),
            forall|u: NonNilUuid, e: EdgeView| r.nbrs(u, e) == Seq::<NonNilUuid>::empty(),
    {
        RawEdgeMap { map: HashMap::new() }
    }

    fn list_of(&self, u: NonNilUuid, edge: &FullEdge) -> (r: Vec<NonNilUuid>)
        requires
            self.structural(),
        ensures
            r@ == self.nbrs(u, edge@),
    {
        match self.map.get(&u.get()) {
            None => Vec::new(),
            Some(slots) => {
                match find_slot(slots, edge) {
                    Some(i) => {
                        proof {
                            lemma_slot_list_at(slots@, i as int);
                        }
                        copy_uuids(&slots[i].targets)
                    },
                    None => Vec::new(),
                }
            },
        }
    }

    fn set_list(&mut self, u: NonNilUuid, edge: &FullEdge, list: Vec<NonNilUuid>)
        requires
            old(self).structural(),
        ensures
            final(self).structural(),
            forall|x: NonNilUuid, f: EdgeView| #[trigger]
                final(self).nbrs(x, f) == if x == u && f == edge@ {
                    list@
                } else {
                    old(self).nbrs(x, f)
                },
    {
        let k = u.get();
        let ghost old_map = self.map@;
        let mut slots = match self.map.remove(&k) {
            Some(s) => s,
            None => Vec::new(),
        };
        let ghost old_slots = slots@;
        assert(slots_distinct(old_slots));
        match find_slot(&slots, edge) {
            Some(i) => {
                let e = slots[i].edge;
                let ns = EdgeSlot { edge: e, targets: list };
                proof {
                    lemma_slot_list_update(old_slots, i as int, ns);
                }
                slots.set(i, ns);
            },
            None => {
                let ns = EdgeSlot { edge: *edge, targets: list };
                proof {
                    lemma_slot_list_push(old_slots, ns);
                }
                slots.push(ns);
            },
        }
        self.map.insert(k, slots);
        assert forall|x: NonNilUuid, f: EdgeView| #[trigger]
            self.nbrs(x, f) == if x == u && f == edge@ {
                list@
            } else {
                old(self).nbrs(x, f)
            } by {
            if x@ == k {
                assert(x == u);
                if !old_map.contains_key(k) {
                    assert(old_slots =~= Seq::<EdgeSlot>::empty());
                    assert(!slot_has(old_slots, f));
                }
            }
        }
    }


    proof fn lemma_add_keeps_symmetry(
        old: RawEdgeMap,
        new: RawEdgeMap,
        u: NonNilUuid,
        e: EdgeView,
        added: Seq<NonNilUuid>,
    )
        requires
            old.symmetric(),
            forall|a: NonNilUuid| #[trigger] added.contains(a) ==> !old.nbrs(u, e).contains(a),
            forall|x: NonNilUuid, f: EdgeView| #[trigger]
                new.nbrs(x, f) == add_edge_list(old, u, e, added, x, f),
        ensures
            new.symmetric(),
            forall|x: NonNilUuid, f: EdgeView, z: NonNilUuid| #[trigger]
                old.nbrs(x, f).contains(z) ==> new.nbrs(x, f).contains(z),
    {
        assert forall|x: NonNilUuid, f: EdgeView, z: NonNilUuid| #[trigger]
            old.nbrs(x, f).contains(z) implies new.nbrs(x, f).contains(z) by {
            if x == u && f == e {
                lemma_concat_contains(old.nbrs(u, e), added, z);
            }
            let mid = if x == u && f == e {
                old.nbrs(u, e) + added
            } else {
                old.nbrs(x, f)
            };
            lemma_push_contains(mid, u, z);
        }
        assert forall|x: NonNilUuid, f: EdgeView, y: NonNilUuid| #[trigger]
            new.nbrs(x, f).contains(y) implies new.nbrs(y, flip_view(f)).contains(x) by {
            let mid = if x == u && f == e {
                old.nbrs(u, e) + added
            } else {
                old.nbrs(x, f)
            };
            lemma_push_contains(mid, u, y);
            if x == u && f == e {
                lemma_concat_contains(old.nbrs(u, e), added, y);
            }
            if mid.contains(y) {
                if x == u && f == e && !old.nbrs(u, e).contains(y) {
                    let fe = flip_view(e);
                    let mid2 = if y == u && fe == e {
                        old.nbrs(u, e) + added
                    } else {
                        old.nbrs(y, fe)
                    };
                    lemma_push_contains(mid2, u, u);
                    if y == u && fe == e {
                        lemma_concat_contains(old.nbrs(u, e), added, u);
                    }
                    assert(new.nbrs(y, fe).contains(u));
                } else {
                    assert(old.nbrs(x, f).contains(y));
                    assert(old.nbrs(y, flip_view(f)).contains(x));
                    assert(new.nbrs(y, flip_view(f)).contains(x));
                }
            } else {
                assert(y == u);
                assert(f == flip_view(e));
                assert(flip_view(f) == e);
                lemma_concat_contains(old.nbrs(u, e), added, x);
                let mid3 = old.nbrs(u, e) + added;
                lemma_push_contains(mid3, u, x);
                assert(new.nbrs(u, e).contains(x));
            }
        }
    }

    /// Add bidirectional edges from `near` to each of `add_targets` using the
    /// given edge.
    ///
    /// Both endpoints store the other.  Idempotent: targets already linked
    /// are skipped, and each target is added at most once.  Returns the
    /// UUIDs that were actually added.
    ///
    /// Fails with `NearTypeMismatch` when `near` is not of the edge's near
    /// entity type, else with `FarTypeMismatch` for the first target not of
    /// the far entity type; the map is then unchanged.
    pub fn add_edge(
        &mut self,
        near: RuntimeEntityId,
        edge: FullEdge,
        add_targets: Vec<RuntimeEntityId>,
    ) -> (r: Result<Vec<NonNilUuid>, EdgeError>)
        requires
            old(self).wf(),
        ensures
            final(self).wf(),
            r is Ok <==> types_match(near, edge, add_targets@),
            r matches Err(err) ==> type_error(near, edge, add_targets@, err) && *final(self)
                == *old(self),
            r matches Ok(added) ==> add_edge_post(
                *old(self),
                *final(self),
                near.spec_uuid(),
                edge@,
                ids_of(add_targets@),
                added@,
            ),
    {
        let inputs = match checked_targets(near, edge, &add_targets) {
            Ok(v) => v,
            Err(err) => {
                return Err(err);
            },
        };
        let near_uuid = near.entity_uuid();
        let reverse_edge = edge.flip();
        let existing = self.list_of(near_uuid, &edge);
        let mut added: Vec<NonNilUuid> = Vec::new();
        let mut j: usize = 0;
        while j < inputs.len()
            invariant
                j <= inputs.len(),
                added@ == fresh_targets(existing@, inputs@.take(j as int)),
            decreases inputs.len() - j,
        {
            let t = inputs[j];
            proof {
                assert(inputs@.take(j + 1).drop_last() =~= inputs@.take(j as int));
            }
            if !contains_uuid(&existing, t) && !contains_uuid(&added, t) {
                added.push(t);
            }
            j = j + 1;
        }
        proof {
            assert(inputs@.take(inputs.len() as int) =~= inputs@);
            lemma_fresh_targets(existing@, inputs@);
        }
        let mut new_list = copy_uuids(&existing);
        let mut a: usize = 0;
        while a < added.len()
            invariant
                a <= added.len(),
                new_list@ == existing@ + added@.take(a as int),
            decreases added.len() - a,
        {
            new_list.push(added[a]);
            a = a + 1;
            proof {
                assert(new_list@ =~= existing@ + added@.take(a as int));
            }
        }
        proof {
            assert(added@.take(added.len() as int) =~= added@);
        }
        let ghost old_map = *old(self);
        self.set_list(near_uuid, &edge, new_list);
        let ghost u = near_uuid;
        let ghost e = edge@;
        let mut k: usize = 0;
        proof {
            assert forall|x: NonNilUuid, f: EdgeView| #[trigger]
                self.nbrs(x, f) == add_step(old_map, u, e, added@, added@.take(0), x, f) by {
                assert(!added@.take(0).contains(x));
            }
        }
        while k < added.len()
            invariant
                self.structural(),
                k <= added.len(),
                added@.no_duplicates(),
                u == near_uuid,
                e == edge@,
                reverse_edge@ == flip_view(e),
                forall|x: NonNilUuid, f: EdgeView| #[trigger]
                    self.nbrs(x, f) == add_step(old_map, u, e, added@, added@.take(k as int), x, f),
            decreases added.len() - k,
        {
            let t = added[k];
            let ghost before = *self;
            let ghost p = added@.take(k as int);
            let ghost p2 = added@.take(k + 1);
            proof {
                assert(p2 =~= p.push(t));
                if p.contains(t) {
                    let j = choose|j: int| 0 <= j < p.len() && p[j] == t;
                    assert(added@[j] == added@[k as int]);
                }
                assert forall|x: NonNilUuid| #[trigger] p2.contains(x) <==> (p.contains(x) || x == t) by {
                    lemma_push_contains(p, t, x);
                }
            }
            let lst = self.list_of(t, &reverse_edge);
            if !contains_uuid(&lst, near_uuid) {
                let mut l2 = lst;
                l2.push(near_uuid);
                self.set_list(t, &reverse_edge, l2);
            }
            k = k + 1;
            proof {
                assert forall|x: NonNilUuid, f: EdgeView| #[trigger]
                    self.nbrs(x, f) == add_step(old_map, u, e, added@, p2, x, f) by {
                    assert(p2.contains(x) <==> (p.contains(x) || x == t));
                    assert(before.nbrs(x, f) == add_step(old_map, u, e, added@, p, x, f));
                }
            }
        }
        proof {
            assert(added@.take(added.len() as int) =~= added@);
            assert forall|a: NonNilUuid| #[trigger] added@.contains(a) implies !old_map.nbrs(
                u,
                e,
            ).contains(a) by {
                lemma_fresh_targets(existing@, inputs@);
            }
            RawEdgeMap::lemma_add_keeps_symmetry(old_map, *self, u, e, added@);
        }
        Ok(added)
    }


    proof fn lemma_remove_keeps_symmetry(
        old: RawEdgeMap,
        new: RawEdgeMap,
        u: NonNilUuid,
        e: EdgeView,
        removed: Seq<NonNilUuid>,
    )
        requires
            old.symmetric(),
            forall|x: NonNilUuid, f: EdgeView| #[trigger]
                new.nbrs(x, f) == remove_step(old, u, e, removed, removed, x, f),
        ensures
            new.symmetric(),
    {
        assert forall|x: NonNilUuid, f: EdgeView, y: NonNilUuid| #[trigger]
            new.nbrs(x, f).contains(y) implies new.nbrs(y, flip_view(f)).contains(x) by {
            let mid = remove_mid(old, u, e, removed, x, f);
            lemma_filter_mem(mid, not_eq(u), y);
            lemma_filter_mem(old.nbrs(u, e), not_in(removed), y);
            assert(mid.contains(y));
            assert(old.nbrs(x, f).contains(y));
            assert(old.nbrs(y, flip_view(f)).contains(x));
            let mid2 = remove_mid(old, u, e, removed, y, flip_view(f));
            lemma_filter_mem(old.nbrs(u, e), not_in(removed), x);
            assert(mid2.contains(x));
            lemma_filter_mem(mid2, not_eq(u), x);
        }
    }

    /// Remove bidirectional edges from `near` to each of `remove_targets`
    /// using the given edge.  Targets not linked are ignored.
    ///
    /// Returns the UUIDs of the targets that were actually removed.
    pub fn remove_edge(
        &mut self,
        near: RuntimeEntityId,
        edge: FullEdge,
        remove_targets: Vec<RuntimeEntityId>,
    ) -> (r: Vec<NonNilUuid>)
        requires
            old(self).wf(),
        ensures
            final(self).wf(),
            remove_edge_post(
                *old(self),
                *final(self),
                near.spec_uuid(),
                edge@,
                ids_of(remove_targets@),
                r@,
            ),
    {
        let near_uuid = near.entity_uuid();
        let reverse_edge = edge.flip();
        let mut inputs: Vec<NonNilUuid> = Vec::new();
        let mut i: usize = 0;
        while i < remove_targets.len()
            invariant
                i <= remove_targets.len(),
                inputs@ == ids_of(remove_targets@.take(i as int)),
            decreases remove_targets.len() - i,
        {
            inputs.push(remove_targets[i].entity_uuid());
            proof {
                assert(remove_targets@.take(i + 1) =~= remove_targets@.take(i as int).push(
                    remove_targets@[i as int],
                ));
                assert(ids_of(remove_targets@.take(i + 1)) =~= ids_of(
                    remove_targets@.take(i as int),
                ).push(remove_targets@[i as int].spec_uuid()));
            }
            i = i + 1;
        }
        proof {
            assert(remove_targets@.take(remove_targets.len() as int) =~= remove_targets@);
        }
        let existing = self.list_of(near_uuid, &edge);
        let mut removed: Vec<NonNilUuid> = Vec::new();
        let mut j: usize = 0;
        while j < inputs.len()
            invariant
                j <= inputs.len(),
                removed@ == inputs@.take(j as int).filter(is_in(existing@)),
            decreases inputs.len() - j,
        {
            proof {
                reveal(Seq::filter);
                assert(inputs@.take(j + 1).drop_last() =~= inputs@.take(j as int));
            }
            if contains_uuid(&existing, inputs[j]) {
                removed.push(inputs[j]);
            }
            j = j + 1;
        }
        proof {
            assert(inputs@.take(inputs.len() as int) =~= inputs@);
        }
        let ghost old_map = *old(self);
        let ghost u = near_uuid;
        let ghost e = edge@;
        if removed.len() > 0 {
            let mut kept: Vec<NonNilUuid> = Vec::new();
            let mut a: usize = 0;
            while a < existing.len()
                invariant
                    a <= existing.len(),
                    kept@ == existing@.take(a as int).filter(not_in(removed@)),
                decreases existing.len() - a,
            {
                proof {
                    reveal(Seq::filter);
                    assert(existing@.take(a + 1).drop_last() =~= existing@.take(a as int));
                }
                if !contains_uuid(&removed, existing[a]) {
                    kept.push(existing[a]);
                }
                a = a + 1;
            }
            proof {
                assert(existing@.take(existing.len() as int) =~= existing@);
            }
            self.set_list(near_uuid, &edge, kept);
        } else {
            proof {
                assert(removed@ =~= Seq::<NonNilUuid>::empty());
                lemma_filter_all_true(existing@, not_in(removed@));
            }
        }
        let mut k: usize = 0;
        proof {
            assert forall|x: NonNilUuid, f: EdgeView| #[trigger]
                self.nbrs(x, f) == remove_step(old_map, u, e, removed@, removed@.take(0), x, f) by {
                assert(!removed@.take(0).contains(x));
            }
        }
        while k < removed.len()
            invariant
                self.structural(),
                k <= removed.len(),
                u == near_uuid,
                e == edge@,
                reverse_edge@ == flip_view(e),
                forall|x: NonNilUuid, f: EdgeView| #[trigger]
                    self.nbrs(x, f) == remove_step(
                        old_map,
                        u,
                        e,
                        removed@,
                        removed@.take(k as int),
                        x,
                        f,
                    ),
            decreases removed.len() - k,
        {
            let t = removed[k];
            let ghost before = *self;
            let ghost p = removed@.take(k as int);
            let ghost p2 = removed@.take(k + 1);
            proof {
                assert(p2 =~= p.push(t));
                assert forall|x: NonNilUuid| #[trigger] p2.contains(x) <==> (p.contains(x) || x == t) by {
                    lemma_push_contains(p, t, x);
                }
                lemma_filter_not_eq_idem(remove_mid(old_map, u, e, removed@, t, flip_view(e)), u);
            }
            let lst = self.list_of(t, &reverse_edge);
            let cleared = without_uuid(&lst, near_uuid);
            self.set_list(t, &reverse_edge, cleared);
            k = k + 1;
            proof {
                assert forall|x: NonNilUuid, f: EdgeView| #[trigger]
                    self.nbrs(x, f) == remove_step(old_map, u, e, removed@, p2, x, f) by {
                    assert(p2.contains(x) <==> (p.contains(x) || x == t));
                    assert(before.nbrs(x, f) == remove_step(old_map, u, e, removed@, p, x, f));
                }
            }
        }
        proof {
            assert(removed@.take(removed.len() as int) =~= removed@);
            RawEdgeMap::lemma_remove_keeps_symmetry(old_map, *self, u, e, removed@);
        }
        removed
    }


    proof fn lemma_set_keeps_symmetry(
        old: RawEdgeMap,
        new: RawEdgeMap,
        u: NonNilUuid,
        e: EdgeView,
        new_list: Seq<NonNilUuid>,
        added: Seq<NonNilUuid>,
        removed: Seq<NonNilUuid>,
    )
        requires
            old.symmetric(),
            added == new_list.filter(not_in(old.nbrs(u, e))),
            removed == old.nbrs(u, e).filter(not_in(new_list)),
            forall|x: NonNilUuid, f: EdgeView| #[trigger]
                new.nbrs(x, f) == set_step(old, u, e, new_list, removed, added, x, f),
        ensures
            new.symmetric(),
    {
        let fe = flip_view(e);
        assert forall|x: NonNilUuid, f: EdgeView, y: NonNilUuid| #[trigger]
            new.nbrs(x, f).contains(y) implies new.nbrs(y, flip_view(f)).contains(x) by {
            let mid = set_mid(old, u, e, new_list, removed, x, f);
            lemma_push_contains(mid, u, y);
            let mid2 = set_mid(old, u, e, new_list, removed, y, flip_view(f));
            lemma_push_contains(mid2, u, x);
            if x == u && f == e {
                assert(mid == new_list);
                if mid.contains(y) {
                    lemma_filter_mem(new_list, not_in(old.nbrs(u, e)), y);
                    if added.contains(y) {
                        lemma_push_contains(set_mid(old, u, e, new_list, removed, y, fe), u, u);
                    } else {
                        assert(old.nbrs(u, e).contains(y));
                        assert(old.nbrs(y, fe).contains(u));
                        lemma_filter_mem(old.nbrs(u, e), not_in(new_list), y);
                        assert(!removed.contains(y));
                    }
                }
            } else if mid.contains(y) {
                let c = set_cleared(old, u, e, removed, x, f);
                assert(mid == c);
                lemma_filter_mem(old.nbrs(x, f), not_eq(u), y);
                assert(old.nbrs(x, f).contains(y));
                assert(old.nbrs(y, flip_view(f)).contains(x));
                if y == u && flip_view(f) == e {
                    lemma_filter_mem(old.nbrs(u, e), not_in(new_list), x);
                } else {
                    lemma_filter_mem(old.nbrs(y, flip_view(f)), not_eq(u), x);
                }
            } else {
                assert(y == u && f == fe && added.contains(x));
                lemma_filter_mem(new_list, not_in(old.nbrs(u, e)), x);
                assert(flip_view(f) == e);
            }
        }
    }

    /// Set all neighbors for a specific edge from `near`.
    ///
    /// Removes `near` from the reverse lists of the targets that are dropped,
    /// overwrites the edge list with `new_targets`, and inserts `near` into
    /// the reverse list of each new target (once).  Returns `(added,
    /// removed)` relative to the previous list.
    ///
    /// Fails with the same type errors as [`RawEdgeMap::add_edge`]; the map
    /// is then unchanged.
    pub fn set_neighbors(
        &mut self,
        near: RuntimeEntityId,
        edge: FullEdge,
        new_targets: Vec<RuntimeEntityId>,
    ) -> (r: Result<(Vec<NonNilUuid>, Vec<NonNilUuid>), EdgeError>)
        requires
            old(self).wf(),
        ensures
            final(self).wf(),
            r is Ok <==> types_match(near, edge, new_targets@),
            r matches Err(err) ==> type_error(near, edge, new_targets@, err) && *final(self)
                == *old(self),
            r matches Ok((added, removed)) ==> set_neighbors_post(
                *old(self),
                *final(self),
                near.spec_uuid(),
                edge@,
                ids_of(new_targets@),
                added@,
                removed@,
            ),
    {
        let new_ids = match checked_targets(near, edge, &new_targets) {
            Ok(v) => v,
            Err(err) => {
                return Err(err);
            },
        };
        let near_uuid = near.entity_uuid();
        let reverse_edge = edge.flip();
        let old_ids = self.list_of(near_uuid, &edge);
        let mut added: Vec<NonNilUuid> = Vec::new();
        let mut j: usize = 0;
        while j < new_ids.len()
            invariant
                j <= new_ids.len(),
                added@ == new_ids@.take(j as int).filter(not_in(old_ids@)),
            decreases new_ids.len() - j,
        {
            proof {
                reveal(Seq::filter);
                assert(new_ids@.take(j + 1).drop_last() =~= new_ids@.take(j as int));
            }
            if !contains_uuid(&old_ids, new_ids[j]) {
                added.push(new_ids[j]);
            }
            j = j + 1;
        }
        let mut removed: Vec<NonNilUuid> = Vec::new();
        let mut a: usize = 0;
        while a < old_ids.len()
            invariant
                a <= old_ids.len(),
                removed@ == old_ids@.take(a as int).filter(not_in(new_ids@)),
            decreases old_ids.len() - a,
        {
            proof {
                reveal(Seq::filter);
                assert(old_ids@.take(a + 1).drop_last() =~= old_ids@.take(a as int));
            }
            if !contains_uuid(&new_ids, old_ids[a]) {
                removed.push(old_ids[a]);
            }
            a = a + 1;
        }
        proof {
            assert(new_ids@.take(new_ids.len() as int) =~= new_ids@);
            assert(old_ids@.take(old_ids.len() as int) =~= old_ids@);
        }
        let ghost old_map = *old(self);
        let ghost u = near_uuid;
        let ghost e = edge@;
        let mut k: usize = 0;
        proof {
            assert forall|x: NonNilUuid, f: EdgeView| #[trigger]
                self.nbrs(x, f) == set_cleared(old_map, u, e, removed@.take(0), x, f) by {
                assert(!removed@.take(0).contains(x));
            }
        }
        while k < removed.len()
            invariant
                self.structural(),
                k <= removed.len(),
                u == near_uuid,
                e == edge@,
                reverse_edge@ == flip_view(e),
                forall|x: NonNilUuid, f: EdgeView| #[trigger]
                    self.nbrs(x, f) == set_cleared(old_map, u, e, removed@.take(k as int), x, f),
            decreases removed.len() - k,
        {
            let t = removed[k];
            let ghost before = *self;
            let ghost p = removed@.take(k as int);
            let ghost p2 = removed@.take(k + 1);
            proof {
                assert(p2 =~= p.push(t));
                assert forall|x: NonNilUuid| #[trigger] p2.contains(x) <==> (p.contains(x) || x == t) by {
                    lemma_push_contains(p, t, x);
                }
                lemma_filter_not_eq_idem(old_map.nbrs(t, flip_view(e)), u);
            }
            let lst = self.list_of(t, &reverse_edge);
            let cleared = without_uuid(&lst, near_uuid);
            self.set_list(t, &reverse_edge, cleared);
            k = k + 1;
            proof {
                assert forall|x: NonNilUuid, f: EdgeView| #[trigger]
                    self.nbrs(x, f) == set_cleared(old_map, u, e, p2, x, f) by {
                    assert(p2.contains(x) <==> (p.contains(x) || x == t));
                    assert(before.nbrs(x, f) == set_cleared(old_map, u, e, p, x, f));
                }
            }
        }
        proof {
            assert(removed@.take(removed.len() as int) =~= removed@);
        }
        let stored = copy_uuids(&new_ids);
        self.set_list(near_uuid, &edge, stored);
        let mut m: usize = 0;
        proof {
            assert forall|x: NonNilUuid, f: EdgeView| #[trigger]
                self.nbrs(x, f) == set_step(
                    old_map,
                    u,
                    e,
                    new_ids@,
                    removed@,
                    added@.take(0),
                    x,
                    f,
                ) by {
                assert(!added@.take(0).contains(x));
            }
        }
        while m < added.len()
            invariant
                self.structural(),
                m <= added.len(),
                u == near_uuid,
                e == edge@,
                reverse_edge@ == flip_view(e),
                forall|x: NonNilUuid, f: EdgeView| #[trigger]
                    self.nbrs(x, f) == set_step(
                        old_map,
                        u,
                        e,
                        new_ids@,
                        removed@,
                        added@.take(m as int),
                        x,
                        f,
                    ),
            decreases added.len() - m,
        {
            let t = added[m];
            let ghost before = *self;
            let ghost p = added@.take(m as int);
            let ghost p2 = added@.take(m + 1);
            proof {
                assert(p2 =~= p.push(t));
                assert forall|x: NonNilUuid| #[trigger] p2.contains(x) <==> (p.contains(x) || x == t) by {
                    lemma_push_contains(p, t, x);
                }
                let mid = set_mid(old_map, u, e, new_ids@, removed@, t, flip_view(e));
                lemma_push_contains(mid, u, u);
            }
            let lst = self.list_of(t, &reverse_edge);
            if !contains_uuid(&lst, near_uuid) {
                let mut l2 = lst;
                l2.push(near_uuid);
                self.set_list(t, &reverse_edge, l2);
            }
            m = m + 1;
            proof {
                assert forall|x: NonNilUuid, f: EdgeView| #[trigger]
                    self.nbrs(x, f) == set_step(old_map, u, e, new_ids@, removed@, p2, x, f) by {
                    assert(p2.contains(x) <==> (p.contains(x) || x == t));
                    assert(before.nbrs(x, f) == set_step(
                        old_map,
                        u,
                        e,
                        new_ids@,
                        removed@,
                        p,
                        x,
                        f,
                    ));
                }
            }
        }
        proof {
            assert(added@.take(added.len() as int) =~= added@);
            RawEdgeMap::lemma_set_keeps_symmetry(
                old_map,
                *self,
                u,
                e,
                new_ids@,
                added@,
                removed@,
            );
        }
        Ok((added, removed))
    }


    /// Remove all edges involving `uuid`, keeping both directions consistent.
    ///
    /// `uuid` is dropped from every neighbor's reverse list and its own
    /// entry is removed.
    pub fn clear_all(&mut self, uuid: NonNilUuid)
        requires
            old(self).wf(),
        ensures
            final(self).wf(),
            clear_all_post(*old(self), *final(self), uuid),
    {
        let ghost old_map = *old(self);
        let key = uuid.get();
        let inner = match self.map.remove(&key) {
            None => {
                proof {
                    assert forall|x: NonNilUuid, f: EdgeView| #[trigger]
                        self.nbrs(x, f) == if x == uuid {
                            Seq::<NonNilUuid>::empty()
                        } else {
                            old_map.nbrs(x, f).filter(not_eq(uuid))
                        } by {
                        if x != uuid {
                            if old_map.nbrs(x, f).contains(uuid) {
                                assert(old_map.nbrs(uuid, flip_view(f)).contains(x));
                            }
                            lemma_filter_all_true(old_map.nbrs(x, f), not_eq(uuid));
                        }
                    }
                }
                return ;
            },
            Some(v) => v,
        };
        let ghost s = inner@;
        assert(s == old_map.map@[key]@);
        assert(slots_distinct(s));
        let mut i: usize = 0;
        while i < inner.len()
            invariant
                self.structural(),
                inner@ == s,
                i <= inner.len(),
                forall|x: NonNilUuid, f: EdgeView| #[trigger]
                    self.nbrs(x, f) == clear_state(old_map, uuid, s, i as int, 0, x, f),
            decreases inner.len() - i,
        {
            let edge = inner[i].edge;
            let rev = edge.flip();
            let mut j: usize = 0;
            while j < inner[i].targets.len()
                invariant
                    self.structural(),
                    inner@ == s,
                    i < inner.len(),
                    rev@ == flip_view(s[i as int].edge@),
                    j <= s[i as int].targets@.len(),
                    forall|x: NonNilUuid, f: EdgeView| #[trigger]
                        self.nbrs(x, f) == clear_state(
                            old_map,
                            uuid,
                            s,
                            i as int,
                            j as int,
                            x,
                            f,
                        ),
                decreases s[i as int].targets@.len() - j,
            {
                let n = inner[i].targets[j];
                let ghost before = *self;
                let ghost tg = s[i as int].targets@;
                proof {
                    assert(tg.take(j + 1) =~= tg.take(j as int).push(n));
                    assert forall|y: NonNilUuid| #[trigger]
                        tg.take(j + 1).contains(y) <==> (tg.take(j as int).contains(y) || y == n) by {
                        lemma_push_contains(tg.take(j as int), n, y);
                    }
                    assert forall|x: NonNilUuid, f: EdgeView|
                        #[trigger] covered(s, i as int, j + 1, x, f) <==> (covered(
                            s,
                            i as int,
                            j as int,
                            x,
                            f,
                        ) || (x == n && f == rev@)) by {
                        assert(tg.take(j + 1).contains(x) <==> (tg.take(j as int).contains(x)
                            || x == n));
                    }
                    lemma_filter_not_eq_idem(old_map.nbrs(n, rev@), uuid);
                }
                if !n.same_as(&uuid) {
                    let lst = self.list_of(n, &rev);
                    if contains_uuid(&lst, uuid) {
                        let cleared = without_uuid(&lst, uuid);
                        self.set_list(n, &rev, cleared);
                    } else {
                        proof {
                            lemma_filter_all_true(lst@, not_eq(uuid));
                        }
                    }
                }
                j = j + 1;
                proof {
                    assert forall|x: NonNilUuid, f: EdgeView| #[trigger]
                        self.nbrs(x, f) == clear_state(
                            old_map,
                            uuid,
                            s,
                            i as int,
                            j as int,
                            x,
                            f,
                        ) by {
                        assert(before.nbrs(x, f) == clear_state(
                            old_map,
                            uuid,
                            s,
                            i as int,
                            j - 1,
                            x,
                            f,
                        ));
                    }
                }
            }
            i = i + 1;
            proof {
                assert forall|x: NonNilUuid, f: EdgeView| #[trigger]
                    covered(s, i as int, 0, x, f) <==> covered(
                        s,
                        i - 1,
                        s[i - 1].targets@.len() as int,
                        x,
                        f,
                    ) by {
                    assert(s[i - 1].targets@.take(s[i - 1].targets@.len() as int)
                        =~= s[i - 1].targets@);
                    if covered(s, i - 1, s[i - 1].targets@.len() as int, x, f) {
                        if !(exists|a: int|
                            0 <= a < i - 1 && flip_view(#[trigger] s[a].edge@) == f
                                && s[a].targets@.contains(x)) {
                            assert(0 <= i - 1 < i && flip_view(s[i - 1].edge@) == f
                                && s[i - 1].targets@.contains(x));
                        }
                    }
                    if covered(s, i as int, 0, x, f) {
                        let a = choose|a: int|
                            0 <= a < i && flip_view(#[trigger] s[a].edge@) == f
                                && s[a].targets@.contains(x);
                        if a < i - 1 {
                        } else {
                            assert(a == i - 1);
                        }
                    }
                    assert(!s[i as int - 1].targets@.take(0).contains(x));
                }
            }
        }
        proof {
            assert forall|x: NonNilUuid, f: EdgeView| #[trigger]
                self.nbrs(x, f) == if x == uuid {
                    Seq::<NonNilUuid>::empty()
                } else {
                    old_map.nbrs(x, f).filter(not_eq(uuid))
                } by {
                if x != uuid {
                    if old_map.nbrs(x, f).contains(uuid) {
                        assert(old_map.nbrs(uuid, flip_view(f)).contains(x));
                        let g = flip_view(f);
                        assert(slot_has(s, g));
                        let a = choose|a: int| 0 <= a < s.len() && s[a].edge@ == g;
                        lemma_slot_list_at(s, a);
                        assert(flip_view(s[a].edge@) == f);
                        assert(covered(s, s.len() as int, 0, x, f));
                    } else {
                        lemma_filter_all_true(old_map.nbrs(x, f), not_eq(uuid));
                    }
                }
            }
            assert forall|x: NonNilUuid, f: EdgeView, y: NonNilUuid| #[trigger]
                self.nbrs(x, f).contains(y) implies self.nbrs(y, flip_view(f)).contains(x) by {
                if x != uuid {
                    lemma_filter_mem(old_map.nbrs(x, f), not_eq(uuid), y);
                    assert(old_map.nbrs(y, flip_view(f)).contains(x));
                    lemma_filter_mem(old_map.nbrs(y, flip_view(f)), not_eq(uuid), x);
                }
            }
        }
    }

    /// All neighbors of `near` reachable via the given edge.
    ///
    /// Returns an empty vec when no edges exist for this edge.
    pub fn neighbors(&self, near: RuntimeEntityId, edge: FullEdge) -> (r: Vec<RuntimeEntityId>)
        requires
            self.wf(),
        ensures
            r@.len() == self.nbrs(near.spec_uuid(), edge@).len(),
            forall|i: int|
                0 <= i < r@.len() ==> #[trigger] r@[i].spec_uuid() == self.nbrs(
                    near.spec_uuid(),
                    edge@,
                )[i] && r@[i].spec_type_name() == edge.far.entity_name,
    {
        let list = self.list_of(near.entity_uuid(), &edge);
        let mut r: Vec<RuntimeEntityId> = Vec::new();
        let mut i: usize = 0;
        while i < list.len()
            invariant
                i <= list.len(),
                r@.len() == i,
                forall|j: int|
                    0 <= j < i ==> #[trigger] r@[j].spec_uuid() == list@[j]
                        && r@[j].spec_type_name() == edge.far.entity_name,
            decreases list.len() - i,
        {
            r.push(RuntimeEntityId::new_unchecked(list[i], edge.far.entity_name));
            i = i + 1;
        }
        r
    }
}

impl Default for RawEdgeMap {
    fn default() -> (r: RawEdgeMap)
        ensures
            r.wf(),
            forall|u: NonNilUuid, e: EdgeView| r.nbrs(u, e) == Seq::<NonNilUuid>::empty(),
    {
        RawEdgeMap::new()
    }
}

} // verus!
