//! Cache of transitive edge closures (e.g. all groups a presenter belongs to,
//! including nested groups).

use vstd::prelude::*;
use std::collections::{HashMap, HashSet};
use crate::edge::id::{EdgeView, FullEdge};
use crate::edge::map::{
    EdgeSlot, RawEdgeMap, copy_uuids, find_slot, lemma_slot_list_at, lemma_slot_list_push,
    slot_has, slot_list, slots_distinct,
};
use crate::ids::{
    DynamicEntityId, EntityTyped, EntityUuid, NonNilUuid, RuntimeEntityId,
    lemma_uuid_view_injective,
};

verus! {

broadcast use vstd::std_specs::hash::group_hash_axioms, lemma_uuid_view_injective;

/// `p` is a walk that follows edge `e` at every step.
pub open spec fn is_walk(m: RawEdgeMap, e: EdgeView, p: Seq<NonNilUuid>) -> bool {
    &&& p.len() >= 1
    &&& forall|i: int| 0 <= i < p.len() - 1 ==> #[trigger] m.nbrs(p[i], e).contains(p[i + 1])
}

/// `b` can be reached from `a` by following edge `e` zero or more times.
pub open spec fn reachable(m: RawEdgeMap, e: EdgeView, a: NonNilUuid, b: NonNilUuid) -> bool {
    exists|p: Seq<NonNilUuid>| #[trigger] is_walk(m, e, p) && p[0] == a && p.last() == b
}

/// `r` lists, once each, every entity other than `start` reachable from
/// `start` by following edge `e`.
pub open spec fn is_transitive_closure(
    m: RawEdgeMap,
    e: EdgeView,
    start: NonNilUuid,
    r: Seq<NonNilUuid>,
) -> bool {
    &&& r.no_duplicates()
    &&& forall|v: NonNilUuid| #[trigger] r.contains(v) <==> (v != start && reachable(m, e, start, v))
}

/// A set of entities closed under following edge `e` contains the end of
/// every walk that starts inside it.
proof fn lemma_closed_contains_walk_end(
    m: RawEdgeMap,
    e: EdgeView,
    vis: spec_fn(NonNilUuid) -> bool,
    p: Seq<NonNilUuid>,
)
    requires
        is_walk(m, e, p),
        vis(p[0]),
        forall|v: NonNilUuid, w: NonNilUuid|
            vis(v) && #[trigger] m.nbrs(v, e).contains(w) ==> vis(w),
    ensures
        vis(p.last()),
    decreases p.len(),
{
    if p.len() > 1 {
        let q = p.drop_last();
        assert(is_walk(m, e, q)) by {
            assert forall|i: int| 0 <= i < q.len() - 1 implies #[trigger] m.nbrs(q[i], e).contains(
                q[i + 1],
            ) by {
                assert(m.nbrs(p[i], e).contains(p[i + 1]));
            }
        }
        lemma_closed_contains_walk_end(m, e, vis, q);
        let i = p.len() - 2;
        assert(m.nbrs(p[i], e).contains(p[i + 1]));
        assert(p[i + 1] == p.last());
        assert(q.last() == p[i]);
    }
}

/// Visiting the neighbors `ns` in order: each one not yet `seen` is marked
/// seen, stacked and listed.
pub open spec fn visit_all(
    ns: Seq<NonNilUuid>,
    seen: Set<u128>,
    stack: Seq<NonNilUuid>,
    out: Seq<NonNilUuid>,
) -> (Set<u128>, Seq<NonNilUuid>, Seq<NonNilUuid>)
    decreases ns.len(),
{
    if ns.len() == 0 {
        (seen, stack, out)
    } else {
        let r = visit_all(ns.drop_last(), seen, stack, out);
        let w = ns.last();
        if r.0.contains(w@) {
            r
        } else {
            (r.0.insert(w@), r.1.push(w), r.2.push(w))
        }
    }
}

/// The listing order of the traversal: take the most recently stacked
/// entity and visit its neighbors, for at most `fuel` rounds.
pub open spec fn dfs_order(
    m: RawEdgeMap,
    e: EdgeView,
    seen: Set<u128>,
    stack: Seq<NonNilUuid>,
    out: Seq<NonNilUuid>,
    fuel: nat,
) -> Seq<NonNilUuid>
    decreases fuel,
{
    if fuel == 0 || stack.len() == 0 {
        out
    } else {
        let r = visit_all(m.nbrs(stack.last(), e), seen, stack.drop_last(), out);
        dfs_order(m, e, r.0, r.1, r.2, (fuel - 1) as nat)
    }
}

/// The order in which the closure from `start` along `e` lists entities:
/// depth-first, most recently found first, each entity's neighbors in
/// their stored order.  The fuel bounds the rounds by the number of
/// entities, which the traversal never exceeds.
pub open spec fn closure_order(m: RawEdgeMap, e: EdgeView, start: NonNilUuid) -> Seq<NonNilUuid> {
    dfs_order(
        m,
        e,
        Set::empty().insert(start@),
        seq![start],
        Seq::empty(),
        (m.key_set().insert(start@).len() + 1) as nat,
    )
}

/// Depth-first transitive closure from `start` along `edge`.  Returns every
/// reachable entity UUID except `start` itself; cycles are handled with a
/// visited set.
pub(crate) fn transitive_neighbors(edge_map: &RawEdgeMap, start: NonNilUuid, edge: FullEdge) -> (r: Vec<
    NonNilUuid,
>)
    requires
        edge_map.wf(),
    ensures
        is_transitive_closure(*edge_map, edge@, start, r@),
        r@ == closure_order(*edge_map, edge@, start),
{
    let ghost m = *edge_map;
    let ghost e = edge@;
    let ghost universe = m.key_set().insert(start@);
    let ghost fuel0: nat = (universe.len() + 1) as nat;
    let ghost target = closure_order(m, e, start);
    let ghost mut iters: nat = 0;
    proof {
        m.lemma_neighbors_are_keys(start, e, start);
    }
    let mut visited: HashSet<u128> = HashSet::new();
    visited.insert(start.get());
    let mut queue: Vec<NonNilUuid> = Vec::new();
    queue.push(start);
    let mut result: Vec<NonNilUuid> = Vec::new();
    let near_type = edge.near.entity_name;
    proof {
        assert(is_walk(m, e, seq![start]));
        assert(visited@ =~= Set::<u128>::empty().insert(start@));
        assert(queue@[0] == start);
        assert(queue@.contains(start));
    }
    while queue.len() > 0
        invariant
            edge_map.wf(),
            m == *edge_map,
            e == edge@,
            universe == m.key_set().insert(start@),
            universe.finite(),
            visited@.subset_of(universe),
            visited@.finite(),
            forall|v: NonNilUuid| #[trigger]
                visited@.contains(v@) <==> (v == start || result@.contains(v)),
            result@.no_duplicates(),
            !result@.contains(start),
            forall|v: NonNilUuid| #[trigger] result@.contains(v) ==> reachable(m, e, start, v),
            queue@.no_duplicates(),
            forall|v: NonNilUuid| #[trigger] queue@.contains(v) ==> visited@.contains(v@),
            forall|v: NonNilUuid, w: NonNilUuid|
                visited@.contains(v@) && !queue@.contains(v) && #[trigger] m.nbrs(v, e).contains(w)
                    ==> visited@.contains(w@),
            fuel0 == universe.len() + 1,
            iters + queue@.len() == 1 + result@.len(),
            visited@.len() == result@.len() + 1,
            dfs_order(m, e, visited@, queue@, result@, (fuel0 - iters) as nat) == target,
        decreases 2 * (universe.len() - visited@.len()) + queue@.len(),
    {
        proof {
            vstd::set_lib::lemma_len_subset(visited@, universe);
        }
        let ghost q_before = queue@;
        let ghost v_start = visited@;
        let ghost r_start = result@;
        let ghost measure = 2 * (universe.len() - visited@.len()) + queue@.len();
        let curr = queue.pop().unwrap();
        let ghost q_start = queue@;
        let ghost q_after = queue@;
        proof {
            assert(q_before[q_before.len() - 1] == curr);
            assert(q_before.contains(curr));
            assert(visited@.contains(curr@));
            assert(!q_after.contains(curr)) by {
                if q_after.contains(curr) {
                    let k = choose|k: int| 0 <= k < q_after.len() && q_after[k] == curr;
                    assert(q_before[k] == q_before[q_before.len() - 1]);
                }
            }
            assert(q_after =~= q_before.drop_last());
            assert forall|v: NonNilUuid| #[trigger] q_after.contains(v) implies q_before.contains(v) by {
                let k = choose|k: int| 0 <= k < q_after.len() && q_after[k] == v;
                assert(q_before[k] == v);
            }
            assert forall|v: NonNilUuid|
                q_before.contains(v) && v != curr implies #[trigger] q_after.contains(v) by {
                let k = choose|k: int| 0 <= k < q_before.len() && q_before[k] == v;
                assert(k != q_before.len() - 1);
                assert(q_after[k] == v);
            }
        }
        let curr_id = RuntimeEntityId::new_unchecked(curr, near_type);
        let nbrs = edge_map.neighbors(curr_id, edge);
        let mut j: usize = 0;
        while j < nbrs.len()
            invariant
                edge_map.wf(),
                m == *edge_map,
                e == edge@,
                universe == m.key_set().insert(start@),
                universe.finite(),
                visited@.subset_of(universe),
                visited@.finite(),
                visited@.contains(curr@),
                !queue@.contains(curr),
                nbrs@.len() == m.nbrs(curr, e).len(),
                forall|i: int|
                    0 <= i < nbrs@.len() ==> #[trigger] nbrs@[i].spec_uuid() == m.nbrs(curr, e)[i],
                j <= nbrs.len(),
                forall|i: int| 0 <= i < j ==> visited@.contains(#[trigger] m.nbrs(curr, e)[i]@),
                forall|v: NonNilUuid| #[trigger]
                    visited@.contains(v@) <==> (v == start || result@.contains(v)),
                result@.no_duplicates(),
                !result@.contains(start),
                forall|v: NonNilUuid| #[trigger] result@.contains(v) ==> reachable(m, e, start, v),
                reachable(m, e, start, curr) || curr == start,
                queue@.no_duplicates(),
                forall|v: NonNilUuid| #[trigger] queue@.contains(v) ==> visited@.contains(v@),
                forall|v: NonNilUuid, w: NonNilUuid|
                    visited@.contains(v@) && !queue@.contains(v) && v != curr
                        && #[trigger] m.nbrs(v, e).contains(w) ==> visited@.contains(w@),
                2 * (universe.len() - visited@.len()) + queue@.len() < measure,
                (visited@, queue@, result@) == visit_all(
                    m.nbrs(curr, e).take(j as int),
                    v_start,
                    q_start,
                    r_start,
                ),
                visited@.finite(),
                visited@.len() == result@.len() + 1,
                queue@.len() - q_start.len() == result@.len() - r_start.len(),
            decreases nbrs.len() - j,
        {
            let w = nbrs[j].entity_uuid();
            proof {
                assert(m.nbrs(curr, e).contains(w)) by {
                    assert(m.nbrs(curr, e)[j as int] == w);
                }
                m.lemma_neighbors_are_keys(curr, e, w);
            }
            let ghost r_before = result@;
            let ghost v_before = visited@;
            let ghost qu_before = queue@;
            if visited.insert(w.get()) {
                proof {
                    let p = if curr == start {
                        seq![start]
                    } else {
                        choose|p: Seq<NonNilUuid>| #[trigger]
                            is_walk(m, e, p) && p[0] == start && p.last() == curr
                    };
                    assert(is_walk(m, e, p) && p[0] == start && p.last() == curr);
                    let p2 = p.push(w);
                    assert forall|i: int| 0 <= i < p2.len() - 1 implies #[trigger] m.nbrs(
                        p2[i],
                        e,
                    ).contains(p2[i + 1]) by {
                        if i < p.len() - 1 {
                            assert(m.nbrs(p[i], e).contains(p[i + 1]));
                        }
                    }
                    assert(is_walk(m, e, p2) && p2[0] == start && p2.last() == w);
                    vstd::set_lib::lemma_len_subset(visited@, universe);
                }
                result.push(w);
                queue.push(w);
                proof {
                    assert(result@ == r_before.push(w));
                    assert(queue@ == qu_before.push(w));
                    assert(result@[r_before.len() as int] == w);
                    assert(queue@[qu_before.len() as int] == w);
                    assert forall|v: NonNilUuid| #[trigger] result@.contains(v) <==> (r_before.contains(v) || v == w) by {
                        if result@.contains(v) && v != w {
                            let k = choose|k: int| 0 <= k < result@.len() && result@[k] == v;
                            assert(r_before[k] == v);
                        }
                        if r_before.contains(v) {
                            let k = choose|k: int| 0 <= k < r_before.len() && r_before[k] == v;
                            assert(result@[k] == v);
                        }
                    }
                    assert forall|v: NonNilUuid| #[trigger] queue@.contains(v) <==> (qu_before.contains(v) || v == w) by {
                        if queue@.contains(v) && v != w {
                            let k = choose|k: int| 0 <= k < queue@.len() && queue@[k] == v;
                            assert(qu_before[k] == v);
                        }
                        if qu_before.contains(v) {
                            let k = choose|k: int| 0 <= k < qu_before.len() && qu_before[k] == v;
                            assert(queue@[k] == v);
                        }
                    }
                    assert(!r_before.contains(w));
                    assert(!qu_before.contains(w));
                    assert(w != start);
                    assert forall|v: NonNilUuid| #[trigger] visited@.contains(v@) <==> (v == start || result@.contains(v)) by {
                        assert(visited@ == v_before.insert(w@));
                    }
                }
            }
            proof {
                let ns = m.nbrs(curr, e);
                assert(ns.take(j as int + 1).drop_last() =~= ns.take(j as int));
                assert(ns.take(j as int + 1).last() == w);
                if v_before.contains(w@) {
                    assert(visited@ =~= v_before);
                }
            }
            j = j + 1;
        }
        proof {
            vstd::set_lib::lemma_len_subset(visited@, universe);
            assert forall|w: NonNilUuid| #[trigger] m.nbrs(curr, e).contains(w) implies visited@.contains(
                w@,
            ) by {
                let k = choose|k: int| 0 <= k < m.nbrs(curr, e).len() && m.nbrs(curr, e)[k] == w;
            }
            assert(m.nbrs(curr, e).take(nbrs@.len() as int) =~= m.nbrs(curr, e));
            vstd::set_lib::lemma_len_subset(v_start, universe);
            assert(q_before.last() == curr);
            assert(q_before.drop_last() == q_start);
            assert(fuel0 - iters > 0);
            iters = iters + 1;
        }
    }
    proof {
        assert forall|v: NonNilUuid| #[trigger] result@.contains(v) <==> (v != start && reachable(
            m,
            e,
            start,
            v,
        )) by {
            if v != start && reachable(m, e, start, v) {
                let p = choose|p: Seq<NonNilUuid>| #[trigger]
                    is_walk(m, e, p) && p[0] == start && p.last() == v;
                let vis = |x: NonNilUuid| visited@.contains(x@);
                lemma_closed_contains_walk_end(m, e, vis, p);
            }
        }
    }
    result
}

/// Cached transitive-edge relationships.
///
/// Entries are keyed by the starting entity and the edge followed (forward
/// and reverse traversals use different edge orientations).  Entries are
/// filled lazily and stay until the cache is dropped, even when the edge map
/// changes in between.
#[derive(Debug)]
pub struct TransitiveEdgeCache {
    cache: HashMap<u128, Vec<EdgeSlot>>,
}

impl TransitiveEdgeCache {
    /// The closure stored for `start` along edge `e`, if there is one.
    pub closed spec fn cached(&self, start: NonNilUuid, e: EdgeView) -> Option<Seq<NonNilUuid>> {
        if self.cache@.contains_key(start@) && slot_has(self.cache@[start@]@, e) {
            Some(slot_list(self.cache@[start@]@, e))
        } else {
            None
        }
    }

    /// Well-formedness: at most one entry per start entity and edge.
    pub closed spec fn wf(&self) -> bool {
        forall|k: u128| #[trigger] self.cache@.contains_key(k) ==> slots_distinct(self.cache@[k]@)
    }

    /// An empty cache.
    pub fn new() -> (r: TransitiveEdgeCache)
        ensures
            r.wf(),
            forall|u: NonNilUuid, e: EdgeView| r.cached(u, e) is None,
    {
        TransitiveEdgeCache { cache: HashMap::new() }
    }

    /// Return all UUIDs transitively reachable from `start` by following `edge`.
    ///
    /// The `start` node itself is **not** included in the result.  Computed
    /// and cached on first call; later calls return the cached list, even if
    /// the edge map has changed since.
    pub fn get_or_compute<T: DynamicEntityId>(
        &mut self,
        edge_map: &RawEdgeMap,
        start: T,
        edge: FullEdge,
    ) -> (r: Vec<NonNilUuid>)
        requires
            old(self).wf(),
            edge_map.wf(),
        ensures
            final(self).wf(),
            match old(self).cached(start.spec_uuid(), edge@) {
                Some(s) => {
                    &&& r@ == s
                    &&& forall|u: NonNilUuid, f: EdgeView| #[trigger]
                        final(self).cached(u, f) == old(self).cached(u, f)
                },
                None => {
                    &&& is_transitive_closure(*edge_map, edge@, start.spec_uuid(), r@)
                    &&& r@ == closure_order(*edge_map, edge@, start.spec_uuid())
                    &&& forall|u: NonNilUuid, f: EdgeView| #[trigger]
                        final(self).cached(u, f) == if u == start.spec_uuid() && f == edge@ {
                            Some(r@)
                        } else {
                            old(self).cached(u, f)
                        }
                },
            },
    {
        let start_uuid = start.entity_uuid();
        let k = start_uuid.get();
        let ghost old_map = self.cache@;
        match self.cache.get(&k) {
            Some(slots) => {
                match find_slot(slots, &edge) {
                    Some(i) => {
                        proof {
                            assert(slots_distinct(slots@));
                            lemma_slot_list_at(slots@, i as int);
                        }
                        return copy_uuids(&slots[i].targets);
                    },
                    None => {},
                }
            },
            None => {},
        }
        let reachable = transitive_neighbors(edge_map, start_uuid, edge);
        let stored = copy_uuids(&reachable);
        let mut slots = match self.cache.remove(&k) {
            Some(s) => s,
            None => Vec::new(),
        };
        let ghost old_slots = slots@;
        assert(slots_distinct(old_slots));
        assert(!slot_has(old_slots, edge@));
        let ns = EdgeSlot { edge: edge, targets: stored };
        proof {
            lemma_slot_list_push(old_slots, ns);
            assert forall|f: EdgeView|
                #[trigger] slot_has(old_slots.push(ns), f) == (f == edge@ || slot_has(old_slots, f))
                by {
                if slot_has(old_slots, f) {
                    let j = choose|j: int| 0 <= j < old_slots.len() && old_slots[j].edge@ == f;
                    assert(old_slots.push(ns)[j].edge@ == f);
                }
                if f == edge@ {
                    assert(old_slots.push(ns)[old_slots.len() as int].edge@ == f);
                }
            }
        }
        slots.push(ns);
        self.cache.insert(k, slots);
        proof {
            assert forall|u: NonNilUuid, f: EdgeView| #[trigger]
                self.cached(u, f) == if u == start_uuid && f == edge@ {
                    Some(reachable@)
                } else {
                    old(self).cached(u, f)
                } by {
                if u@ == k {
                    assert(u == start_uuid);
                    if !old_map.contains_key(k) {
                        assert(old_slots =~= Seq::<EdgeSlot>::empty());
                        assert(!slot_has(old_slots, f));
                    }
                }
            }
        }
        reachable
    }
}

impl Default for TransitiveEdgeCache {
    fn default() -> (r: TransitiveEdgeCache)
        ensures
            r.wf(),
            forall|u: NonNilUuid, e: EdgeView| r.cached(u, e) is None,
    {
        TransitiveEdgeCache::new()
    }
}

} // verus!
