//! Cache of transitive closures along homogeneous edges (same entity type on
//! both ends), such as "all groups a presenter belongs to" or "all members
//! of a group, nested groups included".
//!
//! Two directions are cached independently, each keyed by the start entity:
//! forward (member to group) and reverse (group to member).  Entries are
//! computed on first use and kept until the cache is dropped.

use vstd::prelude::*;
use std::collections::HashMap;
use crate::edge::cache::{closure_order, is_transitive_closure, transitive_neighbors};
use crate::edge::id::FullEdge;
use crate::edge::map::RawEdgeMap;
use crate::ids::{NonNilUuid, lemma_uuid_view_injective};

verus! {

broadcast use vstd::std_specs::hash::group_hash_axioms, lemma_uuid_view_injective;

/// Cached transitive homogeneous-edge relationships.
#[derive(Debug)]
pub struct HomoEdgeCache {
    inclusive_forward: HashMap<u128, Vec<NonNilUuid>>,
    inclusive_reverse: HashMap<u128, Vec<NonNilUuid>>,
}

fn copy_uuids(v: &Vec<NonNilUuid>) -> (r: Vec<NonNilUuid>)
    ensures
        r@ == v@,
{
    let mut r: Vec<NonNilUuid> = Vec::new();
    let mut i: usize = 0;
    while i < v.len()
        invariant
            i <= v.len(),
            r@ == v@.take(i as int),
        decreases v.len() - i,
    {
        r.push(v[i]);
        i = i + 1;
        assert(r@ =~= v@.take(i as int));
    }
    assert(v@.take(v.len() as int) =~= v@);
    r
}

/// The entry of `m` for `start`, if any.
pub open spec fn entry_of(m: Map<u128, Vec<NonNilUuid>>, start: NonNilUuid) -> Option<Seq<NonNilUuid>> {
    if m.contains_key(start@) {
        Some(m[start@]@)
    } else {
        None
    }
}

impl HomoEdgeCache {
    /// The forward closure cached for `start`, if any.
    pub closed spec fn forward(&self, start: NonNilUuid) -> Option<Seq<NonNilUuid>> {
        entry_of(self.inclusive_forward@, start)
    }

    /// The reverse closure cached for `start`, if any.
    pub closed spec fn reverse(&self, start: NonNilUuid) -> Option<Seq<NonNilUuid>> {
        entry_of(self.inclusive_reverse@, start)
    }

    /// An empty cache.
    pub fn new() -> (r: HomoEdgeCache)
        ensures
            forall|u: NonNilUuid| r.forward(u) is None && r.reverse(u) is None,
    {
        HomoEdgeCache { inclusive_forward: HashMap::new(), inclusive_reverse: HashMap::new() }
    }

    /// All UUIDs transitively reachable from `start` by following
    /// `forward_field` (e.g. member to group), `start` excluded.  Computed
    /// and cached on first call; later calls return the cached list.
    pub fn get_or_compute_forward(
        &mut self,
        edge_map: &RawEdgeMap,
        start: NonNilUuid,
        forward_field: FullEdge,
    ) -> (r: Vec<NonNilUuid>)
        requires
            edge_map.wf(),
        ensures
            forall|u: NonNilUuid| #[trigger] final(self).reverse(u) == old(self).reverse(u),
            match old(self).forward(start) {
                Some(s) => {
                    &&& r@ == s
                    &&& forall|u: NonNilUuid| #[trigger] final(self).forward(u) == old(self).forward(u)
                },
                None => {
                    &&& is_transitive_closure(*edge_map, forward_field@, start, r@)
                    &&& r@ == closure_order(*edge_map, forward_field@, start)
                    &&& forall|u: NonNilUuid| #[trigger] final(self).forward(u) == if u == start {
                        Some(r@)
                    } else {
                        old(self).forward(u)
                    }
                },
            },
    {
        let key = start.get();
        match self.inclusive_forward.get(&key) {
            Some(v) => copy_uuids(v),
            None => {
                let r = transitive_neighbors(edge_map, start, forward_field);
                self.inclusive_forward.insert(key, copy_uuids(&r));
                r
            },
        }
    }

    /// All UUIDs transitively reachable from `start` by following
    /// `reverse_field` (e.g. group to member), `start` excluded.  Computed
    /// and cached on first call; later calls return the cached list.
    pub fn get_or_compute_reverse(
        &mut self,
        edge_map: &RawEdgeMap,
        start: NonNilUuid,
        reverse_field: FullEdge,
    ) -> (r: Vec<NonNilUuid>)
        requires
            edge_map.wf(),
        ensures
            forall|u: NonNilUuid| #[trigger] final(self).forward(u) == old(self).forward(u),
            match old(self).reverse(start) {
                Some(s) => {
                    &&& r@ == s
                    &&& forall|u: NonNilUuid| #[trigger] final(self).reverse(u) == old(self).reverse(u)
                },
                None => {
                    &&& is_transitive_closure(*edge_map, reverse_field@, start, r@)
                    &&& r@ == closure_order(*edge_map, reverse_field@, start)
                    &&& forall|u: NonNilUuid| #[trigger] final(self).reverse(u) == if u == start {
                        Some(r@)
                    } else {
                        old(self).reverse(u)
                    }
                },
            },
    {
        let key = start.get();
        match self.inclusive_reverse.get(&key) {
            Some(v) => copy_uuids(v),
            None => {
                let r = transitive_neighbors(edge_map, start, reverse_field);
                self.inclusive_reverse.insert(key, copy_uuids(&r));
                r
            },
        }
    }
}

impl Default for HomoEdgeCache {
    fn default() -> (r: HomoEdgeCache)
        ensures
            forall|u: NonNilUuid| r.forward(u) is None && r.reverse(u) is None,
    {
        HomoEdgeCache::new()
    }
}

} // verus!
