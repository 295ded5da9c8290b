//! Full edges: a near and a far half-edge.

use vstd::prelude::*;
use vstd::string::*;
use crate::edge::descriptor::{HalfEdgeDescriptor, key_text};
use crate::ids::DynamicEntityId;
use crate::text::str_eq;

verus! {

/// Abstract identity of a field: `(entity type, field name)`.
pub type FieldKeyView = (Seq<char>, Seq<char>);

/// Abstract identity of an edge: `(near field, far field)`.
pub type EdgeView = (FieldKeyView, FieldKeyView);

/// The same edge traversed in the opposite direction.
pub open spec fn flip_view(e: EdgeView) -> EdgeView {
    (e.1, e.0)
}

/// A complete edge with both near and far half-edges.
///
/// The `near` half-edge is the starting side; the `far` half-edge is the
/// opposite side.  Two edges are the same edge when their near and far
/// field keys agree.
#[derive(Debug, Clone, Copy)]
pub struct FullEdge {
    /// The near half-edge (the starting side of the edge).
    pub near: HalfEdgeDescriptor,
    /// The far half-edge (the opposite side of the edge).
    pub far: HalfEdgeDescriptor,
}

impl View for FullEdge {
    type V = EdgeView;

    open spec fn view(&self) -> EdgeView {
        (self.near.spec_key()@, self.far.spec_key()@)
    }
}

impl FullEdge {
    /// Check if a dynamic entity ID is a valid near node for this edge:
    /// its type matches the near half-edge's entity type.
    pub fn is_valid_near<T: DynamicEntityId>(&self, entity: T) -> (r: bool)
        ensures
            r == (entity.spec_type_name()@ == self.near.entity_name@),
    {
        str_eq(entity.entity_type_name(), self.near.entity_name)
    }

    /// Check if a dynamic entity ID is a valid far node for this edge:
    /// its type matches the far half-edge's entity type.
    pub fn is_valid_far<T: DynamicEntityId>(&self, entity: T) -> (r: bool)
        ensures
            r == (entity.spec_type_name()@ == self.far.entity_name@),
    {
        str_eq(entity.entity_type_name(), self.far.entity_name)
    }

    /// Check if an entity type name is a valid near node type for this edge.
    pub fn is_valid_near_type(&self, entity_type: &str) -> (r: bool)
        ensures
            r == (entity_type@ == self.near.entity_name@),
    {
        str_eq(entity_type, self.near.entity_name)
    }

    /// Check if an entity type name is a valid far node type for this edge.
    pub fn is_valid_far_type(&self, entity_type: &str) -> (r: bool)
        ensures
            r == (entity_type@ == self.far.entity_name@),
    {
        str_eq(entity_type, self.far.entity_name)
    }

    /// Check if the edge connects the same entity type on both sides.
    pub fn is_homogeneous(&self) -> (r: bool)
        ensures
            r == (self.near.entity_name@ == self.far.entity_name@),
    {
        str_eq(self.near.entity_name, self.far.entity_name)
    }

    /// Flip the edge, swapping near and far.
    pub fn flip(&self) -> (r: FullEdge)
        ensures
            r.near == self.far,
            r.far == self.near,
            r@ == flip_view(self@),
    {
        FullEdge { near: self.far, far: self.near }
    }

    /// Returns `true` when both edges join the same two fields in the same direction.
    pub fn same_edge(&self, other: &FullEdge) -> (r: bool)
        ensures
            r == (self@ == other@),
    {
        self.near.key().same_as(&other.near.key()) && self.far.key().same_as(&other.far.key())
    }
}

impl PartialEq for FullEdge {
    fn eq(&self, other: &Self) -> (r: bool) {
        self.same_edge(other)
    }
}

impl vstd::std_specs::cmp::PartialEqSpecImpl for FullEdge {
    open spec fn obeys_eq_spec() -> bool {
        true
    }

    open spec fn eq_spec(&self, other: &Self) -> bool {
        self@ == other@
    }
}

impl Eq for FullEdge {}

/// Serializable form of a [`FullEdge`]: the owner half-edge's
/// `"entity_type:field_name"` key and which side of the edge is near.
///
/// Every valid edge has exactly one owner half-edge, so these two fields
/// identify the edge even when a target half-edge is shared by several
/// owners.
#[derive(Debug, Clone)]
pub struct FullEdgeProxy {
    /// `"entity_type:field_name"` of the owner half-edge.
    pub owner_field: String,
    /// `true` if `near` is the owner side; `false` if `near` is the target side.
    pub near_is_owner: bool,
}

/// The proxy fields of an edge: the key text of its owner side (the near
/// side when that is an owner, the far side otherwise) and which side is near.
pub open spec fn proxy_of(e: FullEdge) -> (Seq<char>, bool) {
    if e.near.edge_kind is Owner {
        (key_text(e.near), true)
    } else {
        (key_text(e.far), false)
    }
}

/// `k` is the first registered owner edge whose owner key text is `key`.
pub open spec fn first_owner_edge(owners: Seq<FullEdge>, key: Seq<char>, k: int) -> bool {
    0 <= k < owners.len() && key_text(owners[k].near) == key && forall|j: int|
        0 <= j < k ==> key_text(owners[j].near) != key
}

impl FullEdgeProxy {
    /// The proxy of an edge.
    pub fn from_edge(edge: &FullEdge) -> (r: FullEdgeProxy)
        ensures
            (r.owner_field@, r.near_is_owner) == proxy_of(*edge),
    {
        if edge.near.edge_kind.is_owner() {
            FullEdgeProxy { owner_field: edge.near.field_key(), near_is_owner: true }
        } else {
            FullEdgeProxy { owner_field: edge.far.field_key(), near_is_owner: false }
        }
    }
}

impl FullEdge {
    /// Rebuild an edge from its proxy, using the registered owner-side edges
    /// (each with its owner half-edge as near): the first one whose owner key
    /// matches is the edge, flipped when the proxy's near side is the target.
    pub fn try_from_proxy(proxy: &FullEdgeProxy, owner_edges: &[FullEdge]) -> (r: Result<
        FullEdge,
        String,
    >)
        ensures
            match r {
                Ok(e) => exists|k: int|
                    first_owner_edge(owner_edges@, proxy.owner_field@, k) && e == if proxy.near_is_owner {
                        owner_edges@[k]
                    } else {
                        owner_edges@[k].flip_spec()
                    },
                Err(msg) => (forall|k: int|
                    0 <= k < owner_edges@.len() ==> key_text(#[trigger] owner_edges@[k].near)
                        != proxy.owner_field@) && msg@ == "Unknown owner edge: "@
                    + proxy.owner_field@,
            },
    {
        let mut k: usize = 0;
        while k < owner_edges.len()
            invariant
                k <= owner_edges@.len(),
                forall|j: int|
                    0 <= j < k ==> key_text(#[trigger] owner_edges@[j].near) != proxy.owner_field@,
            decreases owner_edges@.len() - k,
        {
            let key = owner_edges[k].near.field_key();
            if str_eq(key.as_str(), proxy.owner_field.as_str()) {
                assert(first_owner_edge(owner_edges@, proxy.owner_field@, k as int));
                let canonical = owner_edges[k];
                if proxy.near_is_owner {
                    return Ok(canonical);
                } else {
                    return Ok(canonical.flip());
                }
            }
            k = k + 1;
        }
        let mut msg = String::from_str("Unknown owner edge: ");
        msg.append(proxy.owner_field.as_str());
        Err(msg)
    }

    /// The edge with near and far swapped.
    pub open spec fn flip_spec(self) -> FullEdge {
        FullEdge { near: self.far, far: self.near }
    }
}

/// An owner-side edge and its flip both survive the trip through their
/// proxy, as long as the edge is the first registered one with its owner
/// key and its far side is a target.
pub proof fn lemma_proxy_round_trip(owners: Seq<FullEdge>, k: int)
    requires
        first_owner_edge(owners, key_text(owners[k].near), k),
        owners[k].near.edge_kind is Owner,
        owners[k].far.edge_kind is Target,
    ensures
        proxy_of(owners[k]) == (key_text(owners[k].near), true),
        proxy_of(owners[k].flip_spec()) == (key_text(owners[k].near), false),
        forall|k2: int| first_owner_edge(owners, key_text(owners[k].near), k2) ==> k2 == k,
{
    let key = key_text(owners[k].near);
    assert forall|k2: int| first_owner_edge(owners, key, k2) implies k2 == k by {
        if k2 < k {
            assert(key_text(owners[k2].near) == key);
        }
        if k2 > k {
            assert(key_text(owners[k].near) == key);
        }
    }
}

/// Flipping an edge twice gives back the same edge.
pub proof fn lemma_flip_involutive(e: FullEdge)
    ensures
        flip_view(flip_view(e@)) == e@,
{
}

} // verus!
