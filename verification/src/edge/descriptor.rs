//! Half-edge descriptors and their ownership kind.

use vstd::prelude::*;
use vstd::string::*;
use crate::field::{CommonFieldData, FieldKey};

verus! {

/// Ownership and relationship info for a half-edge field.
///
/// Other half-edges are referred to by their [`FieldKey`].
#[derive(Debug, Clone, Copy)]
pub enum EdgeKind {
    /// Non-owner (lookup/inverse) side of an edge relationship.
    ///
    /// `source_fields` lists the owner-side fields whose `target_field` is
    /// this field; it may be empty when no sources are known.
    Target {
        /// Owner-side fields whose `target_field` is this field.
        source_fields: &'static [FieldKey],
    },
    /// CRDT-canonical owner side of an edge relationship.
    Owner {
        /// Inverse/lookup field on the target entity.
        target_field: FieldKey,
        /// Sibling field on the same entity that is mutually exclusive with
        /// this one (e.g. credited vs uncredited presenter lists).
        exclusive_with: Option<FieldKey>,
    },
}

impl EdgeKind {
    /// Returns `true` if this is the owning side of an edge.
    pub fn is_owner(&self) -> (r: bool)
        ensures
            r == (self is Owner),
    {
        match self {
            EdgeKind::Owner { .. } => true,
            EdgeKind::Target { .. } => false,
        }
    }

    /// Returns the target field if this is an owner, or `None` for targets.
    pub fn target_field(&self) -> (r: Option<FieldKey>)
        ensures
            r == (match *self {
                EdgeKind::Owner { target_field, .. } => Some(target_field),
                EdgeKind::Target { .. } => None,
            }),
    {
        match self {
            EdgeKind::Owner { target_field, .. } => Some(*target_field),
            EdgeKind::Target { .. } => None,
        }
    }

    /// Returns the source fields if this is a target, or `None` for owners.
    pub fn source_fields(&self) -> (r: Option<&'static [FieldKey]>)
        ensures
            r == (match *self {
                EdgeKind::Target { source_fields } => Some(source_fields),
                EdgeKind::Owner { .. } => None,
            }),
    {
        match self {
            EdgeKind::Target { source_fields } => Some(*source_fields),
            EdgeKind::Owner { .. } => None,
        }
    }
}

/// Two kinds are equal when both are targets, or both are owners of the same
/// target field.
pub open spec fn edge_kind_eq(a: EdgeKind, b: EdgeKind) -> bool {
    match (a, b) {
        (EdgeKind::Target { .. }, EdgeKind::Target { .. }) => true,
        (EdgeKind::Owner { target_field: x, .. }, EdgeKind::Owner { target_field: y, .. }) => x@
            == y@,
        _ => false,
    }
}

impl PartialEq for EdgeKind {
    fn eq(&self, other: &Self) -> (r: bool) {
        match (self, other) {
            (EdgeKind::Target { .. }, EdgeKind::Target { .. }) => true,
            (
                EdgeKind::Owner { target_field: a, .. },
                EdgeKind::Owner { target_field: b, .. },
            ) => a.same_as(b),
            _ => false,
        }
    }
}

impl vstd::std_specs::cmp::PartialEqSpecImpl for EdgeKind {
    open spec fn obeys_eq_spec() -> bool {
        true
    }

    open spec fn eq_spec(&self, other: &Self) -> bool {
        edge_kind_eq(*self, *other)
    }
}

impl Eq for EdgeKind {}

/// The compact `"entity_type:field_name"` key text of a half-edge.
pub open spec fn key_text(h: HalfEdgeDescriptor) -> Seq<char> {
    h.entity_name@ + ":"@ + h.data.name@
}

/// Half-edge field descriptor: one per edge field on an entity type.
#[derive(Debug, Clone, Copy)]
pub struct HalfEdgeDescriptor {
    /// Name, display text, aliases, type and order of the field.
    pub data: CommonFieldData,
    /// Owner or target side, with the related fields.
    pub edge_kind: EdgeKind,
    /// `TYPE_NAME` of the entity type this field belongs to.
    pub entity_name: &'static str,
}

impl HalfEdgeDescriptor {
    /// The key identifying this field.
    pub open spec fn spec_key(&self) -> FieldKey {
        FieldKey { entity_type: self.entity_name, name: self.data.name }
    }

    /// Canonical field name.
    pub fn name(&self) -> (r: &'static str)
        ensures
            r == self.data.name,
    {
        self.data.name
    }

    /// `TYPE_NAME` of the entity type this field belongs to.
    pub fn entity_type_name(&self) -> (r: &'static str)
        ensures
            r == self.entity_name,
    {
        self.entity_name
    }

    /// The `entity_type:field_name` key identifying this field.
    pub fn key(&self) -> (r: FieldKey)
        ensures
            r == self.spec_key(),
    {
        FieldKey { entity_type: self.entity_name, name: self.data.name }
    }

    /// The compact `"entity_type:field_name"` key text.
    pub fn field_key(&self) -> (r: String)
        ensures
            r@ == key_text(*self),
    {
        let mut s = String::from_str(self.entity_name);
        s.append(":");
        s.append(self.data.name);
        s
    }

    /// Get the full edge connecting this field to another field.
    pub fn edge_to(&self, far: &HalfEdgeDescriptor) -> (r: crate::edge::id::FullEdge)
        ensures
            r.near == *self,
            r.far == *far,
    {
        crate::edge::id::FullEdge { near: *self, far: *far }
    }
}

} // verus!
