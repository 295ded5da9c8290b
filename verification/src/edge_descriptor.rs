//! [`EdgeDescriptor`]: first-class description of an entity relationship.
//!
//! Every edge has two field endpoints: `owner_field`, the field on the
//! entity that owns the relationship's CRDT list, and `target_field`, the
//! matching field on the other endpoint.  Fields are identified by their
//! entity type name and field name.

use vstd::prelude::*;
use crate::field::FieldKey;
use crate::text::str_eq;

verus! {

/// Default value for a per-edge field, used when no explicit value has been
/// written for an edge's metadata entry.
#[derive(Debug, Clone, Copy, PartialEq)]
pub enum EdgeFieldDefault {
    /// A boolean default (e.g. `credited = true` means credited by default).
    Boolean(bool),
}

/// Specification for a single per-edge data field.
#[derive(Debug, Clone, Copy, PartialEq)]
pub struct EdgeFieldSpec {
    /// Name of this per-edge property (e.g. `"credited"`).
    pub name: &'static str,
    /// Value used when no explicit entry has been written for this edge.
    pub default: EdgeFieldDefault,
}

/// Describes one entity relationship: its two field endpoints and its
/// per-edge data fields.
#[derive(Debug, Clone, Copy)]
pub struct EdgeDescriptor {
    /// Unique human-readable name for this relationship (e.g. `"panel_presenters"`).
    pub name: &'static str,
    /// Field on the owner side; its name is the CRDT list field name.
    pub owner_field: FieldKey,
    /// Field on the inverse (non-owner) side.
    pub target_field: FieldKey,
    /// Per-edge data fields carried by this relationship (empty for pure
    /// membership edges).
    pub fields: &'static [EdgeFieldSpec],
}

impl EdgeDescriptor {
    /// Entity type name of the owner side.
    pub fn owning_type(&self) -> (r: &'static str)
        ensures
            r == self.owner_field.entity_type,
    {
        self.owner_field.entity_type
    }

    /// Entity type name of the non-owner side.
    pub fn target_type(&self) -> (r: &'static str)
        ensures
            r == self.target_field.entity_type,
    {
        self.target_field.entity_type
    }

    /// Name of the CRDT list field on the owner entity.
    pub fn owning_field(&self) -> (r: &'static str)
        ensures
            r == self.owner_field.name,
    {
        self.owner_field.name
    }

    /// `true` when both sides share the same entity type name.
    pub fn is_homogeneous(&self) -> (r: bool)
        ensures
            r == (self.owner_field.entity_type@ == self.target_field.entity_type@),
    {
        str_eq(self.owner_field.entity_type, self.target_field.entity_type)
    }

    /// Returns the far field given a near field: the target field when
    /// `near` is the owner field, the owner field when `near` is the target
    /// field, and `None` otherwise.  Fields are compared by name and entity
    /// type name.
    pub fn far_field(&self, near: FieldKey) -> (r: Option<FieldKey>)
        ensures
            r == if near@ == self.owner_field@ {
                Some(self.target_field)
            } else if near@ == self.target_field@ {
                Some(self.owner_field)
            } else {
                None::<FieldKey>
            },
    {
        if near.same_as(&self.owner_field) {
            Some(self.target_field)
        } else if near.same_as(&self.target_field) {
            Some(self.owner_field)
        } else {
            None
        }
    }
}

} // verus!
