//! Field value typing: cardinality, item type, CRDT storage kind, and
//! validation errors reported by entity types.

use vstd::prelude::*;

verus! {

/// How many values a field holds.
#[derive(Debug, Clone, Copy, PartialEq, Eq)]
pub enum FieldCardinality {
    /// Exactly one value.
    Single,
    /// Zero or one value.
    Optional,
    /// Any number of values.
    List,
}

/// The type of each value a field holds.
#[derive(Debug, Clone, Copy, PartialEq, Eq)]
pub enum FieldTypeItem {
    /// Short single-line string.
    String,
    /// Free-form text.
    Text,
    /// Signed integer.
    Integer,
    /// Reference to an entity of the named type.
    EntityIdentifier(&'static str),
}

/// Logical field type: cardinality plus item type.
#[derive(Debug, Clone, Copy, PartialEq, Eq)]
pub struct FieldType(pub FieldCardinality, pub FieldTypeItem);

/// How a field is backed in the CRDT document.
#[derive(Debug, Clone, Copy, PartialEq, Eq)]
pub enum CrdtFieldType {
    /// A single last-writer-wins scalar.
    Scalar,
    /// A collaborative text object.
    Text,
    /// A list object.
    List,
    /// Computed from other data; not stored.
    Derived,
}

/// A constraint violation reported by entity validation.
#[derive(Debug, Clone, Copy, PartialEq, Eq)]
pub enum ValidationError {
    /// A required field is empty.
    Required { field: &'static str },
}

} // verus!
