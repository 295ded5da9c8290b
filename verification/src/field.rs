//! Field metadata shared by every descriptor, and the `entity_type:field_name`
//! key that identifies a field across the whole schedule.

use vstd::prelude::*;
use crate::text::{lowercase, str_eq, to_lowercase};
use crate::value::FieldType;

verus! {

/// Identity of a field: the entity type it belongs to and its canonical name.
///
/// Two descriptors denote the same field exactly when their keys agree.
#[derive(Debug, Clone, Copy)]
pub struct FieldKey {
    /// `TYPE_NAME` of the entity type that owns the field.
    pub entity_type: &'static str,
    /// Canonical field name.
    pub name: &'static str,
}

impl View for FieldKey {
    type V = (Seq<char>, Seq<char>);

    open spec fn view(&self) -> (Seq<char>, Seq<char>) {
        (self.entity_type@, self.name@)
    }
}

impl FieldKey {
    /// Returns `true` when both keys name the same field of the same entity type.
    pub fn same_as(&self, other: &FieldKey) -> (r: bool)
        ensures
            r == (self@ == other@),
    {
        str_eq(self.entity_type, other.entity_type) && str_eq(self.name, other.name)
    }
}

/// Generic field data shared by all field descriptors.
#[derive(Debug, Clone, Copy)]
pub struct CommonFieldData {
    /// Canonical field name (snake_case).
    pub name: &'static str,
    /// Human-readable display name.
    pub display: &'static str,
    /// Short description of the field's purpose.
    pub description: &'static str,
    /// Alternative names accepted during lookup.
    pub aliases: &'static [&'static str],
    /// Logical field type (value type and cardinality).
    pub field_type: FieldType,
    /// Example value for documentation and UI hints.
    pub example: &'static str,
    /// Display/iteration order (lower values first).
    pub order: u32,
}

/// `query` equals `name` or one of `aliases`, ignoring case.
pub open spec fn name_matches(name: Seq<char>, aliases: Seq<&'static str>, query: Seq<char>) -> bool {
    lowercase(name) == lowercase(query) || exists|i: int|
        0 <= i < aliases.len() && lowercase(#[trigger] aliases[i]@) == lowercase(query)
}

impl CommonFieldData {
    /// Returns `true` if `query` matches the canonical name or any alias
    /// (case-insensitive).
    pub fn matches_name(&self, query: &str) -> (r: bool)
        ensures
            r == name_matches(self.name@, self.aliases@, query@),
    {
        let q = to_lowercase(query);
        if str_eq(to_lowercase(self.name).as_str(), q.as_str()) {
            return true;
        }
        let mut i: usize = 0;
        while i < self.aliases.len()
            invariant
                i <= self.aliases@.len(),
                q@ == lowercase(query@),
                lowercase(self.name@) != lowercase(query@),
                forall|j: int| 0 <= j < i ==> lowercase(#[trigger] self.aliases@[j]@) != q@,
            decreases self.aliases@.len() - i,
        {
            if str_eq(to_lowercase(self.aliases[i]).as_str(), q.as_str()) {
                return true;
            }
            i = i + 1;
        }
        false
    }
}

} // verus!
