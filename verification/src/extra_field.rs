//! Declared-but-lightweight extra data columns.
//!
//! An [`ExtraFieldDescriptor`] names a user-editable data column that has no
//! struct member of its own; its values live in the CRDT `__extra` map.  When
//! a column earns a full field descriptor, its extra descriptor is removed.

use vstd::prelude::*;
use crate::text::{lowercase, str_eq, to_lowercase};

verus! {

/// A declared-but-lightweight extra data column.
#[derive(Debug, Clone, Copy)]
pub struct ExtraFieldDescriptor {
    /// Canonical key used in the CRDT `__extra` map.
    pub name: &'static str,
    /// Human-readable label for the editor UI.
    pub display: &'static str,
    /// Short description shown in tool-tips or help text.
    pub description: &'static str,
    /// Alternative column names accepted during XLSX import (case-insensitive).
    pub aliases: &'static [&'static str],
    /// `TYPE_NAME` of the entity type this applies to (e.g. `"panel"`), or
    /// `""` to apply to any entity type.
    pub entity_type: &'static str,
}

/// `d` applies to entity type `t`: it names no type, or names `t`.
pub open spec fn applies_to(d: ExtraFieldDescriptor, t: Seq<char>) -> bool {
    d.entity_type@.len() == 0 || d.entity_type@ == t
}

/// `d`'s name or one of its aliases equals `column` ignoring case.
pub open spec fn names_column(d: ExtraFieldDescriptor, column: Seq<char>) -> bool {
    lowercase(d.name@) == lowercase(column) || exists|i: int|
        0 <= i < d.aliases@.len() && lowercase(#[trigger] d.aliases@[i]@) == lowercase(column)
}

/// Whether `d` is a match for `column` on entity type `t`.
pub open spec fn extra_matches(d: ExtraFieldDescriptor, column: Seq<char>, t: Seq<char>) -> bool {
    applies_to(d, t) && names_column(d, column)
}

/// The first descriptor of `ds` that matches `column` on entity type `t`.
pub open spec fn first_extra(
    ds: Seq<ExtraFieldDescriptor>,
    column: Seq<char>,
    t: Seq<char>,
) -> Option<ExtraFieldDescriptor>
    decreases ds.len(),
{
    if ds.len() == 0 {
        None
    } else if extra_matches(ds[0], column, t) {
        Some(ds[0])
    } else {
        first_extra(ds.drop_first(), column, t)
    }
}

fn alias_matches(aliases: &'static [&'static str], col_lower: &String) -> (r: bool)
    ensures
        r == exists|i: int|
            0 <= i < aliases@.len() && lowercase(#[trigger] aliases@[i]@) == col_lower@,
{
    let mut i: usize = 0;
    while i < aliases.len()
        invariant
            i <= aliases@.len(),
            forall|j: int| 0 <= j < i ==> lowercase(#[trigger] aliases@[j]@) != col_lower@,
        decreases aliases@.len() - i,
    {
        let a = to_lowercase(aliases[i]);
        if str_eq(a.as_str(), col_lower.as_str()) {
            return true;
        }
        i = i + 1;
    }
    false
}

/// Look up an extra descriptor by canonical name or alias (case-insensitive),
/// restricted to descriptors that apply to `entity_type`.
///
/// Returns the first descriptor of `descriptors` whose `name` or any alias
/// matches `column_name` ignoring case and whose `entity_type` is `""` or
/// `entity_type`.
pub fn find_extra_descriptor(
    descriptors: &[ExtraFieldDescriptor],
    column_name: &str,
    entity_type: &str,
) -> (r: Option<ExtraFieldDescriptor>)
    ensures
        r == first_extra(descriptors@, column_name@, entity_type@),
{
    let col_lower = to_lowercase(column_name);
    let ghost ds = descriptors@;
    assert(ds.subrange(0, ds.len() as int) =~= ds);
    let mut i: usize = 0;
    while i < descriptors.len()
        invariant
            ds == descriptors@,
            i <= ds.len(),
            col_lower@ == lowercase(column_name@),
            first_extra(ds, column_name@, entity_type@) == first_extra(
                ds.subrange(i as int, ds.len() as int),
                column_name@,
                entity_type@,
            ),
        decreases ds.len() - i,
    {
        let d = descriptors[i];
        let ghost rest = ds.subrange(i as int, ds.len() as int);
        assert(rest[0] == d);
        assert(rest.drop_first() =~= ds.subrange(i + 1, ds.len() as int));
        let type_matches = d.entity_type.is_empty() || str_eq(d.entity_type, entity_type);
        if type_matches {
            let name_lower = to_lowercase(d.name);
            if str_eq(name_lower.as_str(), col_lower.as_str()) {
                return Some(d);
            }
            if alias_matches(d.aliases, &col_lower) {
                return Some(d);
            }
        }
        i = i + 1;
    }
    None
}

} // verus!
