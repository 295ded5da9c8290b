//! Canonical CRDT ownership of edges.
//!
//! The authoritative state of a relationship lives as a list on a single
//! **canonical owner** entity.  These functions resolve, from the registered
//! edge descriptors, which side owns the list for a given pair of fields (or
//! entity types), and name the per-edge metadata map that sits beside it.

use vstd::prelude::*;
use vstd::string::*;
use crate::edge_descriptor::EdgeDescriptor;
use crate::field::FieldKey;
use crate::text::str_eq;

verus! {

/// Resolved CRDT ownership for an edge.
#[derive(Debug, Clone, Copy)]
pub struct CanonicalOwner {
    /// `true` when the near (queried) field is the CRDT owner side.
    pub near_is_owner: bool,
    /// The entity type that owns the CRDT list.
    pub owner_type: &'static str,
    /// The entity type stored in the list — the non-owner side.
    pub target_type: &'static str,
    /// Name of the list field on the owner entity.
    pub field_name: &'static str,
    /// The descriptor that matched.
    pub descriptor: EdgeDescriptor,
}

/// The ownership record that descriptor `d` yields.
pub open spec fn owner_from(d: EdgeDescriptor, near_is_owner: bool) -> CanonicalOwner {
    CanonicalOwner {
        near_is_owner,
        owner_type: d.owner_field.entity_type,
        target_type: d.target_field.entity_type,
        field_name: d.owner_field.name,
        descriptor: d,
    }
}

/// `near` is the owner field of `d` and `far` its target field.
pub open spec fn fields_forward(d: EdgeDescriptor, near: FieldKey, far: FieldKey) -> bool {
    d.owner_field@ == near@ && d.target_field@ == far@
}

/// `near` is the target field of `d` and `far` its owner field.
pub open spec fn fields_reverse(d: EdgeDescriptor, near: FieldKey, far: FieldKey) -> bool {
    d.target_field@ == near@ && d.owner_field@ == far@
}

/// The first descriptor in `ds` matching `near`/`far` in either order,
/// preferring the owner-side reading when both apply.
pub open spec fn owner_by_fields(
    ds: Seq<EdgeDescriptor>,
    near: FieldKey,
    far: FieldKey,
) -> Option<CanonicalOwner>
    decreases ds.len(),
{
    if ds.len() == 0 {
        None
    } else if fields_forward(ds[0], near, far) {
        Some(owner_from(ds[0], true))
    } else if fields_reverse(ds[0], near, far) {
        Some(owner_from(ds[0], false))
    } else {
        owner_by_fields(ds.drop_first(), near, far)
    }
}

/// `d` is owned by type `l` and targets type `r`.
pub open spec fn types_forward(d: EdgeDescriptor, l: Seq<char>, r: Seq<char>) -> bool {
    d.owner_field.entity_type@ == l && d.target_field.entity_type@ == r
}

/// `d` joins two different types and is owned by `r`, targeting `l`.
pub open spec fn types_reverse(d: EdgeDescriptor, l: Seq<char>, r: Seq<char>) -> bool {
    d.owner_field.entity_type@ != d.target_field.entity_type@ && d.target_field.entity_type@ == l
        && d.owner_field.entity_type@ == r
}

/// The first descriptor in `ds` joining types `l` and `r` in either order;
/// a homogeneous descriptor only matches owner-first.
pub open spec fn owner_by_types(ds: Seq<EdgeDescriptor>, l: Seq<char>, r: Seq<char>) -> Option<
    CanonicalOwner,
>
    decreases ds.len(),
{
    if ds.len() == 0 {
        None
    } else if types_forward(ds[0], l, r) {
        Some(owner_from(ds[0], true))
    } else if types_reverse(ds[0], l, r) {
        Some(owner_from(ds[0], false))
    } else {
        owner_by_types(ds.drop_first(), l, r)
    }
}

/// Looking an edge up from either endpoint finds the same descriptor, the
/// same owner type, target type and list field; exactly one of the two
/// lookups has the near side as owner, unless both endpoints are the same
/// field.
pub proof fn lemma_owner_lookup_symmetric(ds: Seq<EdgeDescriptor>, near: FieldKey, far: FieldKey)
    ensures
        owner_by_fields(ds, near, far) is Some <==> owner_by_fields(ds, far, near) is Some,
        owner_by_fields(ds, near, far) matches Some(a) ==> {
            let b = owner_by_fields(ds, far, near)->0;
            &&& a.descriptor == b.descriptor
            &&& a.owner_type == b.owner_type
            &&& a.target_type == b.target_type
            &&& a.field_name == b.field_name
            &&& (near@ != far@ ==> a.near_is_owner != b.near_is_owner)
        },
    decreases ds.len(),
{
    if ds.len() > 0 && !fields_forward(ds[0], near, far) && !fields_reverse(ds[0], near, far) {
        lemma_owner_lookup_symmetric(ds.drop_first(), near, far);
    }
}

/// Resolve CRDT ownership for an edge given both field endpoints.
///
/// Searches `descriptors` in order for one whose owner/target field pair
/// matches `near_field`/`far_field` in either order.  `near_is_owner` is
/// `true` when `near_field` is the descriptor's owner field.  Returns `None`
/// if no descriptor matches.
pub fn canonical_owner(
    descriptors: &[EdgeDescriptor],
    near_field: FieldKey,
    far_field: FieldKey,
) -> (r: Option<CanonicalOwner>)
    ensures
        r == owner_by_fields(descriptors@, near_field, far_field),
{
    let ghost ds = descriptors@;
    assert(ds.subrange(0, ds.len() as int) =~= ds);
    let mut i: usize = 0;
    while i < descriptors.len()
        invariant
            ds == descriptors@,
            i <= ds.len(),
            owner_by_fields(ds, near_field, far_field) == owner_by_fields(
                ds.subrange(i as int, ds.len() as int),
                near_field,
                far_field,
            ),
        decreases ds.len() - i,
    {
        let desc = descriptors[i];
        let ghost rest = ds.subrange(i as int, ds.len() as int);
        assert(rest[0] == desc);
        assert(rest.drop_first() =~= ds.subrange(i + 1, ds.len() as int));
        if desc.owner_field.same_as(&near_field) && desc.target_field.same_as(&far_field) {
            return Some(
                CanonicalOwner {
                    near_is_owner: true,
                    owner_type: desc.owning_type(),
                    target_type: desc.target_type(),
                    field_name: desc.owning_field(),
                    descriptor: desc,
                },
            );
        }
        if desc.target_field.same_as(&near_field) && desc.owner_field.same_as(&far_field) {
            return Some(
                CanonicalOwner {
                    near_is_owner: false,
                    owner_type: desc.owning_type(),
                    target_type: desc.target_type(),
                    field_name: desc.owning_field(),
                    descriptor: desc,
                },
            );
        }
        i = i + 1;
    }
    None
}

/// Type-name-based ownership lookup.
///
/// Searches `descriptors` in order for one owned by `l_type` and targeting
/// `r_type`, or — for descriptors joining two different types — owned by
/// `r_type` and targeting `l_type`.  Ambiguous once several edges join the
/// same pair of types: the first registered one wins.
pub fn canonical_owner_by_types(descriptors: &[EdgeDescriptor], l_type: &str, r_type: &str) -> (r:
    Option<CanonicalOwner>)
    ensures
        r == owner_by_types(descriptors@, l_type@, r_type@),
{
    let ghost ds = descriptors@;
    assert(ds.subrange(0, ds.len() as int) =~= ds);
    let mut i: usize = 0;
    while i < descriptors.len()
        invariant
            ds == descriptors@,
            i <= ds.len(),
            owner_by_types(ds, l_type@, r_type@) == owner_by_types(
                ds.subrange(i as int, ds.len() as int),
                l_type@,
                r_type@,
            ),
        decreases ds.len() - i,
    {
        let desc = descriptors[i];
        let ghost rest = ds.subrange(i as int, ds.len() as int);
        assert(rest[0] == desc);
        assert(rest.drop_first() =~= ds.subrange(i + 1, ds.len() as int));
        if str_eq(desc.owning_type(), l_type) && str_eq(desc.target_type(), r_type) {
            return Some(
                CanonicalOwner {
                    near_is_owner: true,
                    owner_type: desc.owning_type(),
                    target_type: desc.target_type(),
                    field_name: desc.owning_field(),
                    descriptor: desc,
                },
            );
        }
        if !desc.is_homogeneous() && str_eq(desc.target_type(), l_type) && str_eq(
            desc.owning_type(),
            r_type,
        ) {
            return Some(
                CanonicalOwner {
                    near_is_owner: false,
                    owner_type: desc.owning_type(),
                    target_type: desc.target_type(),
                    field_name: desc.owning_field(),
                    descriptor: desc,
                },
            );
        }
        i = i + 1;
    }
    None
}

/// Derive the CRDT map key for per-edge metadata from the membership list
/// field name (e.g. `"presenters"` → `"presenters_meta"`).
pub fn meta_field_name(field_name: &str) -> (r: String)
    ensures
        r@ == field_name@ + "_meta"@,
{
    let mut s = String::from_str(field_name);
    s.append("_meta");
    s
}

} // verus!
