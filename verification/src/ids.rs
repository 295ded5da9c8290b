//! Entity identifiers: non-nil UUID values and runtime (type-tagged) entity ids.

use vstd::prelude::*;
use vstd::string::*;
use crate::text::str_eq;

verus! {

/// A non-nil 128-bit UUID.
#[derive(Debug, Clone, Copy, Hash)]
pub struct NonNilUuid {
    value: u128,
}

impl View for NonNilUuid {
    type V = u128;

    closed spec fn view(&self) -> u128 {
        self.value
    }
}

/// Two UUIDs are equal exactly when their 128-bit values are equal.
pub broadcast proof fn lemma_uuid_view_injective(a: NonNilUuid, b: NonNilUuid)
    ensures
        #![trigger a@, b@]
        (a@ == b@) <==> a == b,
{
}

impl NonNilUuid {
    /// The value is never the nil UUID.
    #[verifier::type_invariant]
    closed spec fn non_nil(self) -> bool {
        self.value != 0
    }

    /// The nil UUID has no `NonNilUuid`; every other value has one.
    pub fn new(value: u128) -> (r: Option<NonNilUuid>)
        ensures
            r is Some <==> value != 0,
            r matches Some(u) ==> u@ == value,
    {
        if value == 0 {
            None
        } else {
            Some(NonNilUuid { value })
        }
    }

    /// The 128-bit value of this UUID.
    pub fn get(&self) -> (r: u128)
        ensures
            r == self@,
            r != 0,
    {
        proof {
            use_type_invariant(self);
        }
        self.value
    }

    /// Returns `true` when both UUIDs are the same.
    pub fn same_as(&self, other: &NonNilUuid) -> (r: bool)
        ensures
            r == (*self == *other),
    {
        self.value == other.value
    }
}

impl PartialEq for NonNilUuid {
    fn eq(&self, other: &Self) -> (r: bool) {
        self.value == other.value
    }
}

impl vstd::std_specs::cmp::PartialEqSpecImpl for NonNilUuid {
    open spec fn obeys_eq_spec() -> bool {
        true
    }

    open spec fn eq_spec(&self, other: &Self) -> bool {
        self@ == other@
    }
}

impl Eq for NonNilUuid {}

/// The version-5 (SHA-1, name-based) UUID that the `uuid` crate derives
/// from `name` in namespace `namespace`, as 128-bit values.
pub uninterp spec fn name_v5(namespace: u128, name: Seq<u8>) -> u128;

/// The standard OID namespace UUID, `6ba7b812-9dad-11d1-80b4-00c04fd430c8`
/// (RFC 9562), the value of `uuid::Uuid::NAMESPACE_OID`.
pub const OID_NAMESPACE: u128 = 0x6ba7b812_9dad_11d1_80b4_00c04fd430c8u128;

/// The standard OID namespace UUID as a 128-bit value.
pub open spec fn oid_namespace_value() -> u128 {
    OID_NAMESPACE
}

/// Calls `uuid::Uuid::new_v5`.  Trusted: the result is the named value for
/// the namespace and name, and it is never nil because the builder sets the
/// version and variant bits.
#[verifier::external_body]
fn new_v5(namespace: u128, name: &[u8]) -> (r: u128)
    ensures
        r == name_v5(namespace, name@),
        r != 0,
{
    uuid::Uuid::new_v5(&uuid::Uuid::from_u128(namespace), name).as_u128()
}

/// The name-based UUID of `name` in namespace `namespace`.
pub fn name_based_uuid(namespace: NonNilUuid, name: &str) -> (r: NonNilUuid)
    ensures
        r@ == name_v5(namespace@, name.spec_bytes()),
{
    let v = new_v5(namespace.get(), name.as_bytes());
    NonNilUuid { value: v }
}

/// The namespace of an entity type's name-based UUIDs: the name-based UUID
/// of its type name in the OID namespace.
pub fn type_namespace(entity_type: &str) -> (r: NonNilUuid)
    ensures
        r@ == name_v5(oid_namespace_value(), entity_type.spec_bytes()),
{
    let v = new_v5(OID_NAMESPACE, entity_type.as_bytes());
    NonNilUuid { value: v }
}

/// Draws a time-ordered UUID with `uuid::Uuid::now_v7`.  Trusted: the
/// result is never nil, since the version bits are set.  It depends on the
/// clock and on chance, so nothing else is stated of it.
#[verifier::external_body]
fn now_v7_value() -> (r: u128)
    ensures
        r != 0,
{
    uuid::Uuid::now_v7().as_u128()
}

/// A fresh time-ordered (version 7) UUID.
pub fn generate_uuid() -> (r: NonNilUuid) {
    let v = now_v7_value();
    NonNilUuid { value: v }
}

/// Types that hold an entity UUID.
pub trait EntityUuid {
    /// The UUID this value holds.
    spec fn spec_uuid(&self) -> NonNilUuid;

    /// Get the raw UUID.
    fn entity_uuid(&self) -> (r: NonNilUuid)
        ensures
            r == self.spec_uuid(),
    ;
}

/// Types that know the entity type they refer to.
pub trait EntityTyped {
    /// The entity type name this value refers to.
    spec fn spec_type_name(&self) -> &'static str;

    /// Get the static entity type name (e.g. `"panel"`, `"presenter"`).
    fn entity_type_name(&self) -> (r: &'static str)
        ensures
            r == self.spec_type_name(),
    ;
}

/// Any copyable identifier that carries both a UUID and an entity type name.
pub trait DynamicEntityId: EntityUuid + EntityTyped + Copy {

}

impl<T: EntityUuid + EntityTyped + Copy> DynamicEntityId for T {

}

/// Dynamic (untyped) entity identifier: a non-nil UUID paired with its entity type name.
#[derive(Debug, Clone, Copy)]
pub struct RuntimeEntityId {
    uuid: NonNilUuid,
    entity_type: &'static str,
}

impl EntityUuid for RuntimeEntityId {
    closed spec fn spec_uuid(&self) -> NonNilUuid {
        self.uuid
    }

    fn entity_uuid(&self) -> (r: NonNilUuid) {
        self.uuid
    }
}

impl EntityTyped for RuntimeEntityId {
    closed spec fn spec_type_name(&self) -> &'static str {
        self.entity_type
    }

    fn entity_type_name(&self) -> (r: &'static str) {
        self.entity_type
    }
}

/// Two runtime ids are the same when their UUIDs and type names agree.
pub open spec fn runtime_id_eq(a: RuntimeEntityId, b: RuntimeEntityId) -> bool {
    a.spec_uuid() == b.spec_uuid() && a.spec_type_name()@ == b.spec_type_name()@
}

impl RuntimeEntityId {
    /// The runtime id pairing `uuid` with `entity_type`.
    pub closed spec fn spec_new(uuid: NonNilUuid, entity_type: &'static str) -> RuntimeEntityId {
        RuntimeEntityId { uuid, entity_type }
    }

    /// The parts of [`RuntimeEntityId::spec_new`] are the ones it was given.
    pub broadcast proof fn lemma_spec_new(uuid: NonNilUuid, entity_type: &'static str)
        ensures
            #[trigger] RuntimeEntityId::spec_new(uuid, entity_type).spec_uuid() == uuid,
            RuntimeEntityId::spec_new(uuid, entity_type).spec_type_name() == entity_type,
    {
    }

    /// Pair a UUID with the entity type name it belongs to.
    ///
    /// The caller is responsible for `uuid` actually naming an entity of
    /// type `entity_type`.
    pub fn new_unchecked(uuid: NonNilUuid, entity_type: &'static str) -> (r: RuntimeEntityId)
        ensures
            r == RuntimeEntityId::spec_new(uuid, entity_type),
            r.spec_uuid() == uuid,
            r.spec_type_name() == entity_type,
    {
        RuntimeEntityId { uuid, entity_type }
    }

    /// Convert from any type carrying a UUID and an entity type name.
    pub fn from_dynamic<T: DynamicEntityId>(entity: T) -> (r: RuntimeEntityId)
        ensures
            r.spec_uuid() == entity.spec_uuid(),
            r.spec_type_name() == entity.spec_type_name(),
    {
        RuntimeEntityId { uuid: entity.entity_uuid(), entity_type: entity.entity_type_name() }
    }
}

impl PartialEq for RuntimeEntityId {
    fn eq(&self, other: &Self) -> (r: bool) {
        self.uuid.same_as(&other.uuid) && str_eq(self.entity_type, other.entity_type)
    }
}

impl vstd::std_specs::cmp::PartialEqSpecImpl for RuntimeEntityId {
    open spec fn obeys_eq_spec() -> bool {
        true
    }

    open spec fn eq_spec(&self, other: &Self) -> bool {
        runtime_id_eq(*self, *other)
    }
}

impl Eq for RuntimeEntityId {}

} // verus!
