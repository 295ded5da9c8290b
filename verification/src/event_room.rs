//! EventRoom entity: a scheduled room as it appears on the Schedule sheet.

use vstd::prelude::*;
use vstd::string::*;
use crate::ids::{NonNilUuid, name_based_uuid, name_v5, oid_namespace_value, type_namespace};
use crate::lookup::{CanCreate, MatchConsumed};
use crate::value::ValidationError;

verus! {

/// User-facing event room fields from the Rooms sheet.
#[derive(Debug, Clone)]
pub struct EventRoomCommonData {
    /// Room code that appears in the Schedule sheet's Room column (required).
    pub room_name: String,
    /// Display name shown in the widget / public schedule.
    pub long_name: Option<String>,
    /// Sort key for room ordering; values `>= 100` are hidden from the
    /// public schedule.
    pub sort_key: Option<i64>,
}

/// The validation errors of event room data: `room_name` is required.
pub open spec fn event_room_errors(d: EventRoomCommonData) -> Seq<ValidationError> {
    if d.room_name@.len() == 0 {
        seq![ValidationError::Required { field: "room_name" }]
    } else {
        Seq::empty()
    }
}

impl EventRoomCommonData {
    /// Check the required fields.
    pub fn validate(&self) -> (r: Vec<ValidationError>)
        ensures
            r@ == event_room_errors(*self),
    {
        let mut errors: Vec<ValidationError> = Vec::new();
        if self.room_name.as_str().is_empty() {
            errors.push(ValidationError::Required { field: "room_name" });
        }
        assert(errors@ =~= event_room_errors(*self));
        errors
    }
}

impl Default for EventRoomCommonData {
    fn default() -> (r: EventRoomCommonData)
        ensures
            r.room_name@ == Seq::<char>::empty(),
            r.long_name is None,
            r.sort_key is None,
    {
        EventRoomCommonData { room_name: String::new(), long_name: None, sort_key: None }
    }
}

/// Runtime storage for an event room.
#[derive(Debug, Clone)]
pub struct EventRoomInternalData {
    /// The room's entity UUID.
    pub id: NonNilUuid,
    /// The user-facing fields.
    pub data: EventRoomCommonData,
}

/// Export/API view of an event room, including its relationships.
#[derive(Debug, Clone)]
pub struct EventRoomData {
    /// The user-facing fields.
    pub data: EventRoomCommonData,
    /// UUIDs of the hotel rooms that contain this room.
    pub hotel_room_ids: Vec<NonNilUuid>,
    /// UUIDs of the panels scheduled in this room.
    pub panels: Vec<NonNilUuid>,
}

/// Singleton type representing the EventRoom entity kind.
#[derive(Debug, Clone, Copy, PartialEq, Eq, Hash)]
pub struct EventRoomEntityType;

/// The creation decision for a candidate `partial` taken from `full`.
pub open spec fn can_create_spec(full: Seq<char>, partial: Seq<char>) -> CanCreate {
    if partial.len() == 0 {
        CanCreate::No
    } else if full == partial {
        CanCreate::Yes(MatchConsumed::Full)
    } else {
        CanCreate::Yes(MatchConsumed::Partial)
    }
}

impl EventRoomEntityType {
    /// Type name of event rooms.
    pub const TYPE_NAME: &'static str = "event_room";

    /// Namespace of name-based event room UUIDs: the OID-namespace UUID of
    /// the type name.
    pub fn uuid_namespace() -> (r: NonNilUuid)
        ensures
            r@ == name_v5(oid_namespace_value(), Self::TYPE_NAME.spec_bytes()),
    {
        type_namespace(Self::TYPE_NAME)
    }

    /// The room a lookup string creates: named by the string in both
    /// `room_name` and `long_name`, with the name-based UUID of the string in
    /// the type's namespace, so the same string always gives the same room.
    pub fn data_from_string(s: &str) -> (r: EventRoomInternalData)
        ensures
            r.id@ == name_v5(
                name_v5(oid_namespace_value(), Self::TYPE_NAME.spec_bytes()),
                s.spec_bytes(),
            ),
            r.data.room_name@ == s@,
            r.data.long_name matches Some(l) && l@ == s@,
            r.data.sort_key is None,
    {
        let id = name_based_uuid(Self::uuid_namespace(), s);
        EventRoomInternalData {
            id,
            data: EventRoomCommonData {
                room_name: String::from_str(s),
                long_name: Some(String::from_str(s)),
                sort_key: None,
            },
        }
    }

    /// An empty room stamped with `id`; it fails validation until a room name
    /// is written.
    pub fn default_data(id: NonNilUuid) -> (r: EventRoomInternalData)
        ensures
            r.id == id,
            r.data.room_name@ == Seq::<char>::empty(),
            r.data.long_name is None,
            r.data.sort_key is None,
            event_room_errors(r.data).len() == 1,
    {
        EventRoomInternalData { id, data: EventRoomCommonData::default() }
    }

    /// Export view: the common data, with no relationships filled in.
    pub fn export(internal: &EventRoomInternalData) -> (r: EventRoomData)
        ensures
            r.data.room_name@ == internal.data.room_name@,
            r.data.sort_key == internal.data.sort_key,
            r.data.long_name is Some <==> internal.data.long_name is Some,
            r.data.long_name matches Some(l) ==> l@ == internal.data.long_name->0@,
            r.hotel_room_ids@ == Seq::<NonNilUuid>::empty(),
            r.panels@ == Seq::<NonNilUuid>::empty(),
    {
        let long_name = match &internal.data.long_name {
            Some(l) => Some(l.clone()),
            None => None,
        };
        EventRoomData {
            data: EventRoomCommonData {
                room_name: internal.data.room_name.clone(),
                long_name,
                sort_key: internal.data.sort_key,
            },
            hotel_room_ids: Vec::new(),
            panels: Vec::new(),
        }
    }

    /// Validate the internal data (see [`EventRoomCommonData::validate`]).
    pub fn validate(internal: &EventRoomInternalData) -> (r: Vec<ValidationError>)
        ensures
            r@ == event_room_errors(internal.data),
    {
        internal.data.validate()
    }

    /// A room may be created from any non-empty candidate; the result
    /// records whether the candidate is the whole input.
    pub fn can_create(full: &str, partial: &str) -> (r: CanCreate)
        ensures
            r == can_create_spec(full@, partial@),
    {
        if partial.is_empty() {
            CanCreate::No
        } else if crate::text::str_eq(full, partial) {
            CanCreate::Yes(MatchConsumed::Full)
        } else {
            CanCreate::Yes(MatchConsumed::Partial)
        }
    }
}

} // verus!
