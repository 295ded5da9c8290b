use schedule_core::event_room::{
    EventRoomCommonData, EventRoomEntityType, EventRoomInternalData,
};
use schedule_core::ids::NonNilUuid;
use schedule_core::lookup::{CanCreate, MatchConsumed};
use schedule_core::value::ValidationError;

#[test]
fn test_can_create_no_separator() {
    assert!(matches!(
        EventRoomEntityType::can_create("Panel 1", "Panel 1"),
        CanCreate::Yes(MatchConsumed::Full)
    ));
}

#[test]
fn test_can_create_with_separator() {
    assert!(matches!(
        EventRoomEntityType::can_create("Panel 1, Panel 2", "Panel 1"),
        CanCreate::Yes(MatchConsumed::Partial)
    ));
}

#[test]
fn test_can_create_empty_partial_returns_no() {
    assert!(matches!(EventRoomEntityType::can_create("Panel 1", ""), CanCreate::No));
}

#[test]
fn test_validate_missing_room_name() {
    let data = EventRoomCommonData::default();
    let errors = data.validate();
    assert_eq!(errors.len(), 1);
    assert!(matches!(errors[0], ValidationError::Required { field } if field == "room_name"));
}

#[test]
fn validate_accepts_a_named_room() {
    let data = EventRoomCommonData {
        room_name: "Panel 1".to_string(),
        long_name: None,
        sort_key: Some(10),
    };
    assert!(data.validate().is_empty());
}

#[test]
fn export_copies_data_and_leaves_relationships_empty() {
    let internal = EventRoomInternalData {
        id: NonNilUuid::new(7).unwrap(),
        data: EventRoomCommonData {
            room_name: "Panel 1".to_string(),
            long_name: Some("Grand Ballroom A".to_string()),
            sort_key: Some(10),
        },
    };
    let out = EventRoomEntityType::export(&internal);
    assert_eq!(out.data.room_name, "Panel 1");
    assert_eq!(out.data.long_name.as_deref(), Some("Grand Ballroom A"));
    assert_eq!(out.data.sort_key, Some(10));
    assert!(out.hotel_room_ids.is_empty());
    assert!(out.panels.is_empty());
    assert!(EventRoomEntityType::validate(&internal).is_empty());
}

#[test]
fn uuid_namespace_is_the_name_based_uuid_of_the_type_name() {
    let expected = uuid::Uuid::new_v5(&uuid::Uuid::NAMESPACE_OID, b"event_room").as_u128();
    let ns = EventRoomEntityType::uuid_namespace();
    assert_eq!(ns.get(), expected);
    assert_ne!(ns.get(), u128::from_le_bytes(*b"event_room\0\0\0\0\0\0"));
    assert_eq!(EventRoomEntityType::TYPE_NAME, "event_room");
}

#[test]
fn room_from_string_uses_the_string_and_a_name_based_id() {
    let a = EventRoomEntityType::data_from_string("Main Hall");
    let b = EventRoomEntityType::data_from_string("Main Hall");
    let c = EventRoomEntityType::data_from_string("Side Hall");
    assert_eq!(a.data.room_name, "Main Hall");
    assert_eq!(a.data.long_name.as_deref(), Some("Main Hall"));
    assert_eq!(a.data.sort_key, None);
    assert_eq!(a.id, b.id);
    assert_ne!(a.id, c.id);
    let ns = uuid::Uuid::new_v5(&uuid::Uuid::NAMESPACE_OID, b"event_room");
    let expected = uuid::Uuid::new_v5(&ns, b"Main Hall").as_u128();
    assert_eq!(a.id.get(), expected);
}

#[test]
fn default_data_needs_a_room_name() {
    let d = EventRoomEntityType::default_data(NonNilUuid::new(3).unwrap());
    assert_eq!(d.id.get(), 3);
    assert!(d.data.room_name.is_empty());
    assert_eq!(EventRoomEntityType::validate(&d).len(), 1);
}
