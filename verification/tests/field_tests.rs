use schedule_core::field::{CommonFieldData, FieldKey};
use schedule_core::value::{FieldCardinality, FieldType, FieldTypeItem};

fn room_name() -> CommonFieldData {
    CommonFieldData {
        name: "room_name",
        display: "Room Name",
        description: "Room code as it appears in the Schedule sheet's Room column.",
        aliases: &["room", "name"],
        field_type: FieldType(FieldCardinality::Single, FieldTypeItem::String),
        example: "Panel 1",
        order: 0,
    }
}

#[test]
fn matches_name_and_aliases_ignoring_case() {
    let f = room_name();
    assert!(f.matches_name("room_name"));
    assert!(f.matches_name("ROOM_NAME"));
    assert!(f.matches_name("Room"));
    assert!(f.matches_name("NAME"));
    assert!(!f.matches_name("long_name"));
    assert!(!f.matches_name(""));
}

#[test]
fn field_keys_compare_by_type_and_name() {
    let a = FieldKey { entity_type: "panel", name: "presenters" };
    let b = FieldKey { entity_type: "panel", name: "presenters" };
    let c = FieldKey { entity_type: "presenter", name: "presenters" };
    assert!(a.same_as(&b));
    assert!(!a.same_as(&c));
}
