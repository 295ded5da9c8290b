use schedule_core::edge_crdt::{canonical_owner, canonical_owner_by_types, meta_field_name};
use schedule_core::edge_descriptor::{EdgeDescriptor, EdgeFieldDefault, EdgeFieldSpec};
use schedule_core::field::FieldKey;

const PANEL_PRESENTERS: FieldKey = FieldKey { entity_type: "panel", name: "presenters" };
const PRESENTER_PANELS: FieldKey = FieldKey { entity_type: "presenter", name: "panels" };
const PRESENTER_GROUPS: FieldKey = FieldKey { entity_type: "presenter", name: "groups" };
const PRESENTER_MEMBERS: FieldKey = FieldKey { entity_type: "presenter", name: "members" };
const PANEL_ROOMS: FieldKey = FieldKey { entity_type: "panel", name: "event_rooms" };
const ROOM_PANELS: FieldKey = FieldKey { entity_type: "event_room", name: "panels" };

const CREDITED: &[EdgeFieldSpec] =
    &[EdgeFieldSpec { name: "credited", default: EdgeFieldDefault::Boolean(true) }];

fn descriptors() -> Vec<EdgeDescriptor> {
    vec![
        EdgeDescriptor {
            name: "panel_presenters",
            owner_field: PANEL_PRESENTERS,
            target_field: PRESENTER_PANELS,
            fields: CREDITED,
        },
        EdgeDescriptor {
            name: "panel_event_rooms",
            owner_field: PANEL_ROOMS,
            target_field: ROOM_PANELS,
            fields: &[],
        },
        EdgeDescriptor {
            name: "presenter_groups",
            owner_field: PRESENTER_GROUPS,
            target_field: PRESENTER_MEMBERS,
            fields: &[],
        },
    ]
}

#[test]
fn canonical_owner_from_owner_side() {
    let ds = descriptors();
    let o = canonical_owner(&ds, PANEL_PRESENTERS, PRESENTER_PANELS).unwrap();
    assert!(o.near_is_owner);
    assert_eq!(o.owner_type, "panel");
    assert_eq!(o.target_type, "presenter");
    assert_eq!(o.field_name, "presenters");
    assert_eq!(o.descriptor.name, "panel_presenters");
    assert_eq!(o.descriptor.fields[0].default, EdgeFieldDefault::Boolean(true));
}

#[test]
fn canonical_owner_from_target_side() {
    let ds = descriptors();
    let o = canonical_owner(&ds, ROOM_PANELS, PANEL_ROOMS).unwrap();
    assert!(!o.near_is_owner);
    assert_eq!(o.owner_type, "panel");
    assert_eq!(o.target_type, "event_room");
    assert_eq!(o.field_name, "event_rooms");
}

#[test]
fn canonical_owner_needs_both_fields_to_match() {
    let ds = descriptors();
    assert!(canonical_owner(&ds, PANEL_PRESENTERS, ROOM_PANELS).is_none());
    assert!(canonical_owner(&[], PANEL_PRESENTERS, PRESENTER_PANELS).is_none());
}

#[test]
fn canonical_owner_homogeneous_edge() {
    let ds = descriptors();
    let fwd = canonical_owner(&ds, PRESENTER_GROUPS, PRESENTER_MEMBERS).unwrap();
    let back = canonical_owner(&ds, PRESENTER_MEMBERS, PRESENTER_GROUPS).unwrap();
    assert!(fwd.near_is_owner);
    assert!(!back.near_is_owner);
    assert_eq!(fwd.field_name, back.field_name);
}

#[test]
fn canonical_owner_by_types_both_orders() {
    let ds = descriptors();
    let o = canonical_owner_by_types(&ds, "panel", "presenter").unwrap();
    assert!(o.near_is_owner);
    assert_eq!(o.field_name, "presenters");
    let r = canonical_owner_by_types(&ds, "event_room", "panel").unwrap();
    assert!(!r.near_is_owner);
    assert_eq!(r.field_name, "event_rooms");
    let h = canonical_owner_by_types(&ds, "presenter", "presenter").unwrap();
    assert!(h.near_is_owner);
    assert_eq!(h.field_name, "groups");
    assert!(canonical_owner_by_types(&ds, "timeline", "panel").is_none());
}

#[test]
fn canonical_owner_by_types_first_registered_wins() {
    let mut ds = descriptors();
    ds.insert(0, EdgeDescriptor {
        name: "panel_uncredited",
        owner_field: FieldKey { entity_type: "panel", name: "uncredited_presenters" },
        target_field: FieldKey { entity_type: "presenter", name: "uncredited_panels" },
        fields: &[],
    });
    let o = canonical_owner_by_types(&ds, "panel", "presenter").unwrap();
    assert_eq!(o.field_name, "uncredited_presenters");
    let f = canonical_owner(&ds, PANEL_PRESENTERS, PRESENTER_PANELS).unwrap();
    assert_eq!(f.field_name, "presenters");
}

#[test]
fn meta_field_name_appends_suffix() {
    assert_eq!(meta_field_name("presenters"), "presenters_meta");
    assert_eq!(meta_field_name(""), "_meta");
}

#[test]
fn edge_descriptor_accessors() {
    let ds = descriptors();
    let d = ds[0];
    assert_eq!(d.owning_type(), "panel");
    assert_eq!(d.target_type(), "presenter");
    assert_eq!(d.owning_field(), "presenters");
    assert!(!d.is_homogeneous());
    assert!(ds[2].is_homogeneous());
    assert_eq!(d.far_field(PANEL_PRESENTERS).unwrap().name, "panels");
    assert_eq!(d.far_field(PRESENTER_PANELS).unwrap().name, "presenters");
    assert!(d.far_field(ROOM_PANELS).is_none());
}
