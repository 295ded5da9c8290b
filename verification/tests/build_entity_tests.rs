use schedule_core::edit::builder::{
    build_entity, build_entity_with, find_or_create_entity, BuildError, UuidPreference,
};
use schedule_core::edit::command::{EditCommand, EditError, EntityState, FieldValue};
use schedule_core::ids::{EntityUuid, NonNilUuid, RuntimeEntityId};
use std::collections::HashSet;

const PANEL_TYPE: &str = "panel_type";

fn nnu(n: u128) -> NonNilUuid {
    NonNilUuid::new(n).unwrap()
}

fn empty_store() -> EntityState {
    EntityState::new(vec![PANEL_TYPE])
}

fn valid_panel_type_updates() -> Vec<(&'static str, FieldValue)> {
    vec![
        ("prefix", FieldValue::Text("GP".to_string())),
        ("panel_kind", FieldValue::Text("Guest Panel".to_string())),
    ]
}

fn text(state: &EntityState, id: RuntimeEntityId, field: &str) -> Option<String> {
    match state.field_value(id, field) {
        Some(FieldValue::Text(s)) => Some(s),
        _ => None,
    }
}

fn v5(name: &str) -> u128 {
    let ns = uuid::Uuid::new_v5(&uuid::Uuid::NAMESPACE_OID, PANEL_TYPE.as_bytes());
    uuid::Uuid::new_v5(&ns, name.as_bytes()).as_u128()
}

fn gp() -> UuidPreference {
    UuidPreference::ExactFromV5 { name: "GP".to_string() }
}

#[test]
fn build_entity_generate_new_succeeds() {
    let mut sched = empty_store();
    let id = build_entity(&mut sched, PANEL_TYPE, &UuidPreference::GenerateNew, valid_panel_type_updates())
        .unwrap();
    assert_eq!(text(&sched, id, "prefix"), Some("GP".to_string()));
    assert_eq!(text(&sched, id, "panel_kind"), Some("Guest Panel".to_string()));
}

#[test]
fn build_entity_from_v5_is_deterministic() {
    let mut sched1 = empty_store();
    let id1 = build_entity(&mut sched1, PANEL_TYPE, &gp(), valid_panel_type_updates()).unwrap();
    let mut sched2 = empty_store();
    let id2 = build_entity(&mut sched2, PANEL_TYPE, &gp(), valid_panel_type_updates()).unwrap();
    assert_eq!(id1.entity_uuid(), id2.entity_uuid());
    assert_eq!(id1.entity_uuid().get(), v5("GP"));
}

#[test]
fn build_entity_exact_conflicts_error() {
    let mut sched = empty_store();
    let id1 = build_entity(&mut sched, PANEL_TYPE, &UuidPreference::GenerateNew, valid_panel_type_updates())
        .unwrap();
    let err = build_entity(
        &mut sched,
        PANEL_TYPE,
        &UuidPreference::Exact(id1.entity_uuid()),
        valid_panel_type_updates(),
    )
    .unwrap_err();
    assert!(matches!(err, BuildError::UuidConflict(_, "panel_type")));
    assert_eq!(sched.entity_count(), 1);
}

#[test]
fn build_entity_exact_from_v5_conflicts_error() {
    let mut sched = empty_store();
    let _id1 = build_entity(&mut sched, PANEL_TYPE, &gp(), valid_panel_type_updates()).unwrap();
    let err = build_entity(&mut sched, PANEL_TYPE, &gp(), valid_panel_type_updates()).unwrap_err();
    assert!(matches!(err, BuildError::UuidConflict(_, "panel_type")));
    assert_eq!(sched.entity_count(), 1);
}

#[test]
fn build_entity_prefer_falls_back_on_conflict() {
    let mut sched = empty_store();
    let id1 = build_entity(&mut sched, PANEL_TYPE, &UuidPreference::GenerateNew, valid_panel_type_updates())
        .unwrap();
    let id2 = build_entity(
        &mut sched,
        PANEL_TYPE,
        &UuidPreference::Prefer(id1.entity_uuid()),
        valid_panel_type_updates(),
    )
    .unwrap();
    assert_ne!(id1.entity_uuid(), id2.entity_uuid());
    assert_eq!(sched.entity_count(), 2);
}

#[test]
fn build_entity_prefer_from_v5_falls_back_on_conflict() {
    let mut sched = empty_store();
    let id1 = build_entity(&mut sched, PANEL_TYPE, &gp(), valid_panel_type_updates()).unwrap();
    let id2 = build_entity(
        &mut sched,
        PANEL_TYPE,
        &UuidPreference::PreferFromV5 { name: "GP".to_string() },
        valid_panel_type_updates(),
    )
    .unwrap();
    assert_ne!(id1.entity_uuid(), id2.entity_uuid());
    assert_eq!(sched.entity_count(), 2);
}

#[test]
fn build_entity_prefer_from_v5_succeeds_when_no_conflict() {
    let mut sched = empty_store();
    let id1 = build_entity(
        &mut sched,
        PANEL_TYPE,
        &UuidPreference::PreferFromV5 { name: "GP".to_string() },
        valid_panel_type_updates(),
    )
    .unwrap();
    let id2 = build_entity(
        &mut sched,
        PANEL_TYPE,
        &UuidPreference::PreferFromV5 { name: "SP".to_string() },
        valid_panel_type_updates(),
    )
    .unwrap();
    assert_ne!(id1.entity_uuid(), id2.entity_uuid());
    assert_eq!(sched.entity_count(), 2);
    assert_eq!(id1.entity_uuid().get(), v5("GP"));
    assert_eq!(id2.entity_uuid().get(), v5("SP"));
}

#[test]
fn build_entity_exact_recreates_tombstoned_entity() {
    let mut sched = empty_store();
    let id = build_entity(&mut sched, PANEL_TYPE, &UuidPreference::GenerateNew, valid_panel_type_updates())
        .unwrap();
    EditCommand::RemoveEntity { entity: id, fields: Vec::new() }.execute(&mut sched).unwrap();
    assert_eq!(sched.entity_count(), 0);
    assert!(!sched.contains(id));
    let id2 = build_entity(
        &mut sched,
        PANEL_TYPE,
        &UuidPreference::Exact(id.entity_uuid()),
        valid_panel_type_updates(),
    )
    .unwrap();
    assert_eq!(id.entity_uuid(), id2.entity_uuid());
    assert_eq!(sched.entity_count(), 1);
    assert!(sched.contains(id));
}

#[test]
fn build_with_given_fresh_uuid() {
    let mut sched = empty_store();
    let id = build_entity_with(
        &mut sched,
        PANEL_TYPE,
        &UuidPreference::GenerateNew,
        nnu(42),
        valid_panel_type_updates(),
    )
    .unwrap();
    assert_eq!(id.entity_uuid(), nnu(42));
    let id2 = build_entity_with(
        &mut sched,
        PANEL_TYPE,
        &UuidPreference::Prefer(nnu(42)),
        nnu(43),
        valid_panel_type_updates(),
    )
    .unwrap();
    assert_eq!(id2.entity_uuid(), nnu(43));
    let err = build_entity_with(
        &mut sched,
        PANEL_TYPE,
        &UuidPreference::GenerateNew,
        nnu(43),
        valid_panel_type_updates(),
    )
    .unwrap_err();
    assert!(matches!(err, BuildError::Store(EditError::Build { .. })));
    assert_eq!(sched.entity_count(), 2);
}

#[test]
fn build_unknown_type_is_refused() {
    let mut sched = empty_store();
    let err = build_entity_with(&mut sched, "room", &UuidPreference::GenerateNew, nnu(5), Vec::new())
        .unwrap_err();
    assert!(matches!(err, BuildError::Store(EditError::UnknownEntityType("room"))));
    assert_eq!(sched.entity_count(), 0);
}

#[test]
fn find_or_create_entity_creates_when_absent() {
    let mut sched = empty_store();
    let id = find_or_create_entity(
        &mut sched, PANEL_TYPE, "GP", &[], &[], &HashSet::new(), false, "GP|Guest Panel", nnu(7),
        valid_panel_type_updates(),
    )
    .unwrap();
    assert_eq!(sched.entity_count(), 1);
    assert_eq!(text(&sched, id, "prefix"), Some("GP".to_string()));
}

#[test]
fn find_or_create_entity_updates_when_present() {
    let mut sched = empty_store();
    let id1 = find_or_create_entity(
        &mut sched, PANEL_TYPE, "GP", &[], &[], &HashSet::new(), false, "GP|Guest Panel", nnu(7),
        valid_panel_type_updates(),
    )
    .unwrap();
    let id2 = find_or_create_entity(
        &mut sched,
        PANEL_TYPE,
        "GP",
        &[id1.entity_uuid()],
        &["panel_kind=Guest Panel|prefix=GP".to_string()],
        &HashSet::new(),
        false,
        "GP|Updated Kind",
        nnu(8),
        vec![
            ("prefix", FieldValue::Text("GP".to_string())),
            ("panel_kind", FieldValue::Text("Updated Kind".to_string())),
        ],
    )
    .unwrap();
    assert_eq!(id1.entity_uuid(), id2.entity_uuid());
    assert_eq!(sched.entity_count(), 1);
    assert_eq!(text(&sched, id2, "panel_kind"), Some("Updated Kind".to_string()));
}

#[test]
fn find_or_create_entity_seen_skips_already_consumed() {
    let mut sched = empty_store();
    let id1 = build_entity(&mut sched, PANEL_TYPE, &UuidPreference::GenerateNew, valid_panel_type_updates())
        .unwrap();
    let mut seen = HashSet::new();
    seen.insert(id1.entity_uuid().get());
    let id2 = find_or_create_entity(
        &mut sched,
        PANEL_TYPE,
        "GP",
        &[id1.entity_uuid()],
        &["panel_kind=Guest Panel|prefix=GP".to_string()],
        &seen,
        false,
        "GP|Guest Panel",
        nnu(9),
        valid_panel_type_updates(),
    )
    .unwrap();
    assert_ne!(id1.entity_uuid(), id2.entity_uuid());
    assert_eq!(sched.entity_count(), 2);
}
