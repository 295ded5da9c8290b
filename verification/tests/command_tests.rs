use schedule_core::edge::descriptor::{EdgeKind, HalfEdgeDescriptor};
use schedule_core::edge::id::FullEdge;
use schedule_core::edit::command::{
    add_entity_cmd, snapshot_entity, EditCommand, EditError, EntityState, FieldValue,
};
use schedule_core::edit::context::EditContext;
use schedule_core::field::{CommonFieldData, FieldKey};
use schedule_core::ids::{NonNilUuid, RuntimeEntityId};
use schedule_core::value::{FieldCardinality, FieldType, FieldTypeItem};

const PANEL: &str = "panel";
const PRESENTER: &str = "presenter";

fn nnu(n: u128) -> NonNilUuid {
    NonNilUuid::new(n).unwrap()
}
fn panel(n: u128) -> RuntimeEntityId {
    RuntimeEntityId::new_unchecked(nnu(n), PANEL)
}
fn presenter(n: u128) -> RuntimeEntityId {
    RuntimeEntityId::new_unchecked(nnu(n), PRESENTER)
}

fn half(entity: &'static str, name: &'static str, kind: EdgeKind) -> HalfEdgeDescriptor {
    HalfEdgeDescriptor {
        data: CommonFieldData {
            name,
            display: name,
            description: "test field",
            aliases: &[],
            field_type: FieldType(FieldCardinality::List, FieldTypeItem::Text),
            example: "",
            order: 0,
        },
        edge_kind: kind,
        entity_name: entity,
    }
}

fn credited_edge() -> FullEdge {
    let near = half(
        PANEL,
        "credited",
        EdgeKind::Owner {
            target_field: FieldKey { entity_type: PRESENTER, name: "panels" },
            exclusive_with: Some(FieldKey { entity_type: PANEL, name: "uncredited" }),
        },
    );
    let far = half(PRESENTER, "panels", EdgeKind::Target { source_fields: &[] });
    near.edge_to(&far)
}

fn uncredited_edge() -> FullEdge {
    let near = half(
        PANEL,
        "uncredited",
        EdgeKind::Owner {
            target_field: FieldKey { entity_type: PRESENTER, name: "panels" },
            exclusive_with: None,
        },
    );
    let far = half(PRESENTER, "panels", EdgeKind::Target { source_fields: &[] });
    near.edge_to(&far)
}

fn plain_edge() -> FullEdge {
    let near = half(
        PANEL,
        "hosts",
        EdgeKind::Owner {
            target_field: FieldKey { entity_type: PRESENTER, name: "hosted" },
            exclusive_with: None,
        },
    );
    let far = half(PRESENTER, "hosted", EdgeKind::Target { source_fields: &[] });
    near.edge_to(&far)
}

fn store() -> EntityState {
    EntityState::new(vec![PANEL, PRESENTER])
}

fn text(v: Option<FieldValue>) -> Option<String> {
    match v {
        Some(FieldValue::Text(s)) => Some(s),
        _ => None,
    }
}

fn add_panel(state: &mut EntityState, n: u128, title: &str) -> EditCommand {
    let cmd = EditCommand::AddEntity {
        entity: panel(n),
        fields: vec![("title", FieldValue::Text(title.to_string())), ("room", FieldValue::Integer(3))],
    };
    cmd.execute(state).unwrap()
}

#[test]
fn add_entity_then_inverse_removes_it() {
    let mut state = store();
    let inverse = add_panel(&mut state, 1, "Opening");
    assert!(state.contains(panel(1)));
    assert_eq!(text(state.field_value(panel(1), "title")), Some("Opening".to_string()));
    assert!(matches!(inverse, EditCommand::RemoveEntity { .. }));
    let redo = inverse.execute(&mut state).unwrap();
    assert!(!state.contains(panel(1)));
    assert!(matches!(redo, EditCommand::AddEntity { .. }));
    redo.execute(&mut state).unwrap();
    assert_eq!(text(state.field_value(panel(1), "title")), Some("Opening".to_string()));
}

#[test]
fn update_field_inverse_restores_old_value() {
    let mut state = store();
    add_panel(&mut state, 1, "Opening");
    let cmd = EditCommand::UpdateField {
        entity: panel(1),
        field: "title",
        old_value: FieldValue::Text("Opening".to_string()),
        new_value: FieldValue::Text("Closing".to_string()),
    };
    let inverse = cmd.execute(&mut state).unwrap();
    assert_eq!(text(state.field_value(panel(1), "title")), Some("Closing".to_string()));
    match &inverse {
        EditCommand::UpdateField { old_value: FieldValue::Text(o), new_value: FieldValue::Text(n), .. } => {
            assert_eq!(o, "Closing");
            assert_eq!(n, "Opening");
        }
        _ => panic!("wrong inverse"),
    }
    inverse.execute(&mut state).unwrap();
    assert_eq!(text(state.field_value(panel(1), "title")), Some("Opening".to_string()));
}

#[test]
fn update_errors() {
    let mut state = store();
    add_panel(&mut state, 1, "Opening");
    let unknown = RuntimeEntityId::new_unchecked(nnu(9), "room");
    let r = EditCommand::UpdateField {
        entity: unknown,
        field: "title",
        old_value: FieldValue::Empty,
        new_value: FieldValue::Empty,
    }
    .execute(&mut state);
    assert!(matches!(r, Err(EditError::UnknownEntityType("room"))));
    let r = EditCommand::UpdateField {
        entity: panel(1),
        field: "missing",
        old_value: FieldValue::Empty,
        new_value: FieldValue::Empty,
    }
    .execute(&mut state);
    assert!(matches!(r, Err(EditError::FieldWrite { field: "missing", .. })));
    let r = EditCommand::UpdateField {
        entity: panel(2),
        field: "title",
        old_value: FieldValue::Empty,
        new_value: FieldValue::Empty,
    }
    .execute(&mut state);
    assert!(matches!(r, Err(EditError::FieldWrite { .. })));
}

#[test]
fn add_existing_entity_is_a_build_error() {
    let mut state = store();
    add_panel(&mut state, 1, "Opening");
    let r = EditCommand::AddEntity { entity: panel(1), fields: Vec::new() }.execute(&mut state);
    assert!(matches!(r, Err(EditError::Build { .. })));
}

#[test]
fn batch_inverse_runs_in_reverse_order() {
    let mut state = store();
    let batch = EditCommand::BatchEdit(vec![
        EditCommand::AddEntity { entity: panel(1), fields: vec![("title", FieldValue::Text("A".to_string()))] },
        EditCommand::UpdateField {
            entity: panel(1),
            field: "title",
            old_value: FieldValue::Text("A".to_string()),
            new_value: FieldValue::Text("B".to_string()),
        },
    ]);
    let inverse = batch.execute(&mut state).unwrap();
    assert_eq!(text(state.field_value(panel(1), "title")), Some("B".to_string()));
    match &inverse {
        EditCommand::BatchEdit(v) => {
            assert_eq!(v.len(), 2);
            assert!(matches!(v[0], EditCommand::UpdateField { .. }));
            assert!(matches!(v[1], EditCommand::RemoveEntity { .. }));
        }
        _ => panic!("wrong inverse"),
    }
    inverse.execute(&mut state).unwrap();
    assert!(!state.contains(panel(1)));
}

#[test]
fn failing_batch_keeps_earlier_commands() {
    let mut state = store();
    let batch = EditCommand::BatchEdit(vec![
        EditCommand::AddEntity { entity: panel(1), fields: Vec::new() },
        EditCommand::AddEntity { entity: panel(1), fields: Vec::new() },
    ]);
    let r = batch.execute(&mut state);
    assert!(matches!(r, Err(EditError::Build { .. })));
    assert!(state.contains(panel(1)));
}

#[test]
fn move_panel_wraps_inverse() {
    let mut state = store();
    add_panel(&mut state, 1, "Opening");
    let cmd = EditCommand::MovePanel(Box::new(EditCommand::UpdateField {
        entity: panel(1),
        field: "room",
        old_value: FieldValue::Integer(3),
        new_value: FieldValue::Integer(4),
    }));
    let inverse = cmd.execute(&mut state).unwrap();
    assert!(matches!(state.field_value(panel(1), "room"), Some(FieldValue::Integer(4))));
    assert!(matches!(inverse, EditCommand::MovePanel(_)));
    inverse.execute(&mut state).unwrap();
    assert!(matches!(state.field_value(panel(1), "room"), Some(FieldValue::Integer(3))));
}

#[test]
fn add_to_field_inverse_unlinks_only_added() {
    let mut state = store();
    let edge = plain_edge();
    EditCommand::AddToField { near: panel(1), edge, items: FieldValue::Entities(vec![presenter(10)]) }
        .execute(&mut state)
        .unwrap();
    let inverse = EditCommand::AddToField {
        near: panel(1),
        edge,
        items: FieldValue::Entities(vec![presenter(10), presenter(11), presenter(11)]),
    }
    .execute(&mut state)
    .unwrap();
    assert_eq!(state.neighbors(panel(1), edge), vec![presenter(10), presenter(11)]);
    match &inverse {
        EditCommand::RemoveFromField { items: FieldValue::Entities(v), .. } => assert_eq!(v, &vec![presenter(11)]),
        _ => panic!("wrong inverse"),
    }
    inverse.execute(&mut state).unwrap();
    assert_eq!(state.neighbors(panel(1), edge), vec![presenter(10)]);
    assert_eq!(state.neighbors(presenter(11), edge.flip()), Vec::<RuntimeEntityId>::new());
}

#[test]
fn add_to_exclusive_field_unlinks_sibling() {
    let mut state = store();
    EditCommand::AddToField {
        near: panel(1),
        edge: uncredited_edge(),
        items: FieldValue::Entities(vec![presenter(10), presenter(12)]),
    }
    .execute(&mut state)
    .unwrap();
    EditCommand::AddToField {
        near: panel(1),
        edge: credited_edge(),
        items: FieldValue::Entities(vec![presenter(10)]),
    }
    .execute(&mut state)
    .unwrap();
    assert_eq!(state.neighbors(panel(1), credited_edge()), vec![presenter(10)]);
    assert_eq!(state.neighbors(panel(1), uncredited_edge()), vec![presenter(12)]);
}

#[test]
fn edge_errors() {
    let mut state = store();
    let r = EditCommand::AddToField { near: panel(1), edge: plain_edge(), items: FieldValue::Integer(1) }
        .execute(&mut state);
    assert!(matches!(r, Err(EditError::EdgeAdd { .. })));
    let r = EditCommand::AddToField {
        near: presenter(1),
        edge: plain_edge(),
        items: FieldValue::Entities(vec![presenter(2)]),
    }
    .execute(&mut state);
    assert!(matches!(r, Err(EditError::EdgeAdd { .. })));
    let r = EditCommand::RemoveFromField { near: panel(1), edge: plain_edge(), items: FieldValue::Empty }
        .execute(&mut state);
    assert!(matches!(r, Err(EditError::EdgeAdd { .. })));
}

#[test]
fn remove_entity_drops_its_edges() {
    let mut state = store();
    add_panel(&mut state, 1, "Opening");
    let edge = plain_edge();
    EditCommand::AddToField { near: panel(1), edge, items: FieldValue::Entities(vec![presenter(10)]) }
        .execute(&mut state)
        .unwrap();
    let fields = snapshot_entity(&state, panel(1)).unwrap();
    EditCommand::RemoveEntity { entity: panel(1), fields }.execute(&mut state).unwrap();
    assert!(!state.contains(panel(1)));
    assert_eq!(state.neighbors(presenter(10), edge.flip()), Vec::<RuntimeEntityId>::new());
}

#[test]
fn snapshot_and_add_entity_cmd() {
    let mut state = store();
    add_panel(&mut state, 1, "Opening");
    let fields = snapshot_entity(&state, panel(1)).unwrap();
    assert_eq!(fields.len(), 2);
    assert_eq!(fields[0].0, "title");
    assert!(snapshot_entity(&state, panel(2)).unwrap().is_empty());
    let unknown = RuntimeEntityId::new_unchecked(nnu(1), "room");
    assert!(matches!(snapshot_entity(&state, unknown), Err(EditError::UnknownEntityType("room"))));
    assert!(matches!(add_entity_cmd(&state, panel(1)), Ok(EditCommand::AddEntity { .. })));
}

#[test]
fn update_field_cmd_captures_current_value() {
    let mut state = store();
    add_panel(&mut state, 1, "Opening");
    let mut ctx = EditContext::new(state);
    let cmd = ctx.update_field_cmd(panel(1), "title", FieldValue::Text("Late".to_string())).unwrap();
    match &cmd {
        EditCommand::UpdateField { old_value: FieldValue::Text(o), .. } => assert_eq!(o, "Opening"),
        _ => panic!("wrong command"),
    }
    let inverse = cmd.execute(ctx.schedule_mut()).unwrap();
    assert_eq!(text(ctx.schedule().field_value(panel(1), "title")), Some("Late".to_string()));
    inverse.execute(ctx.schedule_mut()).unwrap();
    assert_eq!(text(ctx.schedule().field_value(panel(1), "title")), Some("Opening".to_string()));
    assert!(matches!(
        ctx.update_field_cmd(panel(2), "title", FieldValue::Empty),
        Err(EditError::EntityNotFound(_))
    ));
    assert!(matches!(
        ctx.update_field_cmd(panel(1), "nope", FieldValue::Empty),
        Err(EditError::FieldRead { field: "nope", .. })
    ));
}

#[test]
fn remove_entity_cmd_snapshots_and_restores() {
    let mut state = store();
    add_panel(&mut state, 1, "Opening");
    let mut ctx = EditContext::new(state);
    let cmd = ctx.remove_entity_cmd(panel(1)).unwrap();
    let inverse = cmd.execute(ctx.schedule_mut()).unwrap();
    assert!(!ctx.schedule().contains(panel(1)));
    inverse.execute(ctx.schedule_mut()).unwrap();
    assert_eq!(text(ctx.schedule().field_value(panel(1), "title")), Some("Opening".to_string()));
    match ctx.remove_entity_cmd(panel(5)).unwrap() {
        EditCommand::RemoveEntity { fields, .. } => assert!(fields.is_empty()),
        _ => panic!("wrong command"),
    }
}

#[test]
fn move_panel_cmd_is_a_batch_of_two_updates() {
    let mut state = store();
    add_panel(&mut state, 1, "Opening");
    let mut ctx = EditContext::new(state);
    let cmd = ctx
        .move_panel_cmd(panel(1), "title", FieldValue::Text("Moved".to_string()), "room", FieldValue::Integer(8))
        .unwrap();
    let inverse = cmd.execute(ctx.schedule_mut()).unwrap();
    assert!(matches!(ctx.schedule().field_value(panel(1), "room"), Some(FieldValue::Integer(8))));
    inverse.execute(ctx.schedule_mut()).unwrap();
    assert!(matches!(ctx.schedule().field_value(panel(1), "room"), Some(FieldValue::Integer(3))));
    assert_eq!(text(ctx.schedule().field_value(panel(1), "title")), Some("Opening".to_string()));
}

#[test]
fn edge_command_constructors() {
    let ctx = EditContext::new(store());
    let add = ctx.add_to_field_cmd(panel(1), plain_edge(), FieldValue::Entities(vec![presenter(2)]));
    assert!(matches!(add, EditCommand::AddToField { .. }));
    let remove = ctx.remove_from_field_cmd(panel(1), plain_edge(), FieldValue::Empty);
    assert!(matches!(remove, EditCommand::RemoveFromField { items: FieldValue::Empty, .. }));
}

#[test]
fn remove_from_field_undo_restores_members_at_the_end() {
    let mut state = store();
    let edge = plain_edge();
    EditCommand::AddToField {
        near: panel(1),
        edge,
        items: FieldValue::Entities(vec![presenter(10), presenter(11), presenter(12)]),
    }
    .execute(&mut state)
    .unwrap();
    let inverse = EditCommand::RemoveFromField {
        near: panel(1),
        edge,
        items: FieldValue::Entities(vec![presenter(10), presenter(99)]),
    }
    .execute(&mut state)
    .unwrap();
    assert_eq!(state.neighbors(panel(1), edge), vec![presenter(11), presenter(12)]);
    inverse.execute(&mut state).unwrap();
    assert_eq!(state.neighbors(panel(1), edge), vec![presenter(11), presenter(12), presenter(10)]);
    assert_eq!(state.neighbors(presenter(10), edge.flip()), vec![panel(1)]);
}
