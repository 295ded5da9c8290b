use schedule_core::edit::command::{add_entity_cmd, EditCommand, EditError, EntityState, FieldValue};
use schedule_core::edit::session::{EditContext, EditHistory};
use schedule_core::ids::{NonNilUuid, RuntimeEntityId};

const PANEL_TYPE: &str = "panel_type";

fn panel_type(n: u128) -> RuntimeEntityId {
    RuntimeEntityId::new_unchecked(NonNilUuid::new(n).unwrap(), PANEL_TYPE)
}

fn text(s: &str) -> FieldValue {
    FieldValue::Text(s.to_string())
}

fn read(ctx: &EditContext, id: RuntimeEntityId, field: &str) -> Option<String> {
    match ctx.schedule().field_value(id, field) {
        Some(FieldValue::Text(s)) => Some(s),
        _ => None,
    }
}

/// A store holding panel type `n` with the given prefix and kind.
fn store_with(n: u128, prefix: &str, kind: &str) -> EntityState {
    let mut sched = EntityState::new(vec![PANEL_TYPE]);
    EditCommand::AddEntity {
        entity: panel_type(n),
        fields: vec![("prefix", text(prefix)), ("panel_kind", text(kind))],
    }
    .execute(&mut sched)
    .expect("build_entity succeeded");
    sched
}

fn make_panel_type_in_context() -> (EditContext, RuntimeEntityId) {
    (EditContext::new(store_with(1, "GP", "Guest Panel")), panel_type(1))
}

#[test]
fn update_field_applies_and_undoes() {
    let (mut ctx, entity) = make_panel_type_in_context();
    let cmd = ctx.update_field_cmd(entity, "prefix", text("AA")).expect("cmd built");
    ctx.apply(cmd).expect("apply succeeded");
    assert_eq!(read(&ctx, entity, "prefix").expect("entity present"), "AA");
    ctx.undo().expect("undo succeeded");
    assert_eq!(read(&ctx, entity, "prefix").expect("entity present"), "GP");
}

#[test]
fn update_field_redo_reapplies() {
    let (mut ctx, entity) = make_panel_type_in_context();
    let cmd = ctx.update_field_cmd(entity, "prefix", text("BB")).expect("cmd built");
    ctx.apply(cmd).expect("apply");
    ctx.undo().expect("undo");
    ctx.redo().expect("redo");
    assert_eq!(read(&ctx, entity, "prefix").expect("entity present"), "BB");
}

#[test]
fn apply_after_undo_clears_redo() {
    let (mut ctx, entity) = make_panel_type_in_context();
    let cmd1 = ctx.update_field_cmd(entity, "prefix", text("C1")).unwrap();
    ctx.apply(cmd1).unwrap();
    ctx.undo().unwrap();
    assert_eq!(ctx.redo_depth(), 1);
    let cmd2 = ctx.update_field_cmd(entity, "prefix", text("C2")).unwrap();
    ctx.apply(cmd2).unwrap();
    assert_eq!(ctx.redo_depth(), 0, "redo stack should be cleared");
}

#[test]
fn add_entity_undo_removes_it() {
    let built = store_with(7, "GP", "Guest Panel");
    let add_cmd = add_entity_cmd(&built, panel_type(7)).expect("add_entity_cmd");
    let mut ctx = EditContext::new(EntityState::new(vec![PANEL_TYPE]));
    ctx.apply(add_cmd).expect("apply add");
    assert_eq!(ctx.schedule().entity_count(), 1);
    ctx.undo().expect("undo add");
    assert_eq!(ctx.schedule().entity_count(), 0);
}

#[test]
fn add_entity_undo_then_redo_restores_same_uuid() {
    let built = store_with(7, "GP", "Guest Panel");
    let add_cmd = add_entity_cmd(&built, panel_type(7)).expect("add_entity_cmd");
    let mut ctx = EditContext::new(EntityState::new(vec![PANEL_TYPE]));
    ctx.apply(add_cmd).expect("apply");
    ctx.undo().expect("undo");
    ctx.redo().expect("redo");
    assert_eq!(ctx.schedule().entity_count(), 1);
    assert!(ctx.schedule().contains(panel_type(7)), "entity restored with same UUID");
}

#[test]
fn remove_entity_undo_restores_entity() {
    let (mut ctx, entity) = make_panel_type_in_context();
    let remove_cmd = ctx.remove_entity_cmd(entity).expect("remove_entity_cmd");
    ctx.apply(remove_cmd).expect("apply remove");
    assert_eq!(ctx.schedule().entity_count(), 0);
    ctx.undo().expect("undo remove");
    assert_eq!(ctx.schedule().entity_count(), 1);
    assert_eq!(read(&ctx, entity, "prefix").expect("entity restored"), "GP");
}

#[test]
fn batch_edit_applies_atomically_and_undoes_in_reverse() {
    let (mut ctx, entity) = make_panel_type_in_context();
    let cmd1 = ctx.update_field_cmd(entity, "prefix", text("B1")).unwrap();
    let cmd2 = ctx.update_field_cmd(entity, "panel_kind", text("Workshop")).unwrap();
    ctx.apply(EditCommand::BatchEdit(vec![cmd1, cmd2])).expect("apply batch");
    assert_eq!(read(&ctx, entity, "prefix").unwrap(), "B1");
    assert_eq!(read(&ctx, entity, "panel_kind").unwrap(), "Workshop");
    ctx.undo().expect("undo batch");
    assert_eq!(read(&ctx, entity, "prefix").unwrap(), "GP");
    assert_eq!(read(&ctx, entity, "panel_kind").unwrap(), "Guest Panel");
}

#[test]
fn batch_edit_redo_reapplies_all() {
    let (mut ctx, entity) = make_panel_type_in_context();
    let cmd1 = ctx.update_field_cmd(entity, "prefix", text("C1")).unwrap();
    let cmd2 = ctx.update_field_cmd(entity, "panel_kind", text("Concert")).unwrap();
    ctx.apply(EditCommand::BatchEdit(vec![cmd1, cmd2])).unwrap();
    ctx.undo().unwrap();
    ctx.redo().unwrap();
    assert_eq!(read(&ctx, entity, "prefix").unwrap(), "C1");
    assert_eq!(read(&ctx, entity, "panel_kind").unwrap(), "Concert");
}

#[test]
fn dirty_state_tracks_correctly() {
    let (mut ctx, entity) = make_panel_type_in_context();
    assert!(!ctx.is_dirty());
    let cmd = ctx.update_field_cmd(entity, "prefix", text("X")).unwrap();
    ctx.apply(cmd).unwrap();
    assert!(ctx.is_dirty());
    ctx.mark_clean();
    assert!(!ctx.is_dirty());
    ctx.undo().unwrap();
    assert!(!ctx.is_dirty());
}

#[test]
fn history_respects_max_depth() {
    let mut ctx = EditContext::with_history_depth(EntityState::new(vec![PANEL_TYPE]), 3);
    for i in 0u8..5 {
        let n = 100 + i as u128;
        let built = store_with(n, &format!("P{i}"), "Kind");
        let add_cmd = add_entity_cmd(&built, panel_type(n)).expect("add cmd");
        let _ = ctx.apply(add_cmd);
    }
    assert_eq!(ctx.undo_depth(), 3, "undo stack should not exceed max_depth");
}

#[test]
fn undo_on_empty_stack_returns_error() {
    let mut ctx = EditContext::new(EntityState::new(vec![PANEL_TYPE]));
    assert!(matches!(ctx.undo(), Err(EditError::NothingToUndo)));
}

#[test]
fn redo_on_empty_stack_returns_error() {
    let mut ctx = EditContext::new(EntityState::new(vec![PANEL_TYPE]));
    assert!(matches!(ctx.redo(), Err(EditError::NothingToRedo)));
}

#[test]
fn session_apply_then_undo_restores_store() {
    let (mut ctx, entity) = make_panel_type_in_context();
    let cmd = ctx.update_field_cmd(entity, "panel_kind", text("Concert")).unwrap();
    ctx.apply(cmd).unwrap();
    ctx.undo().unwrap();
    assert_eq!(read(&ctx, entity, "panel_kind").unwrap(), "Guest Panel");
    assert_eq!(ctx.undo_depth(), 0);
    assert_eq!(ctx.redo_depth(), 1);
}

#[test]
fn session_redo_keeps_older_redo_steps() {
    let (mut ctx, entity) = make_panel_type_in_context();
    let cmd1 = ctx.update_field_cmd(entity, "prefix", text("A1")).unwrap();
    ctx.apply(cmd1).unwrap();
    let cmd2 = ctx.update_field_cmd(entity, "prefix", text("A2")).unwrap();
    ctx.apply(cmd2).unwrap();
    ctx.undo().unwrap();
    ctx.undo().unwrap();
    assert_eq!(ctx.redo_depth(), 2);
    ctx.redo().unwrap();
    assert_eq!(read(&ctx, entity, "prefix").unwrap(), "A1");
    assert_eq!(ctx.redo_depth(), 1);
    ctx.redo().unwrap();
    assert_eq!(read(&ctx, entity, "prefix").unwrap(), "A2");
}

#[test]
fn session_failed_apply_leaves_history() {
    let (mut ctx, _) = make_panel_type_in_context();
    let missing = EditCommand::UpdateField {
        entity: panel_type(99),
        field: "prefix",
        old_value: FieldValue::Empty,
        new_value: text("Z"),
    };
    assert!(matches!(ctx.apply(missing), Err(EditError::FieldWrite { .. })));
    assert_eq!(ctx.undo_depth(), 0);
    assert!(!ctx.is_dirty());
}

#[test]
fn session_history_default_depth() {
    let h = EditHistory::default();
    assert_eq!(h.undo_depth(), 0);
    assert_eq!(h.redo_depth(), 0);
}

#[test]
fn session_move_panel_cmd_updates_both_fields() {
    let (mut ctx, entity) = make_panel_type_in_context();
    let cmd = ctx.move_panel_cmd(entity, "prefix", text("T9"), "panel_kind", text("Room 9")).unwrap();
    ctx.apply(cmd).unwrap();
    assert_eq!(read(&ctx, entity, "prefix").unwrap(), "T9");
    assert_eq!(read(&ctx, entity, "panel_kind").unwrap(), "Room 9");
    ctx.undo().unwrap();
    assert_eq!(read(&ctx, entity, "prefix").unwrap(), "GP");
}
