use schedule_core::edit::context::EditContext;

fn bytes(s: &str) -> Vec<Vec<u8>> {
    vec![s.as_bytes().to_vec()]
}

#[test]
fn new_context_is_clean_and_empty() {
    let ctx = EditContext::new(String::from("doc"));
    assert!(!ctx.is_dirty());
    assert_eq!(ctx.undo_depth(), 0);
    assert_eq!(ctx.redo_depth(), 0);
    assert_eq!(ctx.schedule(), "doc");
}

#[test]
fn step_without_changes_is_not_recorded() {
    let mut ctx = EditContext::new(0u32);
    assert!(!ctx.record_step("noop".to_string(), Vec::new(), Vec::new()));
    assert!(!ctx.is_dirty());
    assert_eq!(ctx.undo_depth(), 0);
}

#[test]
fn recorded_step_is_undoable_and_dirty() {
    let mut ctx = EditContext::new(0u32);
    *ctx.schedule_mut() = 1;
    assert!(ctx.record_step("Set to one".to_string(), Vec::new(), bytes("1")));
    assert!(ctx.is_dirty());
    assert_eq!(ctx.undo_label(), Some("Set to one"));
    ctx.mark_clean();
    assert!(!ctx.is_dirty());
}

#[test]
fn undo_then_redo() {
    let mut ctx = EditContext::new(0u32);
    *ctx.schedule_mut() = 1;
    ctx.record_step("a".to_string(), Vec::new(), bytes("a"));
    *ctx.schedule_mut() = 2;
    ctx.record_step("b".to_string(), Vec::new(), bytes("b"));
    assert_eq!(ctx.dirty_count(), 2);

    let entry = ctx.take_undo().unwrap();
    assert_eq!(entry.label, "b");
    ctx.finish_undo(1, entry);
    assert_eq!(*ctx.schedule(), 1);
    assert_eq!(ctx.dirty_count(), 1);
    assert_eq!(ctx.redo_label(), Some("b"));

    let entry = ctx.take_redo().unwrap();
    *ctx.schedule_mut() = 2;
    ctx.finish_redo(entry);
    assert_eq!(ctx.dirty_count(), 2);
    assert_eq!(ctx.undo_label(), Some("b"));
    assert_eq!(ctx.redo_depth(), 0);
}

#[test]
fn new_step_discards_redo_branch() {
    let mut ctx = EditContext::with_history_depth(0u32, 5);
    ctx.record_step("a".to_string(), Vec::new(), bytes("a"));
    let e = ctx.take_undo().unwrap();
    ctx.finish_undo(0, e);
    assert_eq!(ctx.redo_depth(), 1);
    ctx.record_step("c".to_string(), Vec::new(), bytes("c"));
    assert_eq!(ctx.redo_depth(), 0);
    assert!(ctx.take_redo().is_none());
}

#[test]
fn undo_after_save_keeps_counter_at_zero() {
    let mut ctx = EditContext::new(0u32);
    ctx.record_step("a".to_string(), Vec::new(), bytes("a"));
    ctx.mark_clean();
    let e = ctx.take_undo().unwrap();
    ctx.finish_undo(0, e);
    assert!(!ctx.is_dirty());
    let e = ctx.take_redo().unwrap();
    ctx.finish_redo(e);
    assert!(ctx.is_dirty());
}
