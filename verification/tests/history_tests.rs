use schedule_core::edit::history::{EditHistory, UndoEntry, DEFAULT_MAX_DEPTH};

fn entry(label: &str) -> UndoEntry {
    UndoEntry { label: label.to_string(), pre_heads: Vec::new(), changes: vec![label.as_bytes().to_vec()] }
}

#[test]
fn new_history_is_empty() {
    let h = EditHistory::default();
    assert_eq!(h.undo_depth(), 0);
    assert_eq!(h.redo_depth(), 0);
    assert_eq!(h.undo_label(), None);
    assert_eq!(h.redo_label(), None);
    assert_eq!(DEFAULT_MAX_DEPTH, 100);
}

#[test]
fn push_and_pop_undo_in_stack_order() {
    let mut h = EditHistory::with_max_depth(10);
    h.push_undo(entry("first"));
    h.push_undo(entry("second"));
    assert_eq!(h.undo_depth(), 2);
    assert_eq!(h.undo_label(), Some("second"));
    let e = h.pop_undo().unwrap();
    assert_eq!(e.label, "second");
    assert_eq!(h.undo_label(), Some("first"));
    assert_eq!(h.pop_undo().unwrap().label, "first");
    assert!(h.pop_undo().is_none());
}

#[test]
fn push_at_capacity_drops_oldest() {
    let mut h = EditHistory::with_max_depth(2);
    h.push_undo(entry("a"));
    h.push_undo(entry("b"));
    h.push_undo(entry("c"));
    assert_eq!(h.undo_depth(), 2);
    assert_eq!(h.pop_undo().unwrap().label, "c");
    assert_eq!(h.pop_undo().unwrap().label, "b");
    assert!(h.pop_undo().is_none());
}

#[test]
fn undo_then_redo_moves_the_entry_back() {
    let mut h = EditHistory::with_max_depth(5);
    h.push_undo(entry("edit"));
    let e = h.pop_undo().unwrap();
    h.push_redo(e);
    assert_eq!(h.undo_depth(), 0);
    assert_eq!(h.redo_depth(), 1);
    assert_eq!(h.redo_label(), Some("edit"));
    let e = h.pop_redo().unwrap();
    assert_eq!(e.changes, vec![b"edit".to_vec()]);
    h.push_undo(e);
    assert_eq!(h.undo_label(), Some("edit"));
    assert_eq!(h.redo_depth(), 0);
}

#[test]
fn push_undo_keeps_redo_until_cleared() {
    let mut h = EditHistory::with_max_depth(5);
    h.push_redo(entry("r"));
    h.push_undo(entry("u"));
    assert_eq!(h.redo_depth(), 1);
    h.clear_redo();
    assert_eq!(h.redo_depth(), 0);
    assert_eq!(h.undo_depth(), 1);
    assert!(h.pop_redo().is_none());
}

#[test]
fn zero_capacity_history_still_records() {
    let mut h = EditHistory::with_max_depth(0);
    h.push_undo(entry("a"));
    h.push_undo(entry("b"));
    assert_eq!(h.undo_depth(), 2);
}

#[test]
fn undo_depth_never_exceeds_capacity() {
    let mut h = EditHistory::with_max_depth(3);
    for i in 0..10 {
        h.push_undo(entry(&format!("step {i}")));
        assert!(h.undo_depth() <= 3);
    }
    assert_eq!(h.undo_depth(), 3);
    assert_eq!(h.undo_label(), Some("step 9"));
}
