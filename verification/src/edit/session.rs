//! The command-based edit facade: an entity store with an undo and a redo
//! stack of commands.
//!
//! Applying a command runs it and keeps the inverse it returns for undo;
//! undoing runs that inverse and keeps what it returns for redo; redoing
//! runs that and keeps its inverse for undo again.  Every successful apply
//! or redo counts as an unsaved change, every successful undo as one fewer.

use vstd::prelude::*;
use crate::edit::command::{
    CommandView, EditCommand, EditError, EntityState, FieldValue, StateView, build_move_panel,
    build_remove_entity, build_update_field, move_panel_view, remove_entity_view, result_view,
    step, update_field_view,
};
use crate::edit::history::DEFAULT_MAX_DEPTH;
use crate::edit::undo::{lemma_inverse_restores, undoable};
use crate::ids::RuntimeEntityId;

verus! {

/// The views of a stack of commands.
pub open spec fn stack_view(s: Seq<EditCommand>) -> Seq<CommandView> {
    s.map_values(|c: EditCommand| c@)
}

/// The undo stack after pushing `c` with capacity `max`: when the stack is
/// full the oldest command is dropped.
pub open spec fn push_capped(s: Seq<CommandView>, max: nat, c: CommandView) -> Seq<CommandView> {
    if s.len() == max && max > 0 {
        s.drop_first().push(c)
    } else {
        s.push(c)
    }
}

/// Abstract value of an [`EditHistory`].
pub struct HistoryView {
    pub undo: Seq<CommandView>,
    pub redo: Seq<CommandView>,
    pub max: nat,
}

/// Stack-based undo/redo history of commands.  The undo stack holds the
/// inverses of the steps applied, the redo stack the commands that redo
/// the steps undone; the newest is last.
#[derive(Debug)]
pub struct EditHistory {
    undo_stack: Vec<EditCommand>,
    redo_stack: Vec<EditCommand>,
    max_depth: usize,
}

impl View for EditHistory {
    type V = HistoryView;

    closed spec fn view(&self) -> HistoryView {
        HistoryView {
            undo: stack_view(self.undo_stack@),
            redo: stack_view(self.redo_stack@),
            max: self.max_depth as nat,
        }
    }
}

impl EditHistory {
    /// A history with empty stacks and the given maximum depth.
    pub fn with_max_depth(max_depth: usize) -> (r: EditHistory)
        ensures
            r@.undo == Seq::<CommandView>::empty(),
            r@.redo == Seq::<CommandView>::empty(),
            r@.max == max_depth,
    {
        let r = EditHistory { undo_stack: Vec::new(), redo_stack: Vec::new(), max_depth };
        assert(r@.undo =~= Seq::<CommandView>::empty());
        assert(r@.redo =~= Seq::<CommandView>::empty());
        r
    }

    /// Push a command onto the undo stack, dropping the oldest when full.
    fn push_undo(&mut self, c: EditCommand)
        ensures
            final(self)@.undo == push_capped(old(self)@.undo, old(self)@.max, c@),
            final(self)@.redo == old(self)@.redo,
            final(self)@.max == old(self)@.max,
    {
        let ghost u0 = old(self)@.undo;
        if self.undo_stack.len() == self.max_depth && self.max_depth > 0 {
            let _dropped = self.undo_stack.remove(0);
            assert(stack_view(self.undo_stack@) =~= u0.drop_first());
        }
        let ghost s1 = self.undo_stack@;
        self.undo_stack.push(c);
        assert(stack_view(self.undo_stack@) =~= stack_view(s1).push(c@));
    }

    /// Empty the redo stack.
    fn clear_redo(&mut self)
        ensures
            final(self)@.undo == old(self)@.undo,
            final(self)@.redo == Seq::<CommandView>::empty(),
            final(self)@.max == old(self)@.max,
    {
        self.redo_stack = Vec::new();
        assert(self@.redo =~= Seq::<CommandView>::empty());
    }

    /// Pop the newest command of the undo stack.
    fn pop_undo(&mut self) -> (r: Option<EditCommand>)
        ensures
            final(self)@.redo == old(self)@.redo,
            final(self)@.max == old(self)@.max,
            old(self)@.undo.len() == 0 ==> r is None && final(self)@.undo == old(self)@.undo,
            old(self)@.undo.len() > 0 ==> {
                &&& r matches Some(c) && c@ == old(self)@.undo.last()
                &&& final(self)@.undo == old(self)@.undo.drop_last()
            },
    {
        let ghost s0 = self.undo_stack@;
        let r = self.undo_stack.pop();
        proof {
            if s0.len() > 0 {
                assert(stack_view(self.undo_stack@) =~= stack_view(s0).drop_last());
            }
        }
        r
    }

    /// Push a command onto the redo stack.
    fn push_redo(&mut self, c: EditCommand)
        ensures
            final(self)@.undo == old(self)@.undo,
            final(self)@.redo == old(self)@.redo.push(c@),
            final(self)@.max == old(self)@.max,
    {
        let ghost s0 = self.redo_stack@;
        self.redo_stack.push(c);
        assert(stack_view(self.redo_stack@) =~= stack_view(s0).push(c@));
    }

    /// Pop the newest command of the redo stack.
    fn pop_redo(&mut self) -> (r: Option<EditCommand>)
        ensures
            final(self)@.undo == old(self)@.undo,
            final(self)@.max == old(self)@.max,
            old(self)@.redo.len() == 0 ==> r is None && final(self)@.redo == old(self)@.redo,
            old(self)@.redo.len() > 0 ==> {
                &&& r matches Some(c) && c@ == old(self)@.redo.last()
                &&& final(self)@.redo == old(self)@.redo.drop_last()
            },
    {
        let ghost s0 = self.redo_stack@;
        let r = self.redo_stack.pop();
        proof {
            if s0.len() > 0 {
                assert(stack_view(self.redo_stack@) =~= stack_view(s0).drop_last());
            }
        }
        r
    }

    /// Number of steps that can be undone.
    pub fn undo_depth(&self) -> (r: usize)
        ensures
            r == self@.undo.len(),
    {
        self.undo_stack.len()
    }

    /// Number of steps that can be redone.
    pub fn redo_depth(&self) -> (r: usize)
        ensures
            r == self@.redo.len(),
    {
        self.redo_stack.len()
    }
}

impl Default for EditHistory {
    fn default() -> (r: EditHistory)
        ensures
            r@.undo == Seq::<CommandView>::empty(),
            r@.redo == Seq::<CommandView>::empty(),
            r@.max == DEFAULT_MAX_DEPTH,
    {
        EditHistory::with_max_depth(DEFAULT_MAX_DEPTH)
    }
}

/// With a positive capacity, pushing never lets the undo stack grow past it,
/// and the pushed command is the next one to be undone.
pub proof fn lemma_push_capped_bound(s: Seq<CommandView>, max: nat, c: CommandView)
    requires
        max > 0,
        s.len() <= max,
    ensures
        push_capped(s, max, c).len() <= max,
        push_capped(s, max, c).last() == c,
{
}

/// Abstract value of an [`EditContext`]: the store, the two stacks, the
/// undo capacity and the number of unsaved changes.
pub struct SessionView {
    pub state: StateView,
    pub undo: Seq<CommandView>,
    pub redo: Seq<CommandView>,
    pub max: nat,
    pub dirty: nat,
}

/// Applying `c`: it runs on the store; when it succeeds its inverse is
/// pushed for undo, the redo stack is cleared and one more change is
/// unsaved.  When it fails the store is left as the failed run left it and
/// the history is untouched.
pub open spec fn applied(v: SessionView, c: CommandView) -> (SessionView, Result<(), EditError>) {
    let r = step(v.state, c);
    match r.1 {
        Ok(inv) => (
            SessionView {
                state: r.0,
                undo: push_capped(v.undo, v.max, inv),
                redo: Seq::empty(),
                max: v.max,
                dirty: v.dirty + 1,
            },
            Ok(()),
        ),
        Err(e) => (SessionView { state: r.0, ..v }, Err(e)),
    }
}

/// Undoing: with an empty undo stack, `NothingToUndo` and no change.
/// Otherwise the newest inverse is taken off the stack and run; when it
/// succeeds what it returns goes on the redo stack and one change fewer is
/// unsaved (never below zero).
pub open spec fn undone(v: SessionView) -> (SessionView, Result<(), EditError>) {
    if v.undo.len() == 0 {
        (v, Err(EditError::NothingToUndo))
    } else {
        let r = step(v.state, v.undo.last());
        match r.1 {
            Ok(re) => (
                SessionView {
                    state: r.0,
                    undo: v.undo.drop_last(),
                    redo: v.redo.push(re),
                    max: v.max,
                    dirty: if v.dirty > 0 {
                        (v.dirty - 1) as nat
                    } else {
                        0
                    },
                },
                Ok(()),
            ),
            Err(e) => (SessionView { state: r.0, undo: v.undo.drop_last(), ..v }, Err(e)),
        }
    }
}

/// Redoing: with an empty redo stack, `NothingToRedo` and no change.
/// Otherwise the newest redo command is taken off the stack and run; when
/// it succeeds its inverse goes on the undo stack and one more change is
/// unsaved.
pub open spec fn redone(v: SessionView) -> (SessionView, Result<(), EditError>) {
    if v.redo.len() == 0 {
        (v, Err(EditError::NothingToRedo))
    } else {
        let r = step(v.state, v.redo.last());
        match r.1 {
            Ok(inv) => (
                SessionView {
                    state: r.0,
                    undo: push_capped(v.undo, v.max, inv),
                    redo: v.redo.drop_last(),
                    max: v.max,
                    dirty: v.dirty + 1,
                },
                Ok(()),
            ),
            Err(e) => (SessionView { state: r.0, redo: v.redo.drop_last(), ..v }, Err(e)),
        }
    }
}

/// An entity store with its command history and a count of unsaved
/// changes.  Every change goes through [`apply`](Self::apply), so that it
/// can be undone.
#[derive(Debug)]
pub struct EditContext {
    schedule: EntityState,
    history: EditHistory,
    dirty_count: usize,
}

impl View for EditContext {
    type V = SessionView;

    closed spec fn view(&self) -> SessionView {
        SessionView {
            state: self.schedule@,
            undo: self.history@.undo,
            redo: self.history@.redo,
            max: self.history@.max,
            dirty: self.dirty_count as nat,
        }
    }
}

impl EditContext {
    /// The store's edges are well formed.
    pub closed spec fn wf(&self) -> bool {
        self.schedule.wf()
    }

    /// Wrap a store with an empty history of the default depth.
    pub fn new(schedule: EntityState) -> (r: EditContext)
        requires
            schedule.wf(),
        ensures
            r.wf(),
            r@ == (SessionView {
                state: schedule@,
                undo: Seq::empty(),
                redo: Seq::empty(),
                max: DEFAULT_MAX_DEPTH as nat,
                dirty: 0,
            }),
    {
        EditContext { schedule, history: EditHistory::default(), dirty_count: 0 }
    }

    /// Wrap a store with an empty history of the given depth.
    pub fn with_history_depth(schedule: EntityState, max_depth: usize) -> (r: EditContext)
        requires
            schedule.wf(),
        ensures
            r.wf(),
            r@ == (SessionView {
                state: schedule@,
                undo: Seq::empty(),
                redo: Seq::empty(),
                max: max_depth as nat,
                dirty: 0,
            }),
    {
        EditContext { schedule, history: EditHistory::with_max_depth(max_depth), dirty_count: 0 }
    }

    /// Borrow the store for reading.
    pub fn schedule(&self) -> (r: &EntityState)
        ensures
            r@ == self@.state,
            self.wf() ==> r.wf(),
    {
        &self.schedule
    }

    /// `true` when there are changes since the last
    /// [`mark_clean`](Self::mark_clean).
    pub fn is_dirty(&self) -> (r: bool)
        ensures
            r == (self@.dirty > 0),
    {
        self.dirty_count > 0
    }

    /// Mark the current state as saved.
    pub fn mark_clean(&mut self)
        ensures
            final(self).wf() == old(self).wf(),
            final(self)@ == (SessionView { dirty: 0, ..old(self)@ }),
    {
        self.dirty_count = 0;
    }

    /// Number of steps that can be undone.
    pub fn undo_depth(&self) -> (r: usize)
        ensures
            r == self@.undo.len(),
    {
        self.history.undo_depth()
    }

    /// Number of steps that can be redone.
    pub fn redo_depth(&self) -> (r: usize)
        ensures
            r == self@.redo.len(),
    {
        self.history.redo_depth()
    }

    /// Run a command and keep its inverse for undo (see [`applied`]).
    pub fn apply(&mut self, cmd: EditCommand) -> (r: Result<(), EditError>)
        requires
            old(self).wf(),
            old(self)@.dirty < usize::MAX,
        ensures
            final(self).wf(),
            (final(self)@, r) == applied(old(self)@, cmd@),
    {
        let ghost c = cmd@;
        let inverse = match cmd.execute(&mut self.schedule) {
            Ok(inv) => inv,
            Err(e) => return Err(e),
        };
        self.history.push_undo(inverse);
        self.history.clear_redo();
        self.dirty_count = self.dirty_count + 1;
        Ok(())
    }

    /// Undo the most recent step (see [`undone`]).
    pub fn undo(&mut self) -> (r: Result<(), EditError>)
        requires
            old(self).wf(),
        ensures
            final(self).wf(),
            (final(self)@, r) == undone(old(self)@),
    {
        let undo_cmd = match self.history.pop_undo() {
            Some(c) => c,
            None => return Err(EditError::NothingToUndo),
        };
        let redo_cmd = match undo_cmd.execute(&mut self.schedule) {
            Ok(c) => c,
            Err(e) => return Err(e),
        };
        self.history.push_redo(redo_cmd);
        self.dirty_count = self.dirty_count.saturating_sub(1);
        Ok(())
    }

    /// Redo the most recently undone step (see [`redone`]).
    pub fn redo(&mut self) -> (r: Result<(), EditError>)
        requires
            old(self).wf(),
            old(self)@.dirty < usize::MAX,
        ensures
            final(self).wf(),
            (final(self)@, r) == redone(old(self)@),
    {
        let redo_cmd = match self.history.pop_redo() {
            Some(c) => c,
            None => return Err(EditError::NothingToRedo),
        };
        let inverse = match redo_cmd.execute(&mut self.schedule) {
            Ok(c) => c,
            Err(e) => return Err(e),
        };
        self.history.push_undo(inverse);
        self.dirty_count = self.dirty_count + 1;
        Ok(())
    }

    /// The [`EditCommand::UpdateField`] that writes `new_value` into
    /// `field` of `entity`, with the value the field holds now as its old
    /// value.
    pub fn update_field_cmd(
        &self,
        entity: RuntimeEntityId,
        field: &'static str,
        new_value: FieldValue,
    ) -> (r: Result<EditCommand, EditError>)
        ensures
            result_view(r) == update_field_view(self@.state, entity, field, new_value@),
    {
        build_update_field(&self.schedule, entity, field, new_value)
    }

    /// The [`EditCommand::RemoveEntity`] for `entity`, with its current
    /// field values as the snapshot.
    pub fn remove_entity_cmd(&self, entity: RuntimeEntityId) -> (r: Result<EditCommand, EditError>)
        ensures
            result_view(r) == remove_entity_view(self@.state, entity),
    {
        build_remove_entity(&self.schedule, entity)
    }

    /// A [`EditCommand::MovePanel`]: the two field updates that set the
    /// panel's time and room, each capturing the value it replaces.
    pub fn move_panel_cmd(
        &self,
        panel: RuntimeEntityId,
        time_field: &'static str,
        new_time: FieldValue,
        room_field: &'static str,
        new_room: FieldValue,
    ) -> (r: Result<EditCommand, EditError>)
        ensures
            result_view(r) == move_panel_view(
                self@.state,
                panel,
                time_field,
                new_time@,
                room_field,
                new_room@,
            ),
    {
        build_move_panel(&self.schedule, panel, time_field, new_time, room_field, new_room)
    }
}

/// Applying a command that can be reversed and then undoing it gives the
/// store back, with the same number of unsaved changes; the undo stack
/// comes back too unless pushing had to drop its oldest entry.
pub proof fn lemma_apply_then_undo_restores(v: SessionView, c: CommandView)
    requires
        undoable(v.state, c),
        applied(v, c).1 is Ok,
    ensures
        undone(applied(v, c).0).1 is Ok,
        undone(applied(v, c).0).0.state == v.state,
        undone(applied(v, c).0).0.dirty == v.dirty,
        undone(applied(v, c).0).0.redo.len() == 1,
        v.undo.len() < v.max || v.max == 0 ==> undone(applied(v, c).0).0.undo == v.undo,
{
    lemma_inverse_restores(v.state, c);
    let a = applied(v, c).0;
    assert(a.undo.last() == step(v.state, c).1->Ok_0);
    if v.undo.len() < v.max || v.max == 0 {
        assert(a.undo.drop_last() =~= v.undo);
    }
}

/// Undoing a step whose inverse can itself be reversed and then redoing it
/// gives the store back, with the same redo stack and the same number of
/// unsaved changes when there were any.
pub proof fn lemma_undo_then_redo_restores(v: SessionView)
    requires
        v.undo.len() > 0,
        undoable(v.state, v.undo.last()),
        undone(v).1 is Ok,
    ensures
        redone(undone(v).0).1 is Ok,
        redone(undone(v).0).0.state == v.state,
        redone(undone(v).0).0.redo == v.redo,
        v.dirty > 0 ==> redone(undone(v).0).0.dirty == v.dirty,
{
    lemma_inverse_restores(v.state, v.undo.last());
    let u = undone(v).0;
    assert(u.redo.drop_last() =~= v.redo);
}

/// The undo stack never grows past a positive capacity.
pub proof fn lemma_history_bounded(v: SessionView, c: CommandView)
    requires
        v.max > 0,
        v.undo.len() <= v.max,
    ensures
        applied(v, c).0.undo.len() <= v.max,
        redone(v).0.undo.len() <= v.max,
        undone(v).0.undo.len() <= v.max,
{
    if step(v.state, c).1 is Ok {
        lemma_push_capped_bound(v.undo, v.max, step(v.state, c).1->Ok_0);
    }
    if v.redo.len() > 0 && step(v.state, v.redo.last()).1 is Ok {
        lemma_push_capped_bound(v.undo, v.max, step(v.state, v.redo.last()).1->Ok_0);
    }
}

} // verus!
