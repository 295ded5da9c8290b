//! [`EditContext`]: a schedule together with its undo/redo history and a
//! dirty counter.
//!
//! The schedule's own work (running a command, forking the document back to
//! earlier heads, replaying changes) happens outside this module; the
//! context decides what the history and the dirty counter become around it.
//! Every applied step that produced changes is recorded for undo and counts
//! as an unsaved change; undo and redo move steps between the two stacks.

use vstd::prelude::*;
use crate::edit::history::{DEFAULT_MAX_DEPTH, EditHistory, UndoEntry, push_bounded};

verus! {

/// The dirty counter after an undo: one less, never below zero.
pub open spec fn undone_dirty(d: nat) -> nat {
    if d > 0 {
        (d - 1) as nat
    } else {
        0
    }
}

/// Undoing a step and redoing it brings the dirty counter back, as long as
/// there were unsaved changes; both stacks come back too, as long as the
/// undo stack was within its capacity.
pub proof fn lemma_undo_redo_restores(
    d: nat,
    undo: Seq<UndoEntry>,
    redo: Seq<UndoEntry>,
    max: nat,
)
    requires
        d > 0,
        undo.len() > 0,
        undo.len() <= max,
    ensures
        undone_dirty(d) + 1 == d,
        push_bounded(undo.drop_last(), max, undo.last()) == undo,
        redo.push(undo.last()).drop_last() == redo,
{
    crate::edit::history::lemma_undo_then_redo_restores(undo, redo, max);
}

/// A schedule of type `S` with its edit history and dirty counter.
#[derive(Debug)]
pub struct EditContext<S> {
    schedule: S,
    history: EditHistory,
    dirty_count: usize,
}

impl<S> EditContext<S> {
    /// The schedule.
    pub closed spec fn spec_schedule(&self) -> S {
        self.schedule
    }

    /// Steps that can be undone, oldest first.
    pub closed spec fn undo_entries(&self) -> Seq<UndoEntry> {
        self.history.undo_entries()
    }

    /// Steps that can be redone, oldest first.
    pub closed spec fn redo_entries(&self) -> Seq<UndoEntry> {
        self.history.redo_entries()
    }

    /// The capacity of the undo stack.
    pub closed spec fn capacity(&self) -> nat {
        self.history.capacity()
    }

    /// The number of unsaved changes.
    pub closed spec fn dirty(&self) -> nat {
        self.dirty_count as nat
    }

    /// Wrap a schedule with an empty history of the default depth.
    pub fn new(schedule: S) -> (r: EditContext<S>)
        ensures
            r.spec_schedule() == schedule,
            r.undo_entries() == Seq::<UndoEntry>::empty(),
            r.redo_entries() == Seq::<UndoEntry>::empty(),
            r.capacity() == DEFAULT_MAX_DEPTH,
            r.dirty() == 0,
    {
        EditContext { schedule, history: EditHistory::default(), dirty_count: 0 }
    }

    /// Wrap a schedule with an empty history of the given depth.
    pub fn with_history_depth(schedule: S, max_depth: usize) -> (r: EditContext<S>)
        ensures
            r.spec_schedule() == schedule,
            r.undo_entries() == Seq::<UndoEntry>::empty(),
            r.redo_entries() == Seq::<UndoEntry>::empty(),
            r.capacity() == max_depth,
            r.dirty() == 0,
    {
        EditContext { schedule, history: EditHistory::with_max_depth(max_depth), dirty_count: 0 }
    }

    /// Borrow the schedule for reading.
    pub fn schedule(&self) -> (r: &S)
        ensures
            *r == self.spec_schedule(),
    {
        &self.schedule
    }

    /// Borrow the schedule for changes that bypass the history (e.g.
    /// stamping metadata before saving, or replaying a step being redone).
    pub fn schedule_mut(&mut self) -> (r: &mut S)
        ensures
            *r == old(self).spec_schedule(),
            final(self).spec_schedule() == *final(r),
            final(self).undo_entries() == old(self).undo_entries(),
            final(self).redo_entries() == old(self).redo_entries(),
            final(self).capacity() == old(self).capacity(),
            final(self).dirty() == old(self).dirty(),
    {
        &mut self.schedule
    }

    /// `true` when there are changes since the last [`mark_clean`](Self::mark_clean).
    pub fn is_dirty(&self) -> (r: bool)
        ensures
            r == (self.dirty() > 0),
    {
        self.dirty_count > 0
    }

    /// The number of unsaved changes.
    pub fn dirty_count(&self) -> (r: usize)
        ensures
            r == self.dirty(),
    {
        self.dirty_count
    }

    /// Mark the current state as saved.
    pub fn mark_clean(&mut self)
        ensures
            final(self).dirty() == 0,
            final(self).spec_schedule() == old(self).spec_schedule(),
            final(self).undo_entries() == old(self).undo_entries(),
            final(self).redo_entries() == old(self).redo_entries(),
            final(self).capacity() == old(self).capacity(),
    {
        self.dirty_count = 0;
    }

    /// Number of steps that can be undone.
    pub fn undo_depth(&self) -> (r: usize)
        ensures
            r == self.undo_entries().len(),
            self.capacity() > 0 ==> r <= self.capacity(),
    {
        self.history.undo_depth()
    }

    /// Number of steps that can be redone.
    pub fn redo_depth(&self) -> (r: usize)
        ensures
            r == self.redo_entries().len(),
    {
        self.history.redo_depth()
    }

    /// Label of the step that would be undone next, if any.
    pub fn undo_label(&self) -> (r: Option<&str>)
        ensures
            r is None <==> self.undo_entries().len() == 0,
            r matches Some(s) ==> s@ == self.undo_entries().last().label@,
    {
        self.history.undo_label()
    }

    /// Label of the step that would be redone next, if any.
    pub fn redo_label(&self) -> (r: Option<&str>)
        ensures
            r is None <==> self.redo_entries().len() == 0,
            r matches Some(s) ==> s@ == self.redo_entries().last().label@,
    {
        self.history.redo_label()
    }

    /// Record a step that has just run against the schedule, given the
    /// document heads before it and the changes it produced.
    ///
    /// A step without changes is not recorded and does not count as an
    /// unsaved change.  Otherwise the redo branch is discarded, the step is
    /// pushed for undo and the dirty counter goes up.  Returns whether the
    /// step was recorded.
    pub fn record_step(
        &mut self,
        label: String,
        pre_heads: Vec<automerge::ChangeHash>,
        changes: Vec<Vec<u8>>,
    ) -> (recorded: bool)
        requires
            changes@.len() > 0 ==> old(self).dirty() < usize::MAX,
        ensures
            recorded == (changes@.len() > 0),
            final(self).spec_schedule() == old(self).spec_schedule(),
            final(self).capacity() == old(self).capacity(),
            !recorded ==> {
                &&& final(self).undo_entries() == old(self).undo_entries()
                &&& final(self).redo_entries() == old(self).redo_entries()
                &&& final(self).dirty() == old(self).dirty()
            },
            recorded ==> {
                &&& final(self).undo_entries() == push_bounded(
                    old(self).undo_entries(),
                    old(self).capacity(),
                    UndoEntry { label, pre_heads, changes },
                )
                &&& final(self).redo_entries() == Seq::<UndoEntry>::empty()
                &&& final(self).dirty() == old(self).dirty() + 1
            },
    {
        if changes.len() == 0 {
            return false;
        }
        self.history.clear_redo();
        self.history.push_undo(UndoEntry { label, pre_heads, changes });
        self.dirty_count = self.dirty_count + 1;
        true
    }

    /// Take the step to undo, if there is one.  The caller forks the
    /// schedule back to the step's `pre_heads` and hands the result to
    /// [`finish_undo`](Self::finish_undo).
    pub fn take_undo(&mut self) -> (r: Option<UndoEntry>)
        ensures
            final(self).spec_schedule() == old(self).spec_schedule(),
            final(self).redo_entries() == old(self).redo_entries(),
            final(self).capacity() == old(self).capacity(),
            final(self).dirty() == old(self).dirty(),
            old(self).undo_entries().len() == 0 ==> {
                &&& r is None
                &&& final(self).undo_entries() == old(self).undo_entries()
            },
            old(self).undo_entries().len() > 0 ==> {
                &&& r == Some(old(self).undo_entries().last())
                &&& final(self).undo_entries() == old(self).undo_entries().drop_last()
            },
    {
        self.history.pop_undo()
    }

    /// Install the schedule forked back to before `entry`, and keep `entry`
    /// for redo.  One unsaved change fewer (never below zero).
    pub fn finish_undo(&mut self, forked: S, entry: UndoEntry)
        ensures
            final(self).spec_schedule() == forked,
            final(self).undo_entries() == old(self).undo_entries(),
            final(self).redo_entries() == old(self).redo_entries().push(entry),
            final(self).capacity() == old(self).capacity(),
            final(self).dirty() == undone_dirty(old(self).dirty()),
    {
        self.schedule = forked;
        self.history.push_redo(entry);
        self.dirty_count = self.dirty_count.saturating_sub(1);
    }

    /// Take the step to redo, if there is one.  The caller replays the
    /// step's `changes` on the schedule (through
    /// [`schedule_mut`](Self::schedule_mut)) and hands the step back to
    /// [`finish_redo`](Self::finish_redo).
    pub fn take_redo(&mut self) -> (r: Option<UndoEntry>)
        ensures
            final(self).spec_schedule() == old(self).spec_schedule(),
            final(self).undo_entries() == old(self).undo_entries(),
            final(self).capacity() == old(self).capacity(),
            final(self).dirty() == old(self).dirty(),
            old(self).redo_entries().len() == 0 ==> {
                &&& r is None
                &&& final(self).redo_entries() == old(self).redo_entries()
            },
            old(self).redo_entries().len() > 0 ==> {
                &&& r == Some(old(self).redo_entries().last())
                &&& final(self).redo_entries() == old(self).redo_entries().drop_last()
            },
    {
        self.history.pop_redo()
    }

    /// Keep the replayed `entry` for undo.  One more unsaved change.
    pub fn finish_redo(&mut self, entry: UndoEntry)
        requires
            old(self).dirty() < usize::MAX,
        ensures
            final(self).spec_schedule() == old(self).spec_schedule(),
            final(self).undo_entries() == push_bounded(
                old(self).undo_entries(),
                old(self).capacity(),
                entry,
            ),
            final(self).redo_entries() == old(self).redo_entries(),
            final(self).capacity() == old(self).capacity(),
            final(self).dirty() == old(self).dirty() + 1,
    {
        self.history.push_undo(entry);
        self.dirty_count = self.dirty_count + 1;
    }
}

} // verus!
