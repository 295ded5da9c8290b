//! Stack-based undo/redo history.
//!
//! Each entry records the CRDT document heads before a step was applied and
//! the raw change bytes the step produced; the caller uses them to fork back
//! (undo) or to replay (redo).  This module only keeps the two stacks.

use vstd::prelude::*;
use std::collections::VecDeque;

verus! {

/// Declares the CRDT change hash so that entries can carry it.
#[verifier::external_type_specification]
#[verifier::external_body]
pub struct ExChangeHash(automerge::ChangeHash);

/// A single reversible step in the edit history.
///
/// The same entry is pushed to the undo and the redo stack: undo forks the
/// document back to `pre_heads`, redo reapplies `changes`.
#[derive(Debug, Clone)]
pub struct UndoEntry {
    /// Human-readable description of the action ("Undo <label>").
    pub label: String,
    /// CRDT document heads immediately before this step was applied.
    pub pre_heads: Vec<automerge::ChangeHash>,
    /// Raw change bytes produced by this step.
    pub changes: Vec<Vec<u8>>,
}

/// The undo stack after pushing `e` with capacity `max`: the oldest entry is
/// dropped when the stack is full.
pub open spec fn push_bounded(s: Seq<UndoEntry>, max: nat, e: UndoEntry) -> Seq<UndoEntry> {
    if s.len() == max && max > 0 {
        s.subrange(1, s.len() as int).push(e)
    } else {
        s.push(e)
    }
}

/// With a positive capacity, pushing never lets the undo stack grow past it,
/// and the pushed entry is the next one to be undone.
pub proof fn lemma_push_respects_capacity(s: Seq<UndoEntry>, max: nat, e: UndoEntry)
    requires
        max > 0,
        s.len() <= max,
    ensures
        push_bounded(s, max, e).len() <= max,
        push_bounded(s, max, e).last() == e,
{
}

/// Undoing a step and redoing it gives back both stacks: the entry popped
/// from the undo stack and pushed on the redo stack comes back to where it
/// was, as long as the undo stack was within its capacity.
pub proof fn lemma_undo_then_redo_restores(undo: Seq<UndoEntry>, redo: Seq<UndoEntry>, max: nat)
    requires
        undo.len() > 0,
        undo.len() <= max,
    ensures
        push_bounded(undo.drop_last(), max, undo.last()) == undo,
        redo.push(undo.last()).drop_last() == redo,
        redo.push(undo.last()).last() == undo.last(),
{
    assert(undo.drop_last().push(undo.last()) =~= undo);
    assert(redo.push(undo.last()).drop_last() =~= redo);
}

/// Redoing a step and undoing it again gives back both stacks.
pub proof fn lemma_redo_then_undo_restores(undo: Seq<UndoEntry>, redo: Seq<UndoEntry>, max: nat)
    requires
        redo.len() > 0,
        undo.len() < max,
    ensures
        push_bounded(undo, max, redo.last()).drop_last() == undo,
        push_bounded(undo, max, redo.last()).last() == redo.last(),
        redo.drop_last().push(redo.last()) == redo,
{
    assert(undo.push(redo.last()).drop_last() =~= undo);
    assert(redo.drop_last().push(redo.last()) =~= redo);
}

/// Stack-based undo/redo history for [`UndoEntry`]s.
///
/// `push_undo` appends to the undo stack, dropping the oldest entry when at
/// capacity.  `pop_undo`/`push_redo` and `pop_redo`/`push_undo` move entries
/// between the two stacks; the caller applies the fork or replay.
#[derive(Debug)]
pub struct EditHistory {
    undo_stack: VecDeque<UndoEntry>,
    redo_stack: VecDeque<UndoEntry>,
    max_depth: usize,
}

/// Default maximum undo/redo depth.
pub const DEFAULT_MAX_DEPTH: usize = 100;

impl EditHistory {
    /// A history with a positive depth never holds more undo entries than
    /// its depth.
    #[verifier::type_invariant]
    closed spec fn depth_bounded(&self) -> bool {
        self.max_depth == 0 || self.undo_stack@.len() <= self.max_depth
    }

    /// Entries that can be undone, oldest first.
    pub closed spec fn undo_entries(&self) -> Seq<UndoEntry> {
        self.undo_stack@
    }

    /// Entries that can be redone, oldest first.
    pub closed spec fn redo_entries(&self) -> Seq<UndoEntry> {
        self.redo_stack@
    }

    /// The capacity of the undo stack.
    pub closed spec fn capacity(&self) -> nat {
        self.max_depth as nat
    }

    /// Create a new history with the given maximum depth.
    pub fn with_max_depth(max_depth: usize) -> (r: EditHistory)
        ensures
            r.undo_entries() == Seq::<UndoEntry>::empty(),
            r.redo_entries() == Seq::<UndoEntry>::empty(),
            r.capacity() == max_depth,
    {
        EditHistory { undo_stack: VecDeque::new(), redo_stack: VecDeque::new(), max_depth }
    }

    /// Push an entry onto the undo stack.
    ///
    /// If the stack is at capacity the oldest entry is discarded.  Does
    /// **not** clear the redo stack.
    pub fn push_undo(&mut self, entry: UndoEntry)
        ensures
            final(self).undo_entries() == push_bounded(
                old(self).undo_entries(),
                old(self).capacity(),
                entry,
            ),
            final(self).redo_entries() == old(self).redo_entries(),
            final(self).capacity() == old(self).capacity(),
    {
        proof {
            use_type_invariant(&*self);
        }
        let mut stack = VecDeque::new();
        std::mem::swap(&mut stack, &mut self.undo_stack);
        if stack.len() == self.max_depth {
            stack.pop_front();
        }
        stack.push_back(entry);
        self.undo_stack = stack;
    }

    /// Clear the redo stack.
    pub fn clear_redo(&mut self)
        ensures
            final(self).undo_entries() == old(self).undo_entries(),
            final(self).redo_entries() == Seq::<UndoEntry>::empty(),
            final(self).capacity() == old(self).capacity(),
    {
        proof {
            use_type_invariant(&*self);
        }
        self.redo_stack = VecDeque::new();
    }

    /// Pop the most recent undo entry.
    pub fn pop_undo(&mut self) -> (r: Option<UndoEntry>)
        ensures
            final(self).redo_entries() == old(self).redo_entries(),
            final(self).capacity() == old(self).capacity(),
            old(self).undo_entries().len() == 0 ==> {
                &&& r is None
                &&& final(self).undo_entries() == old(self).undo_entries()
            },
            old(self).undo_entries().len() > 0 ==> {
                &&& r == Some(old(self).undo_entries().last())
                &&& final(self).undo_entries() == old(self).undo_entries().drop_last()
            },
    {
        proof {
            use_type_invariant(&*self);
        }
        let mut stack = VecDeque::new();
        std::mem::swap(&mut stack, &mut self.undo_stack);
        let r = stack.pop_back();
        self.undo_stack = stack;
        r
    }

    /// Push an entry onto the redo stack (does *not* clear the undo stack).
    pub fn push_redo(&mut self, entry: UndoEntry)
        ensures
            final(self).undo_entries() == old(self).undo_entries(),
            final(self).redo_entries() == old(self).redo_entries().push(entry),
            final(self).capacity() == old(self).capacity(),
    {
        proof {
            use_type_invariant(&*self);
        }
        let mut stack = VecDeque::new();
        std::mem::swap(&mut stack, &mut self.redo_stack);
        stack.push_back(entry);
        self.redo_stack = stack;
    }

    /// Pop the most recent redo entry.
    pub fn pop_redo(&mut self) -> (r: Option<UndoEntry>)
        ensures
            final(self).undo_entries() == old(self).undo_entries(),
            final(self).capacity() == old(self).capacity(),
            old(self).redo_entries().len() == 0 ==> {
                &&& r is None
                &&& final(self).redo_entries() == old(self).redo_entries()
            },
            old(self).redo_entries().len() > 0 ==> {
                &&& r == Some(old(self).redo_entries().last())
                &&& final(self).redo_entries() == old(self).redo_entries().drop_last()
            },
    {
        proof {
            use_type_invariant(&*self);
        }
        let mut stack = VecDeque::new();
        std::mem::swap(&mut stack, &mut self.redo_stack);
        let r = stack.pop_back();
        self.redo_stack = stack;
        r
    }

    /// Number of operations that can currently be undone.
    pub fn undo_depth(&self) -> (r: usize)
        ensures
            r == self.undo_entries().len(),
            self.capacity() > 0 ==> r <= self.capacity(),
    {
        proof {
            use_type_invariant(self);
        }
        self.undo_stack.len()
    }

    /// Number of operations that can currently be redone.
    pub fn redo_depth(&self) -> (r: usize)
        ensures
            r == self.redo_entries().len(),
    {
        self.redo_stack.len()
    }

    /// Label of the next operation that would be undone, if any.
    pub fn undo_label(&self) -> (r: Option<&str>)
        ensures
            r is None <==> self.undo_entries().len() == 0,
            r matches Some(s) ==> s@ == self.undo_entries().last().label@,
    {
        let n = self.undo_stack.len();
        if n == 0 {
            None
        } else {
            Some(self.undo_stack[n - 1].label.as_str())
        }
    }

    /// Label of the next operation that would be redone, if any.
    pub fn redo_label(&self) -> (r: Option<&str>)
        ensures
            r is None <==> self.redo_entries().len() == 0,
            r matches Some(s) ==> s@ == self.redo_entries().last().label@,
    {
        let n = self.redo_stack.len();
        if n == 0 {
            None
        } else {
            Some(self.redo_stack[n - 1].label.as_str())
        }
    }
}

impl Default for EditHistory {
    fn default() -> (r: EditHistory)
        ensures
            r.undo_entries() == Seq::<UndoEntry>::empty(),
            r.redo_entries() == Seq::<UndoEntry>::empty(),
            r.capacity() == DEFAULT_MAX_DEPTH,
    {
        EditHistory::with_max_depth(DEFAULT_MAX_DEPTH)
    }
}

} // verus!
