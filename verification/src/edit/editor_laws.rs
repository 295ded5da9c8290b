//! Laws of schedule edits: undoing an edit that only adds or replaces
//! gives the schedule back, and so undoing what a find-or-create recorded
//! restores the schedule it started from.

use vstd::prelude::*;
use crate::edit::editor::{
    EditView, EditorView, ScheduleView, apply, apply_all, drop_in, edge_key, first_with,
    lemma_position, no_edit, position, presenter_edit, presenter_edits, presenter_run, record,
    set_in, undone,
};
use crate::edit::plan::{PresenterCommandView, PresenterOptionsView};

verus! {

/// Edits that only add or replace: sets, relationship additions, and
/// batches of them.
pub open spec fn additive(e: EditView) -> bool
    decreases e,
{
    match e {
        EditView::SetRoom(_) => true,
        EditView::SetPresenter(_) => true,
        EditView::SetPanelType(_) => true,
        EditView::Relate(_) => true,
        EditView::Batch(es) => additive_all(es),
        _ => false,
    }
}

/// Every edit of `es` only adds or replaces.
pub open spec fn additive_all(es: Seq<EditView>) -> bool
    decreases es,
{
    es.len() == 0 || (additive(es[0]) && additive_all(es.drop_first()))
}

/// When some entry satisfies `p`, a first one does.
proof fn lemma_first_exists<V>(rows: Seq<V>, p: spec_fn(V) -> bool, i: int)
    requires
        0 <= i < rows.len(),
        p(rows[i]),
    ensures
        exists|k: int| first_with(rows, p, k),
    decreases i,
{
    if exists|j: int| 0 <= j < i && p(rows[j]) {
        let j = choose|j: int| 0 <= j < i && p(rows[j]);
        lemma_first_exists(rows, p, j);
    } else {
        assert(first_with(rows, p, i));
    }
}

/// Setting an entry and then setting back the entry it replaced, or
/// dropping it again when it was new, gives the rows back.
proof fn lemma_set_in_undone<V>(rows: Seq<V>, p: spec_fn(V) -> bool, new: V)
    requires
        p(new),
    ensures
        ({
            let r = set_in(rows, p, new);
            match r.1 {
                Some(o) => p(o) && set_in(r.0, p, o).0 == rows,
                None => drop_in(r.0, p).0 == rows,
            }
        }),
{
    match position(rows, p) {
        Some(i) => {
            let k = choose|k: int| first_with(rows, p, k);
            assert(first_with(rows, p, k));
            assert(k == i);
            let r1 = rows.update(i, new);
            assert(first_with(r1, p, i));
            lemma_position(r1, p, i);
            assert(r1.update(i, rows[i]) =~= rows);
        },
        None => {
            assert forall|j: int| 0 <= j < rows.len() implies !p(#[trigger] rows[j]) by {
                if p(rows[j]) {
                    lemma_first_exists(rows, p, j);
                }
            }
            let r1 = rows.push(new);
            assert(first_with(r1, p, rows.len() as int));
            lemma_position(r1, p, rows.len() as int);
            assert(r1.remove(rows.len() as int) =~= rows);
        },
    }
}

/// Running `a + b` is running `a`, then `b`.
proof fn lemma_apply_all_append(s: ScheduleView, a: Seq<EditView>, b: Seq<EditView>)
    ensures
        apply_all(s, a + b).0 == apply_all(apply_all(s, a).0, b).0,
    decreases a.len(),
{
    if a.len() == 0 {
        assert(a + b =~= b);
    } else {
        assert((a + b).drop_first() =~= a.drop_first() + b);
        assert((a + b)[0] == a[0]);
        lemma_apply_all_append(apply(s, a[0]).0, a.drop_first(), b);
    }
}

/// Running the reversing edits of additive edits, newest first, gives the
/// schedule back.
pub proof fn lemma_apply_all_undone(s: ScheduleView, es: Seq<EditView>)
    requires
        additive_all(es),
    ensures
        apply_all(apply_all(s, es).0, apply_all(s, es).1.reverse()).0 == s,
    decreases es,
{
    if es.len() == 0 {
        assert(apply_all(s, es).1.reverse() =~= Seq::<EditView>::empty());
    } else {
        let r = apply(s, es[0]);
        let rest = apply_all(r.0, es.drop_first());
        assert(apply_all(s, es) == (rest.0, seq![r.1] + rest.1));
        lemma_apply_all_undone(r.0, es.drop_first());
        lemma_apply_undone(s, es[0]);
        assert((seq![r.1] + rest.1).reverse() =~= rest.1.reverse() + seq![r.1]);
        lemma_apply_all_append(rest.0, rest.1.reverse(), seq![r.1]);
        let one = seq![r.1];
        assert(one[0] == r.1);
        assert(one.drop_first() =~= Seq::<EditView>::empty());
        assert(apply_all(apply(r.0, r.1).0, one.drop_first()).0 == apply(r.0, r.1).0);
        assert(apply_all(r.0, one).0 == s);
    }
}

/// Applying an edit that only adds or replaces, then the edit that
/// reverses it, gives the schedule back.
pub proof fn lemma_apply_undone(s: ScheduleView, e: EditView)
    requires
        additive(e),
    ensures
        apply(apply(s, e).0, apply(s, e).1).0 == s,
    decreases e,
{
    match e {
        EditView::SetRoom(r) => {
            lemma_set_in_undone(s.rooms, crate::edit::editor::room_key(r.0), r);
            assert(apply(apply(s, e).0, apply(s, e).1).0 =~= s);
        },
        EditView::SetPresenter(r) => {
            lemma_set_in_undone(s.presenters, crate::edit::editor::presenter_key(r.0), r);
            assert(apply(apply(s, e).0, apply(s, e).1).0 =~= s);
        },
        EditView::SetPanelType(r) => {
            lemma_set_in_undone(s.panel_types, crate::edit::editor::panel_type_key(r.0), r);
            assert(apply(apply(s, e).0, apply(s, e).1).0 =~= s);
        },
        EditView::Relate(g) => {
            if s.relationships.contains(g) {
                assert(apply_all(s, Seq::<EditView>::empty()).0 == s);
            } else {
                let rows = s.relationships.push(g);
                assert forall|j: int| 0 <= j < s.relationships.len() implies !(#[trigger] edge_key(
                    g,
                )(rows[j])) by {
                    assert(rows[j] == s.relationships[j]);
                }
                assert(first_with(rows, edge_key(g), s.relationships.len() as int));
                lemma_position(rows, edge_key(g), s.relationships.len() as int);
                assert(rows.remove(s.relationships.len() as int) =~= s.relationships);
                assert(apply(apply(s, e).0, apply(s, e).1).0 =~= s);
            }
        },
        EditView::Batch(es) => {
            lemma_apply_all_undone(s, es);
        },
        _ => {},
    }
}

/// Undoing a recorded edit that only adds or replaces gives back the
/// schedule and the undo stack from before it.
pub proof fn lemma_record_then_undo(v: EditorView, e: EditView)
    requires
        additive(e),
    ensures
        undone(record(v, e)).schedule == v.schedule,
        undone(record(v, e)).undo == v.undo,
{
    lemma_apply_undone(v.schedule, e);
    let w = record(v, e);
    assert(w.undo.last() == apply(v.schedule, e).1);
    assert(w.undo.drop_last() =~= v.undo);
}

/// The edits that carry out presenter commands only add or replace.
pub proof fn lemma_presenter_edits_additive(cs: Seq<PresenterCommandView>)
    ensures
        additive_all(presenter_edits(cs)),
    decreases cs.len(),
{
    if cs.len() > 0 {
        lemma_presenter_edits_additive(cs.drop_first());
        assert(presenter_edits(cs).drop_first() =~= presenter_edits(cs.drop_first()));
        assert(presenter_edits(cs)[0] == presenter_edit(cs[0]));
        match cs[0] {
            PresenterCommandView::Update(..) => {},
            PresenterCommandView::Create(..) => {},
            PresenterCommandView::Relate(..) => {},
        }
        assert(additive(presenter_edit(cs[0])));
    } else {
        assert(presenter_edits(cs).len() == 0);
    }
}

/// Finding or creating a presenter and then undoing gives the schedule
/// back; when nothing was recorded the editor is unchanged.
pub proof fn lemma_presenter_run_undone(v: EditorView, name: Seq<char>, opts: PresenterOptionsView)
    ensures
        ({
            let r = presenter_run(v, name, opts);
            r.0.undo.len() == v.undo.len() ==> r.0 == v
        }),
        ({
            let r = presenter_run(v, name, opts);
            r.0.undo.len() > v.undo.len() ==> undone(r.0).schedule == v.schedule && undone(r.0).undo
                == v.undo
        }),
{
    let p = crate::edit::plan::presenter_plan(v.schedule.presenters, name, opts);
    if p.1.len() > 0 {
        lemma_presenter_edits_additive(p.1);
        lemma_record_then_undo(v, EditView::Batch(presenter_edits(p.1)));
    }
}

} // verus!
