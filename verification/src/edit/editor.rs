//! Running find-or-create plans against a schedule, with undo and redo.
//!
//! A schedule holds rooms, presenters, panel types and group relationships.
//! Every change is a [`ScheduleEdit`]; applying one returns the edit that
//! reverses it, which the editor keeps on its undo stack.

use vstd::prelude::*;
use vstd::string::*;
use crate::edit::command::EditError;
use crate::edit::find::{ascii_lower, opt_view, tagged_view, trim, trim_str};
use crate::edit::plan::{
    ChangeState, GroupEdge, GroupEdgeView, PanelTypeOptions, PanelTypePlan, PanelTypePlanView,
    PanelTypeRow, PanelTypeRowView, PresenterCommand, PresenterCommandView, PresenterOptions,
    PresenterOptionsView, PresenterRow, PresenterRowView, PresenterSnapshot, RoomOptions,
    RoomPlan, RoomPlanView, RoomRow, RoomRowView, SortRank, TaggedOutcome, TaggedStep,
    TaggedStepView, DEFAULT_RANK, cell_rank, cell_sort, created_state, find_presenter,
    first_presenter_named, first_room_named, group_outcome, max_room_uid, panel_type_plan,
    plan_find_or_create_panel_type, plan_find_or_create_presenter, plan_find_or_create_room,
    plan_tagged_presenter, presenter_cmd_views, presenter_named, presenter_plan, presenter_rows,
    room_plan, step_views, tagged_steps, texts,
};
use crate::text::str_eq;

verus! {

/// The abstract values of a sequence.
pub open spec fn views<T: View>(s: Seq<T>) -> Seq<T::V> {
    s.map_values(|t: T| t@)
}

/// `i` is the first position whose entry satisfies `p`.
pub open spec fn first_with<V>(rows: Seq<V>, p: spec_fn(V) -> bool, i: int) -> bool {
    &&& 0 <= i < rows.len()
    &&& p(rows[i])
    &&& forall|j: int| 0 <= j < i ==> !p(#[trigger] rows[j])
}

/// The first position whose entry satisfies `p`, if any.
pub open spec fn position<V>(rows: Seq<V>, p: spec_fn(V) -> bool) -> Option<int> {
    if exists|i: int| first_with(rows, p, i) {
        Some(choose|i: int| first_with(rows, p, i))
    } else {
        None
    }
}

/// The first position is unique.
pub proof fn lemma_position<V>(rows: Seq<V>, p: spec_fn(V) -> bool, i: int)
    requires
        first_with(rows, p, i),
    ensures
        position(rows, p) == Some(i),
{
    let k = choose|k: int| first_with(rows, p, k);
    assert(first_with(rows, p, k));
    if k < i {
        assert(!p(rows[k]));
    } else if i < k {
        assert(!p(rows[i]));
    }
}

/// Replacing the first entry that satisfies `p` by `new`, or appending
/// `new`; also the entry replaced.
pub open spec fn set_in<V>(rows: Seq<V>, p: spec_fn(V) -> bool, new: V) -> (Seq<V>, Option<V>) {
    match position(rows, p) {
        Some(i) => (rows.update(i, new), Some(rows[i])),
        None => (rows.push(new), None),
    }
}

/// Removing the first entry that satisfies `p`; also the entry removed.
pub open spec fn drop_in<V>(rows: Seq<V>, p: spec_fn(V) -> bool) -> (Seq<V>, Option<V>) {
    match position(rows, p) {
        Some(i) => (rows.remove(i), Some(rows[i])),
        None => (rows, None),
    }
}

/// A room with UID `uid`.
pub open spec fn room_key(uid: u32) -> spec_fn(RoomRowView) -> bool {
    |r: RoomRowView| r.0 == uid
}

/// A presenter named exactly `n`.
pub open spec fn presenter_key(n: Seq<char>) -> spec_fn(PresenterRowView) -> bool {
    |r: PresenterRowView| r.0 == n
}

/// A panel type with prefix exactly `n`.
pub open spec fn panel_type_key(n: Seq<char>) -> spec_fn(PanelTypeRowView) -> bool {
    |r: PanelTypeRowView| r.0 == n
}

/// The relationship `g`.
pub open spec fn edge_key(g: GroupEdgeView) -> spec_fn(GroupEdgeView) -> bool {
    |x: GroupEdgeView| x == g
}

/// The rooms, presenters, panel types and group relationships of a
/// schedule.
#[derive(Debug)]
pub struct Schedule {
    pub rooms: Vec<RoomRow>,
    pub presenters: Vec<PresenterRow>,
    pub panel_types: Vec<PanelTypeRow>,
    pub relationships: Vec<GroupEdge>,
}

/// Abstract value of a [`Schedule`].
#[verifier::ext_equal]
pub struct ScheduleView {
    pub rooms: Seq<RoomRowView>,
    pub presenters: Seq<PresenterRowView>,
    pub panel_types: Seq<PanelTypeRowView>,
    pub relationships: Seq<GroupEdgeView>,
}

impl View for Schedule {
    type V = ScheduleView;

    open spec fn view(&self) -> ScheduleView {
        ScheduleView {
            rooms: views(self.rooms@),
            presenters: views(self.presenters@),
            panel_types: views(self.panel_types@),
            relationships: views(self.relationships@),
        }
    }
}

/// A reversible change to a schedule.
#[derive(Debug)]
pub enum ScheduleEdit {
    /// Replace the room with the row's UID, or add the row.
    SetRoom(RoomRow),
    /// Remove the room with this UID.
    DropRoom(u32),
    /// Replace the presenter with the row's name, or add the row.
    SetPresenter(PresenterRow),
    /// Remove the presenter with this name.
    DropPresenter(String),
    /// Replace the panel type with the row's prefix, or add the row.
    SetPanelType(PanelTypeRow),
    /// Remove the panel type with this prefix.
    DropPanelType(String),
    /// Add the relationship unless it is already there.
    Relate(GroupEdge),
    /// Remove the relationship.
    Unrelate(GroupEdge),
    /// Apply the edits in order, as one undo step.
    Batch(Vec<ScheduleEdit>),
}

/// Abstract value of a [`ScheduleEdit`].
pub enum EditView {
    SetRoom(RoomRowView),
    DropRoom(u32),
    SetPresenter(PresenterRowView),
    DropPresenter(Seq<char>),
    SetPanelType(PanelTypeRowView),
    DropPanelType(Seq<char>),
    Relate(GroupEdgeView),
    Unrelate(GroupEdgeView),
    Batch(Seq<EditView>),
}

/// The abstract value of an edit.
pub open spec fn edit_view(e: ScheduleEdit) -> EditView
    decreases e,
{
    match e {
        ScheduleEdit::SetRoom(r) => EditView::SetRoom(r@),
        ScheduleEdit::DropRoom(u) => EditView::DropRoom(u),
        ScheduleEdit::SetPresenter(r) => EditView::SetPresenter(r@),
        ScheduleEdit::DropPresenter(n) => EditView::DropPresenter(n@),
        ScheduleEdit::SetPanelType(r) => EditView::SetPanelType(r@),
        ScheduleEdit::DropPanelType(n) => EditView::DropPanelType(n@),
        ScheduleEdit::Relate(g) => EditView::Relate(g@),
        ScheduleEdit::Unrelate(g) => EditView::Unrelate(g@),
        ScheduleEdit::Batch(v) => EditView::Batch(edit_views(v@)),
    }
}

/// The abstract values of a sequence of edits.
pub open spec fn edit_views(s: Seq<ScheduleEdit>) -> Seq<EditView>
    decreases s,
{
    if s.len() == 0 {
        Seq::empty()
    } else {
        seq![edit_view(s[0])] + edit_views(s.drop_first())
    }
}

impl View for ScheduleEdit {
    type V = EditView;

    open spec fn view(&self) -> EditView {
        edit_view(*self)
    }
}

/// `edit_views` maps each edit to its abstract value.
pub proof fn lemma_edit_views(s: Seq<ScheduleEdit>)
    ensures
        edit_views(s) == views(s),
    decreases s.len(),
{
    if s.len() > 0 {
        lemma_edit_views(s.drop_first());
        assert forall|i: int| 0 <= i < s.len() implies #[trigger] edit_views(s)[i] == views(s)[i] by {
            if i > 0 {
                assert(s.drop_first()[i - 1] == s[i]);
            }
        }
    }
    assert(edit_views(s) =~= views(s));
}

/// The edit that does nothing.
pub open spec fn no_edit() -> EditView {
    EditView::Batch(Seq::empty())
}

/// Applying edit `e` to `s`: the schedule afterwards and the edit that
/// reverses it.  A set adds or replaces in place; a drop removes the first
/// match; a relationship is added only when absent.
pub open spec fn apply(s: ScheduleView, e: EditView) -> (ScheduleView, EditView)
    decreases e,
{
    match e {
        EditView::SetRoom(r) => {
            let (rows, old) = set_in(s.rooms, room_key(r.0), r);
            (
                ScheduleView { rooms: rows, ..s },
                match old {
                    Some(o) => EditView::SetRoom(o),
                    None => EditView::DropRoom(r.0),
                },
            )
        },
        EditView::DropRoom(uid) => {
            let (rows, old) = drop_in(s.rooms, room_key(uid));
            (
                ScheduleView { rooms: rows, ..s },
                match old {
                    Some(o) => EditView::SetRoom(o),
                    None => no_edit(),
                },
            )
        },
        EditView::SetPresenter(r) => {
            let (rows, old) = set_in(s.presenters, presenter_key(r.0), r);
            (
                ScheduleView { presenters: rows, ..s },
                match old {
                    Some(o) => EditView::SetPresenter(o),
                    None => EditView::DropPresenter(r.0),
                },
            )
        },
        EditView::DropPresenter(n) => {
            let (rows, old) = drop_in(s.presenters, presenter_key(n));
            (
                ScheduleView { presenters: rows, ..s },
                match old {
                    Some(o) => EditView::SetPresenter(o),
                    None => no_edit(),
                },
            )
        },
        EditView::SetPanelType(r) => {
            let (rows, old) = set_in(s.panel_types, panel_type_key(r.0), r);
            (
                ScheduleView { panel_types: rows, ..s },
                match old {
                    Some(o) => EditView::SetPanelType(o),
                    None => EditView::DropPanelType(r.0),
                },
            )
        },
        EditView::DropPanelType(n) => {
            let (rows, old) = drop_in(s.panel_types, panel_type_key(n));
            (
                ScheduleView { panel_types: rows, ..s },
                match old {
                    Some(o) => EditView::SetPanelType(o),
                    None => no_edit(),
                },
            )
        },
        EditView::Relate(g) => {
            if s.relationships.contains(g) {
                (s, no_edit())
            } else {
                (ScheduleView { relationships: s.relationships.push(g), ..s }, EditView::Unrelate(g))
            }
        },
        EditView::Unrelate(g) => {
            let (rows, old) = drop_in(s.relationships, edge_key(g));
            (
                ScheduleView { relationships: rows, ..s },
                match old {
                    Some(o) => EditView::Relate(o),
                    None => no_edit(),
                },
            )
        },
        EditView::Batch(es) => {
            let r = apply_all(s, es);
            (r.0, EditView::Batch(r.1.reverse()))
        },
    }
}

/// Applying the edits `es` in order: the schedule afterwards and the
/// reversing edits in application order.
pub open spec fn apply_all(s: ScheduleView, es: Seq<EditView>) -> (ScheduleView, Seq<EditView>)
    decreases es,
{
    if es.len() == 0 {
        (s, Seq::empty())
    } else {
        let r = apply(s, es[0]);
        let rest = apply_all(r.0, es.drop_first());
        (rest.0, seq![r.1] + rest.1)
    }
}

fn put_at<T: View>(rows: &mut Vec<T>, at: Option<usize>, r: T) -> (prev: Option<T>)
    requires
        at matches Some(i) ==> i < old(rows)@.len(),
    ensures
        match at {
            Some(i) => views(final(rows)@) == views(old(rows)@).update(i as int, r@) && prev is Some
                && prev->Some_0@ == views(old(rows)@)[i as int],
            None => views(final(rows)@) == views(old(rows)@).push(r@) && prev is None,
        },
{
    let ghost v0 = views(rows@);
    let ghost rv = r@;
    match at {
        Some(i) => {
            let o = rows.remove(i);
            rows.insert(i, r);
            assert(views(rows@) =~= v0.update(i as int, rv));
            Some(o)
        },
        None => {
            rows.push(r);
            assert(views(rows@) =~= v0.push(rv));
            None
        },
    }
}

fn take_at<T: View>(rows: &mut Vec<T>, i: usize) -> (prev: T)
    requires
        i < old(rows)@.len(),
    ensures
        views(final(rows)@) == views(old(rows)@).remove(i as int),
        prev@ == views(old(rows)@)[i as int],
{
    let ghost v0 = views(rows@);
    let o = rows.remove(i);
    assert(views(rows@) =~= v0.remove(i as int));
    o
}

/// What a finder reports: the first position, or that no entry matches.
pub open spec fn found<V>(rows: Seq<V>, p: spec_fn(V) -> bool, r: Option<usize>) -> bool {
    match r {
        Some(i) => i < rows.len() && position(rows, p) == Some(i as int),
        None => position(rows, p) is None && forall|i: int| 0 <= i < rows.len() ==> !p(#[trigger] rows[i]),
    }
}

proof fn lemma_none_found<V>(rows: Seq<V>, p: spec_fn(V) -> bool)
    requires
        forall|i: int| 0 <= i < rows.len() ==> !p(#[trigger] rows[i]),
    ensures
        position(rows, p) is None,
{
    assert forall|i: int| !first_with(rows, p, i) by {
        if 0 <= i < rows.len() {
            assert(!p(rows[i]));
        }
    }
}

fn find_room(rows: &Vec<RoomRow>, uid: u32) -> (r: Option<usize>)
    ensures
        found(views(rows@), room_key(uid), r),
{
    let ghost v = views(rows@);
    let mut i: usize = 0;
    while i < rows.len()
        invariant
            i <= rows@.len(),
            v == views(rows@),
            forall|j: int| 0 <= j < i ==> !room_key(uid)(#[trigger] v[j]),
        decreases rows@.len() - i,
    {
        assert(v[i as int].0 == rows@[i as int].uid);
        if rows[i].uid == uid {
            proof {
                lemma_position(v, room_key(uid), i as int);
            }
            return Some(i);
        }
        i = i + 1;
    }
    proof {
        lemma_none_found(v, room_key(uid));
    }
    None
}

fn find_presenter_named(rows: &Vec<PresenterRow>, name: &str) -> (r: Option<usize>)
    ensures
        found(views(rows@), presenter_key(name@), r),
{
    let ghost v = views(rows@);
    let mut i: usize = 0;
    while i < rows.len()
        invariant
            i <= rows@.len(),
            v == views(rows@),
            forall|j: int| 0 <= j < i ==> !presenter_key(name@)(#[trigger] v[j]),
        decreases rows@.len() - i,
    {
        assert(v[i as int].0 == rows@[i as int].name@);
        if str_eq(rows[i].name.as_str(), name) {
            proof {
                lemma_position(v, presenter_key(name@), i as int);
            }
            return Some(i);
        }
        i = i + 1;
    }
    proof {
        lemma_none_found(v, presenter_key(name@));
    }
    None
}

fn find_panel_type_prefixed(rows: &Vec<PanelTypeRow>, prefix: &str) -> (r: Option<usize>)
    ensures
        found(views(rows@), panel_type_key(prefix@), r),
{
    let ghost v = views(rows@);
    let mut i: usize = 0;
    while i < rows.len()
        invariant
            i <= rows@.len(),
            v == views(rows@),
            forall|j: int| 0 <= j < i ==> !panel_type_key(prefix@)(#[trigger] v[j]),
        decreases rows@.len() - i,
    {
        assert(v[i as int].0 == rows@[i as int].prefix@);
        if str_eq(rows[i].prefix.as_str(), prefix) {
            proof {
                lemma_position(v, panel_type_key(prefix@), i as int);
            }
            return Some(i);
        }
        i = i + 1;
    }
    proof {
        lemma_none_found(v, panel_type_key(prefix@));
    }
    None
}

fn same_member(a: &Option<String>, b: &Option<String>) -> (r: bool)
    ensures
        r == ((match a {
            Some(m) => Some(m@),
            None => None,
        }) == (match b {
            Some(m) => Some(m@),
            None => None,
        })),
{
    match (a, b) {
        (Some(x), Some(y)) => str_eq(x.as_str(), y.as_str()),
        (None, None) => true,
        _ => false,
    }
}

fn same_edge(a: &GroupEdge, b: &GroupEdge) -> (r: bool)
    ensures
        r == (a@ == b@),
{
    same_member(&a.member, &b.member) && str_eq(a.group.as_str(), b.group.as_str())
        && a.always_grouped == b.always_grouped && a.always_shown == b.always_shown
}

fn copy_edge(g: &GroupEdge) -> (r: GroupEdge)
    ensures
        r@ == g@,
{
    GroupEdge {
        member: match &g.member {
            Some(m) => Some(m.clone()),
            None => None,
        },
        group: g.group.clone(),
        always_grouped: g.always_grouped,
        always_shown: g.always_shown,
    }
}

fn find_edge(rows: &Vec<GroupEdge>, g: &GroupEdge) -> (r: Option<usize>)
    ensures
        found(views(rows@), edge_key(g@), r),
{
    let ghost v = views(rows@);
    let mut i: usize = 0;
    while i < rows.len()
        invariant
            i <= rows@.len(),
            v == views(rows@),
            forall|j: int| 0 <= j < i ==> !edge_key(g@)(#[trigger] v[j]),
        decreases rows@.len() - i,
    {
        assert(v[i as int] == rows@[i as int]@);
        if same_edge(&rows[i], g) {
            proof {
                lemma_position(v, edge_key(g@), i as int);
            }
            return Some(i);
        }
        i = i + 1;
    }
    proof {
        lemma_none_found(v, edge_key(g@));
    }
    None
}

/// The edits of a batch.
pub open spec fn batch_parts(e: ScheduleEdit) -> Vec<ScheduleEdit> {
    match e {
        ScheduleEdit::Batch(v) => v,
        _ => vstd::pervasive::arbitrary(),
    }
}

/// Apply edit `e` to the schedule, returning the edit that reverses it.
#[verifier::loop_isolation(false)]
pub fn apply_edit(s: &mut Schedule, e: ScheduleEdit) -> (inv: ScheduleEdit)
    ensures
        final(s)@ == apply(old(s)@, e@).0,
        inv@ == apply(old(s)@, e@).1,
    decreases e,
{
    let ghost s0 = s@;
    let ghost me = e;
    let ghost parts = batch_parts(e);
    match e {
        ScheduleEdit::SetRoom(r) => {
            let uid = r.uid;
            let at = find_room(&s.rooms, uid);
            let old = put_at(&mut s.rooms, at, r);
            assert(s@ =~= apply(s0, me@).0);
            match old {
                Some(o) => ScheduleEdit::SetRoom(o),
                None => ScheduleEdit::DropRoom(uid),
            }
        },
        ScheduleEdit::DropRoom(uid) => {
            match find_room(&s.rooms, uid) {
                Some(i) => {
                    let o = take_at(&mut s.rooms, i);
                    assert(s@ =~= apply(s0, me@).0);
                    ScheduleEdit::SetRoom(o)
                },
                None => {
                    let v: Vec<ScheduleEdit> = Vec::new();
                    assert(edit_views(v@) =~= Seq::<EditView>::empty());
                    ScheduleEdit::Batch(v)
                },
            }
        },
        ScheduleEdit::SetPresenter(r) => {
            let at = find_presenter_named(&s.presenters, r.name.as_str());
            let name = r.name.clone();
            let old = put_at(&mut s.presenters, at, r);
            assert(s@ =~= apply(s0, me@).0);
            match old {
                Some(o) => ScheduleEdit::SetPresenter(o),
                None => ScheduleEdit::DropPresenter(name),
            }
        },
        ScheduleEdit::DropPresenter(n) => {
            match find_presenter_named(&s.presenters, n.as_str()) {
                Some(i) => {
                    let o = take_at(&mut s.presenters, i);
                    assert(s@ =~= apply(s0, me@).0);
                    ScheduleEdit::SetPresenter(o)
                },
                None => {
                    let v: Vec<ScheduleEdit> = Vec::new();
                    assert(edit_views(v@) =~= Seq::<EditView>::empty());
                    ScheduleEdit::Batch(v)
                },
            }
        },
        ScheduleEdit::SetPanelType(r) => {
            let at = find_panel_type_prefixed(&s.panel_types, r.prefix.as_str());
            let prefix = r.prefix.clone();
            let old = put_at(&mut s.panel_types, at, r);
            assert(s@ =~= apply(s0, me@).0);
            match old {
                Some(o) => ScheduleEdit::SetPanelType(o),
                None => ScheduleEdit::DropPanelType(prefix),
            }
        },
        ScheduleEdit::DropPanelType(n) => {
            match find_panel_type_prefixed(&s.panel_types, n.as_str()) {
                Some(i) => {
                    let o = take_at(&mut s.panel_types, i);
                    assert(s@ =~= apply(s0, me@).0);
                    ScheduleEdit::SetPanelType(o)
                },
                None => {
                    let v: Vec<ScheduleEdit> = Vec::new();
                    assert(edit_views(v@) =~= Seq::<EditView>::empty());
                    ScheduleEdit::Batch(v)
                },
            }
        },
        ScheduleEdit::Relate(g) => {
            match find_edge(&s.relationships, &g) {
                Some(i) => {
                    assert(s0.relationships[i as int] == g@);
                    let v: Vec<ScheduleEdit> = Vec::new();
                    assert(edit_views(v@) =~= Seq::<EditView>::empty());
                    ScheduleEdit::Batch(v)
                },
                None => {
                    let c = copy_edge(&g);
                    let ghost gv = g@;
                    s.relationships.push(g);
                    assert(views(s.relationships@) =~= s0.relationships.push(gv));
                    assert(s@ =~= apply(s0, me@).0);
                    ScheduleEdit::Unrelate(c)
                },
            }
        },
        ScheduleEdit::Unrelate(g) => {
            match find_edge(&s.relationships, &g) {
                Some(i) => {
                    let o = take_at(&mut s.relationships, i);
                    assert(s@ =~= apply(s0, me@).0);
                    ScheduleEdit::Relate(o)
                },
                None => {
                    let v: Vec<ScheduleEdit> = Vec::new();
                    assert(edit_views(v@) =~= Seq::<EditView>::empty());
                    ScheduleEdit::Batch(v)
                },
            }
        },
        ScheduleEdit::Batch(es) => {
            let ghost orig = es@;
            let ghost ov = edit_views(orig);
            proof {
                lemma_edit_views(orig);
            }
            let mut rest = es;
            let mut invs: Vec<ScheduleEdit> = Vec::new();
            let ghost mut k: int = 0;
            proof {
                assert(orig.subrange(0, orig.len() as int) =~= orig);
                lemma_edit_views(invs@);
                assert(views(invs@) =~= Seq::<EditView>::empty());
                assert(Seq::<EditView>::empty() + apply_all(s0, ov).1 =~= apply_all(s0, ov).1);
            }
            while rest.len() > 0
                invariant
                    me == ScheduleEdit::Batch(parts),
                    orig == parts@,
                    0 <= k <= orig.len(),
                    rest@ == orig.subrange(k, orig.len() as int),
                    apply_all(s@, edit_views(rest@)).0 == apply_all(s0, ov).0,
                    edit_views(invs@) + apply_all(s@, edit_views(rest@)).1 == apply_all(s0, ov).1,
                decreases rest.len(),
            {
                let ghost rest0 = rest@;
                let ghost rv = edit_views(rest0);
                let c = rest.remove(0);
                proof {
                    lemma_edit_views(rest0);
                    lemma_edit_views(rest@);
                    assert(rest@ =~= rest0.drop_first());
                    assert(rv[0] == c@);
                    assert(edit_views(rest@) =~= rv.drop_first());
                    assert(c == orig[k]);
                    assert(me->Batch_0 == parts);
                    assert(decreases_to!(me => me->Batch_0));
                    assert(decreases_to!(parts => parts@));
                    assert(decreases_to!(parts@ => parts@[k]));
                    assert(decreases_to!(me => parts@[k]));
                }
                let ghost st = s@;
                let ghost iv0 = edit_views(invs@);
                let inv = apply_edit(s, c);
                let ghost invs0 = invs@;
                invs.push(inv);
                proof {
                    k = k + 1;
                    lemma_edit_views(invs0);
                    lemma_edit_views(invs@);
                    assert(edit_views(invs@) =~= iv0 + seq![inv@]);
                    let tail = apply_all(s@, edit_views(rest@)).1;
                    assert(iv0 + (seq![inv@] + tail) =~= (iv0 + seq![inv@]) + tail);
                    assert(orig.subrange(k, orig.len() as int) =~= rest@);
                }
            }
            proof {
                lemma_edit_views(rest@);
                assert(edit_views(rest@) =~= Seq::<EditView>::empty());
                assert(edit_views(invs@) + Seq::<EditView>::empty() =~= edit_views(invs@));
            }
            let ghost all = invs@;
            let ghost n = all.len();
            let mut rev: Vec<ScheduleEdit> = Vec::new();
            while invs.len() > 0
                invariant
                    invs@ == all.take(invs@.len() as int),
                    rev@.len() + invs@.len() == n,
                    n == all.len(),
                    forall|i: int| 0 <= i < rev@.len() ==> #[trigger] rev@[i] == all[n - 1 - i],
                decreases invs.len(),
            {
                let c = invs.pop().unwrap();
                rev.push(c);
                proof {
                    assert(invs@ =~= all.take(invs@.len() as int));
                }
            }
            proof {
                lemma_edit_views(rev@);
                lemma_edit_views(all);
                assert(edit_views(rev@) =~= edit_views(all).reverse());
            }
            ScheduleEdit::Batch(rev)
        },
    }
}

/// Abstract value of a [`ScheduleEditor`]: the schedule and the undo and
/// redo stacks (most recent last).
#[verifier::ext_equal]
pub struct EditorView {
    pub schedule: ScheduleView,
    pub undo: Seq<EditView>,
    pub redo: Seq<EditView>,
}

/// Recording edit `e`: it is applied, its reverse goes on the undo stack,
/// and the redo stack is cleared.
pub open spec fn record(v: EditorView, e: EditView) -> EditorView {
    let r = apply(v.schedule, e);
    EditorView { schedule: r.0, undo: v.undo.push(r.1), redo: Seq::empty() }
}

/// The schedule edit that carries out a presenter command.
pub open spec fn presenter_edit(c: PresenterCommandView) -> EditView {
    match c {
        PresenterCommandView::Update(n, _, new) => EditView::SetPresenter((n, new, ChangeState::Modified)),
        PresenterCommandView::Create(n, snap, cs) => EditView::SetPresenter((n, snap, cs)),
        PresenterCommandView::Relate(g) => EditView::Relate(g),
    }
}

/// The schedule edits that carry out presenter commands, in order.
pub open spec fn presenter_edits(cs: Seq<PresenterCommandView>) -> Seq<EditView> {
    cs.map_values(|c: PresenterCommandView| presenter_edit(c))
}

/// Finding or creating presenter `name`: the editor afterwards and the
/// stored name.  The planned commands run as one undo step; nothing is
/// recorded when there are none.
pub open spec fn presenter_run(v: EditorView, name: Seq<char>, opts: PresenterOptionsView) -> (
    EditorView,
    Seq<char>,
) {
    let p = presenter_plan(v.schedule.presenters, name, opts);
    (
        if p.1.len() == 0 {
            v
        } else {
            record(v, EditView::Batch(presenter_edits(p.1)))
        },
        p.0,
    )
}

/// Options with only a rank and a sort position.
pub open spec fn basic_opts(rank: u8, sort_rank: Option<SortRank>) -> PresenterOptionsView {
    PresenterOptionsView {
        rank: Some(rank),
        sort_rank,
        add_groups: Seq::empty(),
        add_members: Seq::empty(),
        is_group: None,
        always_grouped: None,
        always_shown: None,
        change_state: None,
    }
}

/// Running the steps of a tagged cell; `last` is the name the latest
/// find-or-create returned.
pub open spec fn run_steps(v: EditorView, steps: Seq<TaggedStepView>, last: Seq<char>) -> (
    EditorView,
    Seq<char>,
)
    decreases steps.len(),
{
    if steps.len() == 0 {
        (v, last)
    } else {
        match steps[0] {
            TaggedStepView::FindOrCreate(n, rank, sr) => {
                let r = presenter_run(v, n, basic_opts(rank, sr));
                run_steps(r.0, steps.drop_first(), r.1)
            },
            TaggedStepView::Run(c) => run_steps(record(v, presenter_edit(c)), steps.drop_first(), last),
            TaggedStepView::JoinFound(g, grouped) => run_steps(
                record(v, EditView::Relate((Some(last), g, grouped, false))),
                steps.drop_first(),
                last,
            ),
        }
    }
}

/// The rank of tag letter `c`: the first entry of `table` with that
/// letter, ignoring ASCII case.
pub open spec fn tag_rank(table: Seq<(char, u8)>, c: char) -> Option<u8>
    decreases table.len(),
{
    if table.len() == 0 {
        None
    } else if ascii_lower(table[0].0) == ascii_lower(c) {
        Some(table[0].1)
    } else {
        tag_rank(table.drop_first(), c)
    }
}

/// The rank of a cell's `<letter>:` tag, if it has one.
pub open spec fn cell_tag(t: Seq<char>, table: Seq<(char, u8)>) -> Option<u8> {
    if t.len() >= 2 && t[1] == ':' {
        tag_rank(table, t[0])
    } else {
        None
    }
}

/// Placing a presenter cell: the editor afterwards and the name it
/// resolves to.  An existing presenter (by name, ignoring case) is returned
/// as stored; a tagged cell runs its steps; an untagged one is created with
/// the default rank when `always_create` is set.
pub open spec fn update_or_create_spec(
    v: EditorView,
    input: Seq<char>,
    always_create: bool,
    column: Option<u32>,
    row: Option<u32>,
    table: Seq<(char, u8)>,
) -> (EditorView, Option<Seq<char>>) {
    let t = trim(input);
    let rows = v.schedule.presenters;
    if t.len() == 0 {
        (v, None)
    } else if presenter_named(rows, t) {
        (v, Some(rows[choose|i: int| first_presenter_named(rows, t, i)].0))
    } else if cell_tag(t, table) is Some {
        let rank = cell_tag(t, table)->Some_0;
        match tagged_view(trim(t.subrange(2, t.len() as int))) {
            None => (v, None),
            Some(cell) => {
                let r = run_steps(v, tagged_steps(cell, rank, column, row), Seq::empty());
                (r.0, if group_outcome(cell.0, cell.1) {
                    cell.1
                } else {
                    Some(r.1)
                })
            },
        }
    } else if always_create {
        let r = presenter_run(v, t, basic_opts(DEFAULT_RANK, cell_rank(column, row, 0)));
        (r.0, Some(r.1))
    } else {
        (v, None)
    }
}

/// Undoing the latest step: its reversing edit is applied and the reverse
/// of that goes on the redo stack.
pub open spec fn undone(v: EditorView) -> EditorView {
    let r = apply(v.schedule, v.undo.last());
    EditorView { schedule: r.0, undo: v.undo.drop_last(), redo: v.redo.push(r.1) }
}

/// Redoing the latest undone step.
pub open spec fn redone(v: EditorView) -> EditorView {
    let r = apply(v.schedule, v.redo.last());
    EditorView { schedule: r.0, undo: v.undo.push(r.1), redo: v.redo.drop_last() }
}

/// A schedule with its undo and redo history of edits.
#[derive(Debug)]
pub struct ScheduleEditor {
    schedule: Schedule,
    undo_stack: Vec<ScheduleEdit>,
    redo_stack: Vec<ScheduleEdit>,
}

impl View for ScheduleEditor {
    type V = EditorView;

    open spec fn view(&self) -> EditorView {
        EditorView {
            schedule: self.spec_schedule()@,
            undo: self.undo_views(),
            redo: self.redo_views(),
        }
    }
}

fn to_edit(c: PresenterCommand) -> (r: ScheduleEdit)
    ensures
        r@ == presenter_edit(c@),
{
    match c {
        PresenterCommand::UpdatePresenter { name, old, new } => ScheduleEdit::SetPresenter(
            PresenterRow {
                name,
                rank: new.rank,
                sort_rank: new.sort_rank,
                change_state: ChangeState::Modified,
            },
        ),
        PresenterCommand::CreatePresenter { name, snapshot, change_state } => ScheduleEdit::SetPresenter(
            PresenterRow { name, rank: snapshot.rank, sort_rank: snapshot.sort_rank, change_state },
        ),
        PresenterCommand::AddRelationship { edge } => ScheduleEdit::Relate(edge),
    }
}

fn tag_lookup(table: &[(char, u8)], c: char) -> (r: Option<u8>)
    ensures
        r == tag_rank(table@, c),
{
    let ghost t = table@;
    let cl = lower_ascii(c);
    let mut i: usize = 0;
    assert(t.subrange(0, t.len() as int) =~= t);
    while i < table.len()
        invariant
            i <= table@.len(),
            t == table@,
            cl == ascii_lower(c),
            tag_rank(t, c) == tag_rank(t.subrange(i as int, t.len() as int), c),
        decreases table@.len() - i,
    {
        let ghost rest = t.subrange(i as int, t.len() as int);
        assert(rest[0] == t[i as int]);
        if lower_ascii(table[i].0) == cl {
            return Some(table[i].1);
        }
        assert(rest.drop_first() =~= t.subrange(i as int + 1, t.len() as int));
        i = i + 1;
    }
    assert(t.subrange(i as int, t.len() as int) =~= Seq::<(char, u8)>::empty());
    None
}

fn lower_ascii(c: char) -> (r: u32)
    ensures
        r == ascii_lower(c),
{
    let u = c as u32;
    if 65 <= u && u <= 90 {
        u + 32
    } else {
        u
    }
}

impl ScheduleEditor {
    /// The schedule.
    pub closed spec fn spec_schedule(&self) -> Schedule {
        self.schedule
    }

    /// The undo stack, most recent last.
    pub closed spec fn undo_views(&self) -> Seq<EditView> {
        views(self.undo_stack@)
    }

    /// The redo stack, most recent last.
    pub closed spec fn redo_views(&self) -> Seq<EditView> {
        views(self.redo_stack@)
    }

    /// An editor for `schedule` with empty history.
    pub fn new(schedule: Schedule) -> (r: ScheduleEditor)
        ensures
            r.spec_schedule() == schedule,
            r@.undo == Seq::<EditView>::empty(),
            r@.redo == Seq::<EditView>::empty(),
    {
        let r = ScheduleEditor { schedule, undo_stack: Vec::new(), redo_stack: Vec::new() };
        assert(r@.undo =~= Seq::<EditView>::empty());
        assert(r@.redo =~= Seq::<EditView>::empty());
        r
    }

    /// The schedule.
    pub fn schedule(&self) -> (r: &Schedule)
        ensures
            *r == self.spec_schedule(),
    {
        &self.schedule
    }

    /// Whether there is a step to undo.
    pub fn can_undo(&self) -> (r: bool)
        ensures
            r == (self@.undo.len() > 0),
    {
        self.undo_stack.len() > 0
    }

    /// Whether there is a step to redo.
    pub fn can_redo(&self) -> (r: bool)
        ensures
            r == (self@.redo.len() > 0),
    {
        self.redo_stack.len() > 0
    }

    /// Apply an edit as one undo step.
    pub fn execute(&mut self, e: ScheduleEdit)
        ensures
            final(self)@ == record(old(self)@, e@),
    {
        let ghost v0 = self@;
        let inv = apply_edit(&mut self.schedule, e);
        self.undo_stack.push(inv);
        self.redo_stack = Vec::new();
        assert(self@.undo =~= v0.undo.push(inv@));
        assert(self@.redo =~= Seq::<EditView>::empty());
        assert(self@ =~= record(v0, e@));
    }

    /// Undo the most recent step.
    pub fn undo(&mut self) -> (r: Result<(), EditError>)
        ensures
            old(self)@.undo.len() == 0 ==> r == Err::<(), EditError>(EditError::NothingToUndo)
                && final(self)@ == old(self)@,
            old(self)@.undo.len() > 0 ==> r is Ok && final(self)@ == undone(old(self)@),
    {
        let ghost v0 = self@;
        match self.undo_stack.pop() {
            None => {
                assert(self@ =~= v0);
                Err(EditError::NothingToUndo)
            },
            Some(e) => {
                assert(e@ == v0.undo.last());
                let inv = apply_edit(&mut self.schedule, e);
                self.redo_stack.push(inv);
                assert(self@.undo =~= v0.undo.drop_last());
                assert(self@.redo =~= v0.redo.push(inv@));
                assert(self@ =~= undone(v0));
                Ok(())
            },
        }
    }

    /// Redo the most recently undone step.
    pub fn redo(&mut self) -> (r: Result<(), EditError>)
        ensures
            old(self)@.redo.len() == 0 ==> r == Err::<(), EditError>(EditError::NothingToRedo)
                && final(self)@ == old(self)@,
            old(self)@.redo.len() > 0 ==> r is Ok && final(self)@ == redone(old(self)@),
    {
        let ghost v0 = self@;
        match self.redo_stack.pop() {
            None => {
                assert(self@ =~= v0);
                Err(EditError::NothingToRedo)
            },
            Some(e) => {
                assert(e@ == v0.redo.last());
                let inv = apply_edit(&mut self.schedule, e);
                self.undo_stack.push(inv);
                assert(self@.redo =~= v0.redo.drop_last());
                assert(self@.undo =~= v0.undo.push(inv@));
                assert(self@ =~= redone(v0));
                Ok(())
            },
        }
    }

    /// Find a room by short name (case-insensitive), or create one; a found
    /// room gets the options applied.  Returns the room's UID.  A change is
    /// one undo step; nothing is recorded when nothing changes.
    pub fn find_or_create_room(&mut self, short_name: &str, opts: &RoomOptions) -> (r: u32)
        requires
            (forall|i: int| !first_room_named(old(self).spec_schedule().rooms@, short_name@, i))
                && opts.uid is None ==> max_room_uid(old(self).spec_schedule().rooms@) < u32::MAX,
        ensures
            match room_plan(old(self).spec_schedule().rooms@, short_name@, *opts) {
                RoomPlanView::Unchanged(uid) => r == uid && final(self)@ == old(self)@,
                RoomPlanView::Update(uid, _, new) => r == uid && final(self)@ == record(
                    old(self)@,
                    EditView::SetRoom((uid, new, ChangeState::Modified)),
                ),
                RoomPlanView::Create(uid, snap) => r == uid && final(self)@ == record(
                    old(self)@,
                    EditView::SetRoom((uid, snap, created_state(opts.change_state))),
                ),
            },
    {
        match plan_find_or_create_room(self.schedule.rooms.as_slice(), short_name, opts) {
            RoomPlan::Unchanged { uid } => uid,
            RoomPlan::Update { uid, old, new } => {
                let row = RoomRow {
                    uid,
                    short_name: new.short_name,
                    long_name: new.long_name,
                    hotel_room: new.hotel_room,
                    sort_key: new.sort_key,
                    is_break: new.is_break,
                    change_state: ChangeState::Modified,
                };
                self.execute(ScheduleEdit::SetRoom(row));
                uid
            },
            RoomPlan::Create { uid, snapshot } => {
                let change_state = match opts.change_state {
                    Some(c) => c,
                    None => ChangeState::Added,
                };
                let row = RoomRow {
                    uid,
                    short_name: snapshot.short_name,
                    long_name: snapshot.long_name,
                    hotel_room: snapshot.hotel_room,
                    sort_key: snapshot.sort_key,
                    is_break: snapshot.is_break,
                    change_state,
                };
                self.execute(ScheduleEdit::SetRoom(row));
                uid
            },
        }
    }

    /// Find a panel type by prefix (case-insensitive), or create one; a
    /// found panel type gets the options applied.  Returns the prefix as
    /// stored.  A change is one undo step; nothing is recorded when nothing
    /// changes.
    pub fn find_or_create_panel_type(&mut self, prefix: &str, opts: &PanelTypeOptions) -> (r: String)
        ensures
            match panel_type_plan(old(self).spec_schedule().panel_types@, prefix@, *opts) {
                PanelTypePlanView::Unchanged(p) => r@ == p && final(self)@ == old(self)@,
                PanelTypePlanView::Update(p, _, new) => r@ == p && final(self)@ == record(
                    old(self)@,
                    EditView::SetPanelType((p, new, ChangeState::Modified)),
                ),
                PanelTypePlanView::Create(p, snap) => r@ == p && final(self)@ == record(
                    old(self)@,
                    EditView::SetPanelType((p, snap, created_state(opts.change_state))),
                ),
            },
    {
        match plan_find_or_create_panel_type(self.schedule.panel_types.as_slice(), prefix, opts) {
            PanelTypePlan::Unchanged { prefix } => prefix,
            PanelTypePlan::Update { prefix, old, new } => {
                let row = PanelTypeRow {
                    prefix: prefix.clone(),
                    snapshot: new,
                    change_state: ChangeState::Modified,
                };
                self.execute(ScheduleEdit::SetPanelType(row));
                prefix
            },
            PanelTypePlan::Create { prefix, snapshot } => {
                let change_state = match opts.change_state {
                    Some(c) => c,
                    None => ChangeState::Added,
                };
                let row = PanelTypeRow { prefix: prefix.clone(), snapshot, change_state };
                self.execute(ScheduleEdit::SetPanelType(row));
                prefix
            },
        }
    }

    /// Find a presenter by name (case-insensitive), or create one; the
    /// planned commands (the update or creation, then the relationship
    /// commands) run as one undo step.  Returns the stored name.
    pub fn find_or_create_presenter(&mut self, name: &str, opts: &PresenterOptions) -> (r: String)
        ensures
            (final(self)@, r@) == presenter_run(old(self)@, name@, opts@),
    {
        let ghost v0 = self@;
        proof {
            assert(presenter_rows(self.schedule.presenters@) =~= views(self.schedule.presenters@));
        }
        let (stored, cmds) = plan_find_or_create_presenter(self.schedule.presenters.as_slice(), name, opts);
        let ghost cv = presenter_cmd_views(cmds@);
        if cmds.len() == 0 {
            return stored;
        }
        let ghost orig = cmds@;
        let mut rest = cmds;
        let mut edits: Vec<ScheduleEdit> = Vec::new();
        let ghost mut k: int = 0;
        proof {
            assert(orig.subrange(0, orig.len() as int) =~= orig);
            assert(views(edits@) =~= presenter_edits(cv.take(0)));
        }
        while rest.len() > 0
            invariant
                0 <= k <= orig.len(),
                cv == presenter_cmd_views(orig),
                rest@ == orig.subrange(k, orig.len() as int),
                views(edits@) == presenter_edits(cv.take(k)),
            decreases rest.len(),
        {
            let c = rest.remove(0);
            assert(c == orig[k]);
            let ghost e0 = views(edits@);
            let e = to_edit(c);
            edits.push(e);
            proof {
                assert(views(edits@) =~= e0.push(e@));
                assert(cv.take(k + 1) =~= cv.take(k).push(cv[k]));
                assert(presenter_edits(cv.take(k + 1)) =~= presenter_edits(cv.take(k)).push(presenter_edit(cv[k])));
                k = k + 1;
                assert(orig.subrange(k, orig.len() as int) =~= rest@);
            }
        }
        proof {
            assert(cv.take(orig.len() as int) =~= cv);
            lemma_edit_views(edits@);
        }
        self.execute(ScheduleEdit::Batch(edits));
        stored
    }

    /// Place a presenter cell of a schedule sheet.  The input is trimmed;
    /// an empty cell gives `None`.  A presenter with that name (ignoring
    /// case) is returned as stored.  A `<letter>:` tag whose letter has a
    /// rank in `tag_ranks` marks a tagged cell `[<][name][=[=]group]`,
    /// placed step by step; `Other` or an empty rest gives `None`.  Any
    /// other text is created with the default rank when `always_create` is
    /// set, and gives `None` otherwise.
    pub fn update_or_create_presenter(
        &mut self,
        input: &str,
        always_create: bool,
        column_index: Option<u32>,
        row_index: Option<u32>,
        tag_ranks: &[(char, u8)],
    ) -> (r: Option<String>)
        ensures
            (final(self)@, opt_view(r)) == update_or_create_spec(
                old(self)@,
                input@,
                always_create,
                column_index,
                row_index,
                tag_ranks@,
            ),
    {
        let ghost v0 = self@;
        let t = trim_str(input);
        let n = t.unicode_len();
        if n == 0 {
            return None;
        }
        proof {
            assert(presenter_rows(self.schedule.presenters@) =~= views(self.schedule.presenters@));
        }
        match find_presenter(self.schedule.presenters.as_slice(), t) {
            Some(i) => {
                assert(v0.schedule.presenters[i as int].0 == self.schedule.presenters@[i as int].name@);
                proof {
                    let rows = v0.schedule.presenters;
                    let k = choose|k: int| first_presenter_named(rows, t@, k);
                    assert(first_presenter_named(rows, t@, k));
                    if k < i {
                        assert(!crate::edit::find::eq_ignore_ascii_case(rows[k].0, t@));
                    } else if k > i {
                        assert(!crate::edit::find::eq_ignore_ascii_case(rows[i as int].0, t@));
                    }
                }
                return Some(self.schedule.presenters[i].name.clone());
            },
            None => {},
        }
        let tagged = if n >= 2 && t.get_char(1) == ':' {
            tag_lookup(tag_ranks, t.get_char(0))
        } else {
            None
        };
        match tagged {
            Some(rank) => {
                let rest = trim_str(t.substring_char(2, n));
                self.process_tagged_presenter(rest, rank, column_index, row_index)
            },
            None => {
                if always_create {
                    let opts = PresenterOptions {
                        rank: Some(DEFAULT_RANK),
                        sort_rank: cell_sort(column_index, row_index, 0),
                        add_groups: Vec::new(),
                        add_members: Vec::new(),
                        is_group: None,
                        always_grouped: None,
                        always_shown: None,
                        change_state: None,
                    };
                    proof {
                        assert(opts@.add_groups =~= Seq::<Seq<char>>::empty());
                        assert(opts@.add_members =~= Seq::<Seq<char>>::empty());
                        assert(opts@ == basic_opts(DEFAULT_RANK, cell_rank(column_index, row_index, 0)));
                    }
                    Some(self.find_or_create_presenter(t, &opts))
                } else {
                    None
                }
            },
        }
    }

    /// Run the steps of a tagged cell (the text after its tag) with the
    /// tag's rank; `None` for an empty rest or `Other`.
    fn process_tagged_presenter(
        &mut self,
        rest: &str,
        rank: u8,
        column_index: Option<u32>,
        row_index: Option<u32>,
    ) -> (r: Option<String>)
        ensures
            match tagged_view(rest@) {
                None => final(self)@ == old(self)@ && r is None,
                Some(cell) => {
                    let run = run_steps(old(self)@, tagged_steps(cell, rank, column_index, row_index), Seq::empty());
                    &&& final(self)@ == run.0
                    &&& opt_view(r) == if group_outcome(cell.0, cell.1) {
                        cell.1
                    } else {
                        Some(run.1)
                    }
                },
            },
    {
        let ghost v0 = self@;
        let plan = match plan_tagged_presenter(rest, rank, column_index, row_index) {
            None => return None,
            Some(p) => p,
        };
        let ghost cell = tagged_view(rest@)->Some_0;
        let ghost all = step_views(plan.steps@);
        let ghost target = run_steps(v0, all, Seq::empty());
        let ghost orig = plan.steps@;
        let outcome = plan.outcome;
        let mut steps = plan.steps;
        let mut last = String::new();
        let ghost mut k: int = 0;
        proof {
            assert(orig.subrange(0, orig.len() as int) =~= orig);
            assert(step_views(orig.subrange(0, orig.len() as int)) =~= all);
        }
        while steps.len() > 0
            invariant
                0 <= k <= orig.len(),
                all == step_views(orig),
                steps@ == orig.subrange(k, orig.len() as int),
                run_steps(self@, step_views(steps@), last@) == target,
            decreases steps.len(),
        {
            let ghost sv = step_views(steps@);
            let st = steps.remove(0);
            proof {
                assert(sv[0] == st@);
                assert(step_views(steps@) =~= sv.drop_first());
            }
            match st {
                TaggedStep::FindOrCreate { name, rank, sort_rank } => {
                    let opts = PresenterOptions {
                        rank: Some(rank),
                        sort_rank,
                        add_groups: Vec::new(),
                        add_members: Vec::new(),
                        is_group: None,
                        always_grouped: None,
                        always_shown: None,
                        change_state: None,
                    };
                    proof {
                        assert(opts@.add_groups =~= Seq::<Seq<char>>::empty());
                        assert(opts@.add_members =~= Seq::<Seq<char>>::empty());
                        assert(opts@ == basic_opts(rank, sort_rank));
                    }
                    last = self.find_or_create_presenter(name.as_str(), &opts);
                },
                TaggedStep::Run(c) => {
                    self.execute(to_edit(c));
                },
                TaggedStep::JoinFound { group, always_grouped } => {
                    let edge = GroupEdge {
                        member: Some(last.clone()),
                        group,
                        always_grouped,
                        always_shown: false,
                    };
                    self.execute(ScheduleEdit::Relate(edge));
                },
            }
            proof {
                k = k + 1;
                assert(orig.subrange(k, orig.len() as int) =~= steps@);
            }
        }
        match outcome {
            TaggedOutcome::Group(g) => g,
            TaggedOutcome::Found => Some(last),
        }
    }
}

/// Some relationship satisfies `p`.
pub open spec fn any_relationship(rels: Seq<GroupEdgeView>, p: spec_fn(GroupEdgeView) -> bool) -> bool {
    exists|i: int| 0 <= i < rels.len() && p(#[trigger] rels[i])
}

/// `name` is the group of some relationship.
pub open spec fn is_group_edge(name: Seq<char>) -> spec_fn(GroupEdgeView) -> bool {
    |g: GroupEdgeView| g.1 == name
}

/// `name` is the group of a relationship marked always shown.
pub open spec fn shown_edge(name: Seq<char>) -> spec_fn(GroupEdgeView) -> bool {
    |g: GroupEdgeView| g.1 == name && g.3
}

/// `name` is the member of a relationship marked always grouped.
pub open spec fn grouped_edge(name: Seq<char>) -> spec_fn(GroupEdgeView) -> bool {
    |g: GroupEdgeView| g.0 == Some(name) && g.2
}

/// `member` belongs to `group`.
pub open spec fn member_edge(member: Seq<char>, group: Seq<char>) -> spec_fn(GroupEdgeView) -> bool {
    |g: GroupEdgeView| g.0 == Some(member) && g.1 == group
}

/// `member` belongs to some group.
pub open spec fn has_group_edge(member: Seq<char>) -> spec_fn(GroupEdgeView) -> bool {
    |g: GroupEdgeView| g.0 == Some(member)
}

fn edge_group_is(g: &GroupEdge, name: &str) -> (r: bool)
    ensures
        r == (g@.1 == name@),
{
    str_eq(g.group.as_str(), name)
}

fn edge_member_is(g: &GroupEdge, name: &str) -> (r: bool)
    ensures
        r == (g@.0 == Some(name@)),
{
    match &g.member {
        Some(m) => str_eq(m.as_str(), name),
        None => false,
    }
}

impl Schedule {
    /// Whether `name` is a group: it is the group of some relationship.
    pub fn is_group(&self, name: &str) -> (r: bool)
        ensures
            r == any_relationship(self@.relationships, is_group_edge(name@)),
    {
        let ghost v = self@.relationships;
        let mut i: usize = 0;
        while i < self.relationships.len()
            invariant
                i <= self.relationships@.len(),
                v == self@.relationships,
                forall|j: int| 0 <= j < i ==> !is_group_edge(name@)(#[trigger] v[j]),
            decreases self.relationships@.len() - i,
        {
            assert(v[i as int] == self.relationships@[i as int]@);
            if edge_group_is(&self.relationships[i], name) {
                return true;
            }
            i = i + 1;
        }
        false
    }

    /// Whether group `name` is always shown as a group.
    pub fn always_shown(&self, name: &str) -> (r: bool)
        ensures
            r == any_relationship(self@.relationships, shown_edge(name@)),
    {
        let ghost v = self@.relationships;
        let mut i: usize = 0;
        while i < self.relationships.len()
            invariant
                i <= self.relationships@.len(),
                v == self@.relationships,
                forall|j: int| 0 <= j < i ==> !shown_edge(name@)(#[trigger] v[j]),
            decreases self.relationships@.len() - i,
        {
            assert(v[i as int] == self.relationships@[i as int]@);
            if edge_group_is(&self.relationships[i], name) && self.relationships[i].always_shown {
                return true;
            }
            i = i + 1;
        }
        false
    }

    /// Whether presenter `name` is always shown with its groups.
    pub fn always_grouped(&self, name: &str) -> (r: bool)
        ensures
            r == any_relationship(self@.relationships, grouped_edge(name@)),
    {
        let ghost v = self@.relationships;
        let mut i: usize = 0;
        while i < self.relationships.len()
            invariant
                i <= self.relationships@.len(),
                v == self@.relationships,
                forall|j: int| 0 <= j < i ==> !grouped_edge(name@)(#[trigger] v[j]),
            decreases self.relationships@.len() - i,
        {
            assert(v[i as int] == self.relationships@[i as int]@);
            if edge_member_is(&self.relationships[i], name) && self.relationships[i].always_grouped {
                return true;
            }
            i = i + 1;
        }
        false
    }

    /// Whether `member` belongs to `group`.
    pub fn in_group(&self, member: &str, group: &str) -> (r: bool)
        ensures
            r == any_relationship(self@.relationships, member_edge(member@, group@)),
    {
        let ghost v = self@.relationships;
        let mut i: usize = 0;
        while i < self.relationships.len()
            invariant
                i <= self.relationships@.len(),
                v == self@.relationships,
                forall|j: int| 0 <= j < i ==> !member_edge(member@, group@)(#[trigger] v[j]),
            decreases self.relationships@.len() - i,
        {
            assert(v[i as int] == self.relationships@[i as int]@);
            if edge_member_is(&self.relationships[i], member) && edge_group_is(
                &self.relationships[i],
                group,
            ) {
                return true;
            }
            i = i + 1;
        }
        false
    }

    /// Whether `member` belongs to any group.
    pub fn has_groups(&self, member: &str) -> (r: bool)
        ensures
            r == any_relationship(self@.relationships, has_group_edge(member@)),
    {
        let ghost v = self@.relationships;
        let mut i: usize = 0;
        while i < self.relationships.len()
            invariant
                i <= self.relationships@.len(),
                v == self@.relationships,
                forall|j: int| 0 <= j < i ==> !has_group_edge(member@)(#[trigger] v[j]),
            decreases self.relationships@.len() - i,
        {
            assert(v[i as int] == self.relationships@[i as int]@);
            if edge_member_is(&self.relationships[i], member) {
                return true;
            }
            i = i + 1;
        }
        false
    }
}

} // verus!
