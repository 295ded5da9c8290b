//! Laws of the find-or-create plans: every option given takes effect on
//! the room or panel type planned, a presenter found under another
//! spelling is related to its groups and members by its stored name, and
//! tag letters are read without regard to ASCII case.

use vstd::prelude::*;
use crate::edit::editor::{cell_tag, tag_rank};
use crate::edit::find::{ascii_lower, eq_ignore_ascii_case};
use crate::edit::plan::{
    GroupEdgeView, PanelTypeOptions, PanelTypePlanView, PanelTypeRow, PresenterCommandView,
    PresenterOptionsView, PresenterRowView, RoomOptions, RoomPlanView, RoomRow, first_panel_type,
    first_presenter_named, first_room_named, first_room_uid, groups_cmds, max_room_uid,
    members_cmds, panel_type_plan, presenter_named, presenter_plan, relationship_cmds, room_plan,
    room_snap, tagged_steps, TaggedStepView,
};

verus! {

// ── Uniqueness of first matches ──────────────────────────────────────────────

proof fn lemma_first_room_unique(rooms: Seq<RoomRow>, name: Seq<char>, i: int)
    requires
        first_room_named(rooms, name, i),
    ensures
        (choose|k: int| first_room_named(rooms, name, k)) == i,
{
    let k = choose|k: int| first_room_named(rooms, name, k);
    assert(first_room_named(rooms, name, k));
    if k < i {
        assert(!crate::edit::find::eq_ignore_ascii_case(rooms[k].short_name@, name));
    } else if i < k {
        assert(!crate::edit::find::eq_ignore_ascii_case(rooms[i].short_name@, name));
    }
}

proof fn lemma_first_panel_type_unique(rows: Seq<PanelTypeRow>, prefix: Seq<char>, i: int)
    requires
        first_panel_type(rows, prefix, i),
    ensures
        (choose|k: int| first_panel_type(rows, prefix, k)) == i,
{
    let k = choose|k: int| first_panel_type(rows, prefix, k);
    assert(first_panel_type(rows, prefix, k));
    if k < i {
        assert(!crate::edit::find::eq_ignore_ascii_case(rows[k].prefix@, prefix));
    } else if i < k {
        assert(!crate::edit::find::eq_ignore_ascii_case(rows[i].prefix@, prefix));
    }
}

proof fn lemma_first_presenter_unique(rows: Seq<PresenterRowView>, name: Seq<char>, i: int)
    requires
        first_presenter_named(rows, name, i),
    ensures
        (choose|k: int| first_presenter_named(rows, name, k)) == i,
{
    let k = choose|k: int| first_presenter_named(rows, name, k);
    assert(first_presenter_named(rows, name, k));
    if k < i {
        assert(!crate::edit::find::eq_ignore_ascii_case(rows[k].0, name));
    } else if i < k {
        assert(!crate::edit::find::eq_ignore_ascii_case(rows[i].0, name));
    }
}

// ── Rooms ────────────────────────────────────────────────────────────────────

/// For a room found by short name (ignoring case), the plan keeps the
/// room's UID and never creates one, and every option given takes effect:
/// the room as planned (the new state of an update, or the stored state
/// when nothing changes) has the given long name, hotel room, sort key and
/// break flag, and keeps its short name.
pub proof fn lemma_room_options_take_effect(rooms: Seq<RoomRow>, name: Seq<char>, opts: RoomOptions, i: int)
    requires
        first_room_named(rooms, name, i),
    ensures
        !(room_plan(rooms, name, opts) is Create),
        ({
            let (uid, planned) = match room_plan(rooms, name, opts) {
                RoomPlanView::Unchanged(u) => (u, room_snap(rooms[choose|j: int| first_room_uid(rooms, u, j)])),
                RoomPlanView::Update(u, _, new) => (u, new),
                RoomPlanView::Create(u, s) => (u, s),
            };
            &&& uid == rooms[i].uid
            &&& planned.0 == rooms[i].short_name@
            &&& (opts.long_name matches Some(s) ==> planned.1 == s@)
            &&& (opts.hotel_room matches Some(s) ==> planned.2 == s@)
            &&& (opts.sort_key matches Some(k) ==> planned.3 == k)
            &&& (opts.is_break matches Some(b) ==> planned.4 == b)
            &&& (opts.long_name is None ==> planned.1 == rooms[i].long_name@)
            &&& (opts.hotel_room is None ==> planned.2 == rooms[i].hotel_room@)
            &&& (opts.sort_key is None ==> planned.3 == rooms[i].sort_key)
            &&& (opts.is_break is None ==> planned.4 == rooms[i].is_break)
        }),
        room_plan(rooms, name, opts) matches RoomPlanView::Update(u, old, new) ==> old != new && old
            == room_snap(rooms[choose|j: int| first_room_uid(rooms, u, j)]),
{
    lemma_first_room_unique(rooms, name, i);
}

/// A room that no room's short name matches is created under the given
/// short name, with the given UID or else one more than the largest in
/// use, and with every option given.
pub proof fn lemma_room_created_with_options(rooms: Seq<RoomRow>, name: Seq<char>, opts: RoomOptions)
    requires
        forall|i: int| !first_room_named(rooms, name, i),
        opts.uid is None ==> max_room_uid(rooms) < u32::MAX,
    ensures
        room_plan(rooms, name, opts) matches RoomPlanView::Create(uid, s) && {
            &&& uid == (match opts.uid {
                Some(u) => u as int,
                None => max_room_uid(rooms) + 1,
            })
            &&& s.0 == name
            &&& (opts.long_name matches Some(t) ==> s.1 == t@)
            &&& (opts.hotel_room matches Some(t) ==> s.2 == t@)
            &&& (opts.sort_key matches Some(k) ==> s.3 == k)
            &&& (opts.is_break matches Some(b) ==> s.4 == b)
        },
{
}

// ── Panel types ──────────────────────────────────────────────────────────────

/// For a panel type found by prefix (ignoring case), the plan never
/// creates one, keeps the stored prefix, and every option given takes
/// effect: the panel type as planned (the new state of an update, or the
/// stored state when nothing changes) has the given kind and each given
/// flag.
pub proof fn lemma_panel_type_options_take_effect(
    rows: Seq<PanelTypeRow>,
    prefix: Seq<char>,
    opts: PanelTypeOptions,
    i: int,
)
    requires
        first_panel_type(rows, prefix, i),
    ensures
        !(panel_type_plan(rows, prefix, opts) is Create),
        ({
            let (p, planned) = match panel_type_plan(rows, prefix, opts) {
                PanelTypePlanView::Unchanged(p) => (p, rows[i].snapshot@),
                PanelTypePlanView::Update(p, _, new) => (p, new),
                PanelTypePlanView::Create(p, s) => (p, s),
            };
            let f = planned.2;
            &&& p == rows[i].prefix@
            &&& (opts.kind matches Some(k) ==> planned.0 == k@)
            &&& (opts.is_break matches Some(b) ==> f.is_break == b)
            &&& (opts.is_cafe matches Some(b) ==> f.is_cafe == b)
            &&& (opts.is_workshop matches Some(b) ==> f.is_workshop == b)
            &&& (opts.is_hidden matches Some(b) ==> f.is_hidden == b)
            &&& (opts.is_room_hours matches Some(b) ==> f.is_room_hours == b)
            &&& (opts.is_timeline matches Some(b) ==> f.is_timeline == b)
            &&& (opts.is_private matches Some(b) ==> f.is_private == b)
            &&& (opts.kind is None ==> planned.0 == rows[i].snapshot@.0)
            &&& (opts.is_break is None ==> f.is_break == rows[i].snapshot.flags.is_break)
            &&& (opts.is_cafe is None ==> f.is_cafe == rows[i].snapshot.flags.is_cafe)
            &&& (opts.is_workshop is None ==> f.is_workshop == rows[i].snapshot.flags.is_workshop)
            &&& (opts.is_hidden is None ==> f.is_hidden == rows[i].snapshot.flags.is_hidden)
            &&& (opts.is_room_hours is None ==> f.is_room_hours == rows[i].snapshot.flags.is_room_hours)
            &&& (opts.is_timeline is None ==> f.is_timeline == rows[i].snapshot.flags.is_timeline)
            &&& (opts.is_private is None ==> f.is_private == rows[i].snapshot.flags.is_private)
        }),
        panel_type_plan(rows, prefix, opts) matches PanelTypePlanView::Update(_, old, new) ==> old
            != new && old == rows[i].snapshot@,
{
    lemma_first_panel_type_unique(rows, prefix, i);
}

/// A panel type that no prefix matches is created under the given prefix
/// with the given kind, and each flag is the option given or else unset.
pub proof fn lemma_panel_type_created_with_options(
    rows: Seq<PanelTypeRow>,
    prefix: Seq<char>,
    opts: PanelTypeOptions,
)
    requires
        forall|i: int| !first_panel_type(rows, prefix, i),
    ensures
        panel_type_plan(rows, prefix, opts) matches PanelTypePlanView::Create(p, s) && {
            let f = s.2;
            &&& p == prefix
            &&& (opts.kind matches Some(k) ==> s.0 == k@)
            &&& f.is_break == (opts.is_break == Some(true))
            &&& f.is_cafe == (opts.is_cafe == Some(true))
            &&& f.is_workshop == (opts.is_workshop == Some(true))
            &&& f.is_hidden == (opts.is_hidden == Some(true))
            &&& f.is_room_hours == (opts.is_room_hours == Some(true))
            &&& f.is_timeline == (opts.is_timeline == Some(true))
            &&& f.is_private == (opts.is_private == Some(true))
        },
{
}

// ── Presenters ───────────────────────────────────────────────────────────────

/// Command `c` of a plan for the presenter stored as `stored` concerns
/// that presenter: an update is of it, an edge has it as member or group,
/// and anything else created (a group or a member it was asked to join or
/// take in, with the edge that marks a new group) is named in the options.
pub open spec fn concerns(c: PresenterCommandView, stored: Seq<char>, opts: PresenterOptionsView) -> bool {
    match c {
        PresenterCommandView::Update(n, _, _) => n == stored,
        PresenterCommandView::Create(n, _, _) => n == stored || opts.add_groups.contains(n)
            || opts.add_members.contains(n),
        PresenterCommandView::Relate((Some(m), g, _, _)) => m == stored || g == stored,
        PresenterCommandView::Relate((None, g, _, _)) => g == stored || opts.add_groups.contains(g),
    }
}

/// `c` concerns the presenter stored as `stored` and is no update.
pub open spec fn relation_cmd(c: PresenterCommandView, stored: Seq<char>, opts: PresenterOptionsView) -> bool {
    concerns(c, stored, opts) && !(c is Update)
}

/// The membership edge of `member` in `group`.
pub open spec fn member_of(member: Seq<char>, group: Seq<char>, grouped: bool) -> PresenterCommandView {
    PresenterCommandView::Relate((Some(member), group, grouped, false))
}

proof fn lemma_concat_index<T>(a: Seq<T>, b: Seq<T>, k: int)
    requires
        0 <= k < a.len() + b.len(),
    ensures
        (a + b)[k] == if k < a.len() {
            a[k]
        } else {
            b[k - a.len()]
        },
{
}

proof fn lemma_groups_cmds(
    rows: Seq<PresenterRowView>,
    stored: Seq<char>,
    gs: Seq<Seq<char>>,
    grouped: bool,
    opts: PresenterOptionsView,
)
    requires
        forall|j: int| 0 <= j < gs.len() ==> opts.add_groups.contains(#[trigger] gs[j]),
    ensures
        forall|k: int|
            0 <= k < groups_cmds(rows, stored, gs, grouped).len() ==> relation_cmd(
                #[trigger] groups_cmds(rows, stored, gs, grouped)[k],
                stored,
                opts,
            ),
        forall|j: int|
            0 <= j < gs.len() ==> groups_cmds(rows, stored, gs, grouped).contains(
                member_of(stored, #[trigger] gs[j], grouped),
            ),
    decreases gs.len(),
{
    if gs.len() > 0 {
        let init = gs.drop_last();
        assert forall|j: int| 0 <= j < init.len() implies opts.add_groups.contains(
            #[trigger] init[j],
        ) by {
            assert(init[j] == gs[j]);
        }
        lemma_groups_cmds(rows, stored, init, grouped, opts);
        let prev = groups_cmds(rows, stored, init, grouped);
        let g = gs.last();
        assert(opts.add_groups.contains(gs[gs.len() - 1]));
        let block = crate::edit::plan::join_group_cmds(rows, stored, g, grouped);
        let all = groups_cmds(rows, stored, gs, grouped);
        assert(all == prev + block);
        assert forall|k: int| 0 <= k < all.len() implies relation_cmd(#[trigger] all[k], stored, opts) by {
            lemma_concat_index(prev, block, k);
            if k >= prev.len() {
                let head: Seq<PresenterCommandView> = if presenter_named(rows, g) {
                    Seq::empty()
                } else {
                    seq![
                        PresenterCommandView::Create(g, crate::edit::plan::plain_snapshot(), crate::edit::plan::ChangeState::Added),
                        PresenterCommandView::Relate(crate::edit::plan::group_only_view(g, false)),
                    ]
                };
                lemma_concat_index(head, seq![member_of(stored, g, grouped)], k - prev.len());
            }
        }
        assert forall|j: int| 0 <= j < gs.len() implies all.contains(
            member_of(stored, #[trigger] gs[j], grouped),
        ) by {
            if j < gs.len() - 1 {
                assert(init[j] == gs[j]);
                let k = choose|k: int| 0 <= k < prev.len() && prev[k] == member_of(stored, init[j], grouped);
                lemma_concat_index(prev, block, k);
            } else {
                let k = all.len() - 1;
                lemma_concat_index(prev, block, k);
                assert(all[k] == member_of(stored, g, grouped));
            }
        }
    }
}

proof fn lemma_members_cmds(
    rows: Seq<PresenterRowView>,
    stored: Seq<char>,
    ms: Seq<Seq<char>>,
    opts: PresenterOptionsView,
)
    requires
        forall|j: int| 0 <= j < ms.len() ==> opts.add_members.contains(#[trigger] ms[j]),
    ensures
        forall|k: int|
            0 <= k < members_cmds(rows, stored, ms).len() ==> relation_cmd(
                #[trigger] members_cmds(rows, stored, ms)[k],
                stored,
                opts,
            ),
        forall|j: int|
            0 <= j < ms.len() ==> members_cmds(rows, stored, ms).contains(
                member_of(#[trigger] ms[j], stored, false),
            ),
    decreases ms.len(),
{
    if ms.len() > 0 {
        let init = ms.drop_last();
        assert forall|j: int| 0 <= j < init.len() implies opts.add_members.contains(
            #[trigger] init[j],
        ) by {
            assert(init[j] == ms[j]);
        }
        lemma_members_cmds(rows, stored, init, opts);
        let prev = members_cmds(rows, stored, init);
        let m = ms.last();
        assert(opts.add_members.contains(ms[ms.len() - 1]));
        let block = crate::edit::plan::add_member_cmds(rows, stored, m);
        let all = members_cmds(rows, stored, ms);
        assert(all == prev + block);
        assert forall|k: int| 0 <= k < all.len() implies relation_cmd(#[trigger] all[k], stored, opts) by {
            lemma_concat_index(prev, block, k);
            if k >= prev.len() {
                let head: Seq<PresenterCommandView> = if presenter_named(rows, m) {
                    Seq::empty()
                } else {
                    seq![PresenterCommandView::Create(m, crate::edit::plan::plain_snapshot(), crate::edit::plan::ChangeState::Added)]
                };
                lemma_concat_index(head, seq![member_of(m, stored, false)], k - prev.len());
            }
        }
        assert forall|j: int| 0 <= j < ms.len() implies all.contains(
            member_of(#[trigger] ms[j], stored, false),
        ) by {
            if j < ms.len() - 1 {
                assert(init[j] == ms[j]);
                let k = choose|k: int| 0 <= k < prev.len() && prev[k] == member_of(init[j], stored, false);
                lemma_concat_index(prev, block, k);
            } else {
                let k = all.len() - 1;
                lemma_concat_index(prev, block, k);
                assert(all[k] == member_of(m, stored, false));
            }
        }
    }
}

/// The relationship commands for `stored` concern it, and hold every
/// membership the options ask for.
proof fn lemma_relationship_cmds(rows: Seq<PresenterRowView>, stored: Seq<char>, opts: PresenterOptionsView)
    ensures
        forall|k: int|
            0 <= k < relationship_cmds(rows, stored, opts).len() ==> relation_cmd(
                #[trigger] relationship_cmds(rows, stored, opts)[k],
                stored,
                opts,
            ),
        forall|j: int|
            0 <= j < opts.add_groups.len() ==> relationship_cmds(rows, stored, opts).contains(
                member_of(stored, #[trigger] opts.add_groups[j], opts.always_grouped == Some(true)),
            ),
        forall|j: int|
            0 <= j < opts.add_members.len() ==> relationship_cmds(rows, stored, opts).contains(
                member_of(#[trigger] opts.add_members[j], stored, false),
            ),
{
    let grouped = match opts.always_grouped {
        Some(b) => b,
        None => false,
    };
    assert(grouped == (opts.always_grouped == Some(true)));
    let shown = match opts.always_shown {
        Some(b) => b,
        None => false,
    };
    let a: Seq<PresenterCommandView> = if opts.is_group == Some(true) {
        seq![PresenterCommandView::Relate(crate::edit::plan::group_only_view(stored, shown))]
    } else {
        Seq::empty()
    };
    let gc = groups_cmds(rows, stored, opts.add_groups, grouped);
    let mc = members_cmds(rows, stored, opts.add_members);
    assert forall|j: int| 0 <= j < opts.add_groups.len() implies opts.add_groups.contains(
        #[trigger] opts.add_groups[j],
    ) by {}
    assert forall|j: int| 0 <= j < opts.add_members.len() implies opts.add_members.contains(
        #[trigger] opts.add_members[j],
    ) by {}
    lemma_groups_cmds(rows, stored, opts.add_groups, grouped, opts);
    lemma_members_cmds(rows, stored, opts.add_members, opts);
    let all = relationship_cmds(rows, stored, opts);
    assert(all == (a + gc) + mc);
    assert forall|k: int| 0 <= k < all.len() implies relation_cmd(#[trigger] all[k], stored, opts) by {
        lemma_concat_index(a + gc, mc, k);
        if k < (a + gc).len() {
            lemma_concat_index(a, gc, k);
        }
    }
    assert forall|j: int| 0 <= j < opts.add_groups.len() implies all.contains(
        member_of(stored, #[trigger] opts.add_groups[j], opts.always_grouped == Some(true)),
    ) by {
        let k = choose|k: int| 0 <= k < gc.len() && gc[k] == member_of(stored, opts.add_groups[j], grouped);
        lemma_concat_index(a, gc, a.len() + k);
        lemma_concat_index(a + gc, mc, a.len() + k);
    }
    assert forall|j: int| 0 <= j < opts.add_members.len() implies all.contains(
        member_of(#[trigger] opts.add_members[j], stored, false),
    ) by {
        let k = choose|k: int| 0 <= k < mc.len() && mc[k] == member_of(opts.add_members[j], stored, false);
        lemma_concat_index(a + gc, mc, (a + gc).len() + k);
    }
}

/// A presenter found by name (ignoring case) is returned under its stored
/// name, a new one under the name given, and every command of the plan
/// concerns the presenter by that returned name: each group it is asked to
/// join gets a membership edge with it as member, and each member it is
/// asked to take in gets one with it as group.
pub proof fn lemma_presenter_plan_uses_stored_name(
    rows: Seq<PresenterRowView>,
    name: Seq<char>,
    opts: PresenterOptionsView,
)
    ensures
        forall|i: int| #[trigger]
            first_presenter_named(rows, name, i) ==> presenter_plan(rows, name, opts).0 == rows[i].0,
        !presenter_named(rows, name) ==> presenter_plan(rows, name, opts).0 == name,
        forall|k: int|
            0 <= k < presenter_plan(rows, name, opts).1.len() ==> concerns(
                #[trigger] presenter_plan(rows, name, opts).1[k],
                presenter_plan(rows, name, opts).0,
                opts,
            ),
        forall|j: int|
            0 <= j < opts.add_groups.len() ==> presenter_plan(rows, name, opts).1.contains(
                member_of(
                    presenter_plan(rows, name, opts).0,
                    #[trigger] opts.add_groups[j],
                    opts.always_grouped == Some(true),
                ),
            ),
        forall|j: int|
            0 <= j < opts.add_members.len() ==> presenter_plan(rows, name, opts).1.contains(
                member_of(#[trigger] opts.add_members[j], presenter_plan(rows, name, opts).0, false),
            ),
{
    assert forall|i: int| #[trigger] first_presenter_named(rows, name, i) implies presenter_plan(
        rows,
        name,
        opts,
    ).0 == rows[i].0 by {
        lemma_first_presenter_unique(rows, name, i);
    }
    let plan = presenter_plan(rows, name, opts);
    let stored = plan.0;
    lemma_relationship_cmds(rows, stored, opts);
    let rel = relationship_cmds(rows, stored, opts);
    let head: Seq<PresenterCommandView> = if presenter_named(rows, name) {
        let p = rows[choose|i: int| first_presenter_named(rows, name, i)];
        let new = crate::edit::plan::presenter_merged(p.1, opts);
        if p.1 == new {
            Seq::empty()
        } else {
            seq![PresenterCommandView::Update(p.0, p.1, new)]
        }
    } else {
        let snapshot = crate::edit::plan::PresenterSnapshot {
            rank: match opts.rank {
                Some(r) => r,
                None => crate::edit::plan::DEFAULT_RANK,
            },
            sort_rank: opts.sort_rank,
        };
        seq![PresenterCommandView::Create(name, snapshot, crate::edit::plan::created_state(opts.change_state))]
    };
    assert(plan.1 == head + rel);
    assert forall|k: int| 0 <= k < plan.1.len() implies concerns(#[trigger] plan.1[k], stored, opts) by {
        lemma_concat_index(head, rel, k);
    }
    assert forall|j: int| 0 <= j < opts.add_groups.len() implies plan.1.contains(
        member_of(stored, #[trigger] opts.add_groups[j], opts.always_grouped == Some(true)),
    ) by {
        let k = choose|k: int|
            0 <= k < rel.len() && rel[k] == member_of(
                stored,
                opts.add_groups[j],
                opts.always_grouped == Some(true),
            );
        lemma_concat_index(head, rel, head.len() + k);
    }
    assert forall|j: int| 0 <= j < opts.add_members.len() implies plan.1.contains(
        member_of(#[trigger] opts.add_members[j], stored, false),
    ) by {
        let k = choose|k: int| 0 <= k < rel.len() && rel[k] == member_of(opts.add_members[j], stored, false);
        lemma_concat_index(head, rel, head.len() + k);
    }
}

/// For a presenter found by name (ignoring case), the plan changes it
/// only by updates of its stored state that never lower its importance:
/// a given rank is taken only when it is more important (lower) than the
/// stored one, and then it is taken.  When the options ask for nothing
/// new the plan is empty, so nothing is recorded.
pub proof fn lemma_presenter_plan_rank(
    rows: Seq<PresenterRowView>,
    name: Seq<char>,
    opts: PresenterOptionsView,
    i: int,
)
    requires
        first_presenter_named(rows, name, i),
    ensures
        forall|k: int|
            0 <= k < presenter_plan(rows, name, opts).1.len() ==> (#[trigger] presenter_plan(
                rows,
                name,
                opts,
            ).1[k] matches PresenterCommandView::Update(n, o, new) ==> {
                &&& n == rows[i].0
                &&& o == rows[i].1
                &&& new != o
                &&& new.rank <= o.rank
                &&& (opts.rank matches Some(r) ==> new.rank <= r)
            }),
        opts.rank is Some && opts.rank->Some_0 < rows[i].1.rank ==> exists|k: int|
            0 <= k < presenter_plan(rows, name, opts).1.len() && (#[trigger] presenter_plan(
                rows,
                name,
                opts,
            ).1[k] matches PresenterCommandView::Update(_, _, new) && new.rank == opts.rank->Some_0),
        (opts.rank is None || opts.rank->Some_0 >= rows[i].1.rank) && opts.sort_rank is None
            && opts.add_groups.len() == 0 && opts.add_members.len() == 0 && opts.is_group != Some(
            true,
        ) ==> presenter_plan(rows, name, opts).1.len() == 0,
{
    lemma_first_presenter_unique(rows, name, i);
    let plan = presenter_plan(rows, name, opts);
    let stored = plan.0;
    lemma_relationship_cmds(rows, stored, opts);
    let rel = relationship_cmds(rows, stored, opts);
    let p = rows[i];
    let new = crate::edit::plan::presenter_merged(p.1, opts);
    let head: Seq<PresenterCommandView> = if p.1 == new {
        Seq::empty()
    } else {
        seq![PresenterCommandView::Update(p.0, p.1, new)]
    };
    assert(plan.1 == head + rel);
    crate::edit::plan::lemma_merge_only_raises(p.1, opts);
    assert forall|k: int| 0 <= k < plan.1.len() implies (#[trigger] plan.1[k] matches PresenterCommandView::Update(
        n,
        o,
        nw,
    ) ==> {
        &&& n == rows[i].0
        &&& o == rows[i].1
        &&& nw != o
        &&& nw.rank <= o.rank
        &&& (opts.rank matches Some(r) ==> nw.rank <= r)
    }) by {
        lemma_concat_index(head, rel, k);
        if k >= head.len() {
            assert(relation_cmd(rel[k - head.len()], stored, opts));
        }
    }
    if opts.rank is Some {
        if opts.rank->Some_0 < rows[i].1.rank {
            assert(new.rank == opts.rank->Some_0);
            lemma_concat_index(head, rel, 0);
            assert(plan.1[0] == PresenterCommandView::Update(p.0, p.1, new));
        }
    }
    if (opts.rank is None || opts.rank->Some_0 >= rows[i].1.rank) && opts.sort_rank is None
        && opts.add_groups.len() == 0 && opts.add_members.len() == 0 && opts.is_group != Some(true) {
        assert(new == p.1);
        assert(groups_cmds(rows, stored, opts.add_groups, opts.always_grouped == Some(true)).len() == 0);
        assert(members_cmds(rows, stored, opts.add_members).len() == 0);
    }
}

/// A presenter that no name matches is created first, under the name
/// given, with the given rank (or the default one), the given sort
/// position, and the given change state (or `Added`).
pub proof fn lemma_presenter_plan_creates(rows: Seq<PresenterRowView>, name: Seq<char>, opts: PresenterOptionsView)
    requires
        !presenter_named(rows, name),
    ensures
        presenter_plan(rows, name, opts).1.len() > 0,
        presenter_plan(rows, name, opts).1[0] matches PresenterCommandView::Create(n, snap, cs) && {
            &&& n == name
            &&& snap.rank == (match opts.rank {
                Some(r) => r,
                None => crate::edit::plan::DEFAULT_RANK,
            })
            &&& snap.sort_rank == opts.sort_rank
            &&& cs == (match opts.change_state {
                Some(c) => c,
                None => crate::edit::plan::ChangeState::Added,
            })
        },
{
}

// ── Tagged cells ─────────────────────────────────────────────────────────────

/// The steps for a parsed tagged cell `(name, group, always_grouped,
/// always_shown)`: every presenter found or created gets the tag's rank;
/// no presenter is ever made a member of a group of its own name (ignoring
/// case); a group named with `==` gets its always-shown group edge; an
/// individual whose name differs from the group's joins it with the `<`
/// flag; and a cell without a group relates nothing.
pub proof fn lemma_tagged_steps(
    cell: (Seq<char>, Option<Seq<char>>, bool, bool),
    rank: u8,
    column: Option<u32>,
    row: Option<u32>,
)
    ensures
        forall|k: int|
            0 <= k < tagged_steps(cell, rank, column, row).len() ==> (#[trigger] tagged_steps(
                cell,
                rank,
                column,
                row,
            )[k] matches TaggedStepView::FindOrCreate(_, r, _) ==> r == rank),
        forall|k: int|
            0 <= k < tagged_steps(cell, rank, column, row).len() ==> (#[trigger] tagged_steps(
                cell,
                rank,
                column,
                row,
            )[k] matches TaggedStepView::Run(PresenterCommandView::Relate((Some(m), g, _, _)))
                ==> !eq_ignore_ascii_case(m, g)),
        forall|k: int|
            0 <= k < tagged_steps(cell, rank, column, row).len() ==> (#[trigger] tagged_steps(
                cell,
                rank,
                column,
                row,
            )[k] matches TaggedStepView::JoinFound(g, _) ==> cell.0.len() > 0 && !eq_ignore_ascii_case(
                cell.0,
                g,
            )),
        cell.1 is Some && cell.3 ==> tagged_steps(cell, rank, column, row).contains(
            TaggedStepView::Run(PresenterCommandView::Relate((None, cell.1->Some_0, false, true))),
        ),
        cell.1 is Some && cell.0.len() > 0 && !eq_ignore_ascii_case(cell.0, cell.1->Some_0)
            ==> tagged_steps(cell, rank, column, row).contains(
            TaggedStepView::JoinFound(cell.1->Some_0, cell.2),
        ),
        cell.1 is None ==> forall|k: int|
            0 <= k < tagged_steps(cell, rank, column, row).len() ==> (#[trigger] tagged_steps(
                cell,
                rank,
                column,
                row,
            )[k] is FindOrCreate),
{
    let (name, group, grouped, shown) = cell;
    let steps = tagged_steps(cell, rank, column, row);
    match group {
        Some(g) => {
            let a = seq![TaggedStepView::FindOrCreate(g, rank, crate::edit::plan::cell_rank(column, row, 0))];
            let b: Seq<TaggedStepView> = if shown {
                seq![TaggedStepView::Run(PresenterCommandView::Relate(crate::edit::plan::group_only_view(g, true)))]
            } else {
                Seq::empty()
            };
            let c: Seq<TaggedStepView> = if name.len() > 0 && !eq_ignore_ascii_case(name, g) {
                seq![TaggedStepView::Run(PresenterCommandView::Relate((Some(name), g, grouped, false)))]
            } else {
                Seq::empty()
            };
            let d: Seq<TaggedStepView> = if crate::edit::plan::group_outcome(name, group) {
                Seq::empty()
            } else {
                seq![TaggedStepView::FindOrCreate(name, rank, crate::edit::plan::cell_rank(column, row, 1))]
                    + seq![TaggedStepView::JoinFound(g, grouped)]
            };
            assert(steps == a + b + c + d);
            if !crate::edit::plan::group_outcome(name, group) {
                assert(!eq_ignore_ascii_case(g, name));
                assert(!eq_ignore_ascii_case(name, g)) by {
                    if eq_ignore_ascii_case(name, g) {
                        assert(eq_ignore_ascii_case(g, name));
                    }
                }
                assert(steps[steps.len() - 1] == TaggedStepView::JoinFound(g, grouped));
            } else if name.len() > 0 {
                if !eq_ignore_ascii_case(name, g) {
                    assert(eq_ignore_ascii_case(g, name));
                    assert(eq_ignore_ascii_case(name, g));
                }
            }
            if shown {
                assert(steps[1] == TaggedStepView::Run(PresenterCommandView::Relate((None, g, false, true))));
            }
        },
        None => {
            let d: Seq<TaggedStepView> = if crate::edit::plan::group_outcome(name, group) {
                Seq::empty()
            } else {
                seq![TaggedStepView::FindOrCreate(name, rank, crate::edit::plan::cell_rank(column, row, 1))]
            };
            assert(steps =~= d);
        },
    }
}

// ── Tag letters ──────────────────────────────────────────────────────────────

/// The rank of a tag letter is that of the first table entry whose letter
/// is the same ignoring ASCII case, and there is none when no entry's
/// letter is.
pub proof fn lemma_tag_rank_first_match(table: Seq<(char, u8)>, c: char)
    ensures
        tag_rank(table, c) is None <==> forall|i: int|
            0 <= i < table.len() ==> ascii_lower(#[trigger] table[i].0) != ascii_lower(c),
        tag_rank(table, c) matches Some(r) ==> exists|i: int|
            0 <= i < table.len() && ascii_lower(table[i].0) == ascii_lower(c) && table[i].1 == r
                && forall|j: int| 0 <= j < i ==> ascii_lower(#[trigger] table[j].0) != ascii_lower(c),
    decreases table.len(),
{
    if table.len() > 0 {
        let rest = table.drop_first();
        lemma_tag_rank_first_match(rest, c);
        assert forall|i: int| 0 <= i < rest.len() implies rest[i] == table[i + 1] by {}
        if ascii_lower(table[0].0) != ascii_lower(c) {
            if tag_rank(table, c) is None {
                assert forall|i: int| 0 <= i < table.len() implies ascii_lower(
                    #[trigger] table[i].0,
                ) != ascii_lower(c) by {
                    if i > 0 {
                        assert(table[i] == rest[i - 1]);
                    }
                }
            } else {
                if forall|i: int| 0 <= i < table.len() ==> ascii_lower(#[trigger] table[i].0) != ascii_lower(c) {
                    assert forall|i: int| 0 <= i < rest.len() implies ascii_lower(
                        #[trigger] rest[i].0,
                    ) != ascii_lower(c) by {
                        assert(rest[i] == table[i + 1]);
                    }
                }
                let r = tag_rank(table, c)->Some_0;
                let i = choose|i: int|
                    0 <= i < rest.len() && ascii_lower(rest[i].0) == ascii_lower(c) && rest[i].1 == r
                        && forall|j: int| 0 <= j < i ==> ascii_lower(#[trigger] rest[j].0) != ascii_lower(c);
                assert(table[i + 1] == rest[i]);
                assert forall|j: int| 0 <= j < i + 1 implies ascii_lower(#[trigger] table[j].0)
                    != ascii_lower(c) by {
                    if j > 0 {
                        assert(table[j] == rest[j - 1]);
                    }
                }
            }
        } else {
            assert(0 <= 0 < table.len() && ascii_lower(table[0].0) == ascii_lower(c));
        }
    }
}

/// Tag letters are read without regard to ASCII case: an upper-case
/// letter and its lower-case form get the same rank from any table, so a
/// cell tagged `g:` is read as one tagged `G:`.
pub proof fn lemma_tag_rank_ignores_case(table: Seq<(char, u8)>, upper: char, lower: char, t: Seq<char>)
    requires
        65 <= (upper as u32) <= 90,
        (lower as u32) == (upper as u32) + 32,
    ensures
        tag_rank(table, upper) == tag_rank(table, lower),
        t.len() >= 2 && t[0] == upper ==> cell_tag(t, table) == cell_tag(t.update(0, lower), table),
    decreases table.len(),
{
    assert(ascii_lower(upper) == ascii_lower(lower));
    if table.len() > 0 {
        lemma_tag_rank_ignores_case(table.drop_first(), upper, lower, t);
    }
}

} // verus!
