//! Find-or-create decisions for rooms, presenters and panel types.
//!
//! Each function looks an entry up by name, ignoring ASCII case, and decides
//! what to change: nothing, an update built from the options, or a new
//! entry.  The caller runs the returned commands against its schedule.

use vstd::prelude::*;
use vstd::string::*;
use crate::edit::find::{
    TaggedPresenter, eq_ignore_ascii_case, opt_view, parse_tagged_presenter, str_eq_ignore_ascii_case,
    tagged_view,
};
use crate::text::str_eq;
use indexmap::IndexMap;

verus! {

/// The text of `o`, or `d` when there is none.
pub open spec fn text_or(o: Option<String>, d: Seq<char>) -> Seq<char> {
    match o {
        Some(s) => s@,
        None => d,
    }
}

fn copy_or(o: &Option<String>, d: &str) -> (r: String)
    ensures
        r@ == text_or(*o, d@),
{
    match o {
        Some(s) => s.clone(),
        None => String::from_str(d),
    }
}

/// Whether an entry was added, changed or deleted since the schedule was
/// loaded.
#[derive(Debug, Clone, Copy, PartialEq, Eq, Structural)]
pub enum ChangeState {
    Unchanged,
    Added,
    Modified,
    Deleted,
}

/// The change state for a new entry: the given one, or `Added`.
pub open spec fn created_state(o: Option<ChangeState>) -> ChangeState {
    match o {
        Some(c) => c,
        None => ChangeState::Added,
    }
}

// ── Rooms ────────────────────────────────────────────────────────────────────

/// A room of the schedule.
#[derive(Debug, Clone)]
pub struct RoomRow {
    pub uid: u32,
    pub short_name: String,
    pub long_name: String,
    pub hotel_room: String,
    pub sort_key: u32,
    pub is_break: bool,
    pub change_state: ChangeState,
}

/// Abstract value of a room row: UID, snapshot, change state.
pub type RoomRowView = (u32, RoomSnapView, ChangeState);

impl View for RoomRow {
    type V = RoomRowView;

    open spec fn view(&self) -> RoomRowView {
        (
            self.uid,
            (self.short_name@, self.long_name@, self.hotel_room@, self.sort_key, self.is_break),
            self.change_state,
        )
    }
}

/// Options for finding or creating a room.
#[derive(Debug, Clone, Default)]
pub struct RoomOptions {
    pub long_name: Option<String>,
    pub hotel_room: Option<String>,
    pub sort_key: Option<u32>,
    pub is_break: Option<bool>,
    /// UID to use when creating; when absent the next free UID is used.
    pub uid: Option<u32>,
    /// Change state of a created room; `Added` when absent.
    pub change_state: Option<ChangeState>,
}

/// The editable fields of a room.
#[derive(Debug, Clone)]
pub struct RoomSnapshot {
    pub short_name: String,
    pub long_name: String,
    pub hotel_room: String,
    pub sort_key: u32,
    pub is_break: bool,
}

/// Abstract value of a [`RoomSnapshot`]: short name, long name, hotel room,
/// sort key, break flag.
pub type RoomSnapView = (Seq<char>, Seq<char>, Seq<char>, u32, bool);

impl View for RoomSnapshot {
    type V = RoomSnapView;

    open spec fn view(&self) -> RoomSnapView {
        (self.short_name@, self.long_name@, self.hotel_room@, self.sort_key, self.is_break)
    }
}

/// What to do for a room.
#[derive(Debug)]
pub enum RoomPlan {
    /// The room exists and the options change nothing.
    Unchanged { uid: u32 },
    /// The room exists; replace `old` by `new`.
    Update { uid: u32, old: RoomSnapshot, new: RoomSnapshot },
    /// Create the room.
    Create { uid: u32, snapshot: RoomSnapshot },
}

/// Abstract value of a [`RoomPlan`].
pub enum RoomPlanView {
    Unchanged(u32),
    Update(u32, RoomSnapView, RoomSnapView),
    Create(u32, RoomSnapView),
}

impl View for RoomPlan {
    type V = RoomPlanView;

    open spec fn view(&self) -> RoomPlanView {
        match self {
            RoomPlan::Unchanged { uid } => RoomPlanView::Unchanged(*uid),
            RoomPlan::Update { uid, old, new } => RoomPlanView::Update(*uid, old@, new@),
            RoomPlan::Create { uid, snapshot } => RoomPlanView::Create(*uid, snapshot@),
        }
    }
}

/// The snapshot of a room.
pub open spec fn room_snap(r: RoomRow) -> RoomSnapView {
    (r.short_name@, r.long_name@, r.hotel_room@, r.sort_key, r.is_break)
}

/// `i` is the first room whose short name is `name`, ignoring ASCII case.
pub open spec fn first_room_named(rooms: Seq<RoomRow>, name: Seq<char>, i: int) -> bool {
    &&& 0 <= i < rooms.len()
    &&& eq_ignore_ascii_case(rooms[i].short_name@, name)
    &&& forall|j: int| 0 <= j < i ==> !eq_ignore_ascii_case((#[trigger] rooms[j]).short_name@, name)
}

/// `i` is the first room with UID `uid`.
pub open spec fn first_room_uid(rooms: Seq<RoomRow>, uid: u32, i: int) -> bool {
    &&& 0 <= i < rooms.len()
    &&& rooms[i].uid == uid
    &&& forall|j: int| 0 <= j < i ==> (#[trigger] rooms[j]).uid != uid
}

/// The largest room UID, 0 when there are no rooms.
pub open spec fn max_room_uid(rooms: Seq<RoomRow>) -> u32
    decreases rooms.len(),
{
    if rooms.len() == 0 {
        0
    } else {
        let m = max_room_uid(rooms.drop_last());
        if rooms.last().uid > m {
            rooms.last().uid
        } else {
            m
        }
    }
}

/// The existing snapshot `old` with the options applied.
pub open spec fn room_updated(old: RoomSnapView, opts: RoomOptions) -> RoomSnapView {
    (
        old.0,
        text_or(opts.long_name, old.1),
        text_or(opts.hotel_room, old.2),
        match opts.sort_key {
            Some(k) => k,
            None => old.3,
        },
        match opts.is_break {
            Some(b) => b,
            None => old.4,
        },
    )
}

/// The UID a new room gets.
pub open spec fn new_room_uid(rooms: Seq<RoomRow>, opts: RoomOptions) -> int {
    match opts.uid {
        Some(u) => u as int,
        None => max_room_uid(rooms) + 1,
    }
}

/// The snapshot of a new room named `name` with UID `uid`.
pub open spec fn room_created(name: Seq<char>, opts: RoomOptions, uid: u32) -> RoomSnapView {
    (
        name,
        text_or(opts.long_name, name),
        text_or(opts.hotel_room, Seq::empty()),
        match opts.sort_key {
            Some(k) => k,
            None => uid,
        },
        match opts.is_break {
            Some(b) => b,
            None => false,
        },
    )
}

/// What to do for a room named `name`: a room found by name gets the
/// options applied (its current state read from the first room with its
/// UID) and is updated only when that changes something; otherwise a room
/// is created.
pub open spec fn room_plan(rooms: Seq<RoomRow>, name: Seq<char>, opts: RoomOptions) -> RoomPlanView {
    if exists|i: int| first_room_named(rooms, name, i) {
        let i = choose|i: int| first_room_named(rooms, name, i);
        let uid = rooms[i].uid;
        let new = room_updated(room_snap(rooms[i]), opts);
        let j = choose|j: int| first_room_uid(rooms, uid, j);
        let old = room_snap(rooms[j]);
        if old == new {
            RoomPlanView::Unchanged(uid)
        } else {
            RoomPlanView::Update(uid, old, new)
        }
    } else {
        let uid = new_room_uid(rooms, opts) as u32;
        RoomPlanView::Create(uid, room_created(name, opts, uid))
    }
}

fn find_room_named(rooms: &[RoomRow], name: &str) -> (r: Option<usize>)
    ensures
        match r {
            Some(i) => first_room_named(rooms@, name@, i as int),
            None => forall|i: int| !first_room_named(rooms@, name@, i),
        },
{
    let mut i: usize = 0;
    while i < rooms.len()
        invariant
            i <= rooms@.len(),
            forall|j: int| 0 <= j < i ==> !eq_ignore_ascii_case((#[trigger] rooms@[j]).short_name@, name@),
        decreases rooms@.len() - i,
    {
        if str_eq_ignore_ascii_case(rooms[i].short_name.as_str(), name) {
            return Some(i);
        }
        i = i + 1;
    }
    None
}

fn find_room_uid(rooms: &[RoomRow], uid: u32) -> (r: Option<usize>)
    ensures
        match r {
            Some(i) => first_room_uid(rooms@, uid, i as int),
            None => forall|i: int| 0 <= i < rooms@.len() ==> rooms@[i].uid != uid,
        },
{
    let mut i: usize = 0;
    while i < rooms.len()
        invariant
            i <= rooms@.len(),
            forall|j: int| 0 <= j < i ==> (#[trigger] rooms@[j]).uid != uid,
        decreases rooms@.len() - i,
    {
        if rooms[i].uid == uid {
            return Some(i);
        }
        i = i + 1;
    }
    None
}

/// The next free room UID: one more than the largest in use.
pub fn next_room_uid(rooms: &[RoomRow]) -> (r: u32)
    requires
        max_room_uid(rooms@) < u32::MAX,
    ensures
        r == max_room_uid(rooms@) + 1,
{
    let mut m: u32 = 0;
    let mut i: usize = 0;
    while i < rooms.len()
        invariant
            i <= rooms@.len(),
            m == max_room_uid(rooms@.take(i as int)),
            max_room_uid(rooms@) < u32::MAX,
        decreases rooms@.len() - i,
    {
        assert(rooms@.take(i as int + 1).drop_last() =~= rooms@.take(i as int));
        if rooms[i].uid > m {
            m = rooms[i].uid;
        }
        i = i + 1;
    }
    assert(rooms@.take(rooms@.len() as int) =~= rooms@);
    m + 1
}

fn snapshot_of(r: &RoomRow) -> (s: RoomSnapshot)
    ensures
        s@ == room_snap(*r),
{
    RoomSnapshot {
        short_name: r.short_name.clone(),
        long_name: r.long_name.clone(),
        hotel_room: r.hotel_room.clone(),
        sort_key: r.sort_key,
        is_break: r.is_break,
    }
}

fn same_room(a: &RoomSnapshot, b: &RoomSnapshot) -> (r: bool)
    ensures
        r == (a@ == b@),
{
    str_eq(a.short_name.as_str(), b.short_name.as_str()) && str_eq(
        a.long_name.as_str(),
        b.long_name.as_str(),
    ) && str_eq(a.hotel_room.as_str(), b.hotel_room.as_str()) && a.sort_key == b.sort_key
        && a.is_break == b.is_break
}

/// Find a room by short name (case-insensitive) or plan its creation; a
/// found room gets the given options applied.
pub fn plan_find_or_create_room(rooms: &[RoomRow], short_name: &str, opts: &RoomOptions) -> (r:
    RoomPlan)
    requires
        (forall|i: int| !first_room_named(rooms@, short_name@, i)) && opts.uid is None
            ==> max_room_uid(rooms@) < u32::MAX,
    ensures
        r@ == room_plan(rooms@, short_name@, *opts),
{
    match find_room_named(rooms, short_name) {
        Some(i) => {
            let room = &rooms[i];
            let uid = room.uid;
            let cur = snapshot_of(room);
            let new = RoomSnapshot {
                short_name: cur.short_name,
                long_name: copy_or(&opts.long_name, cur.long_name.as_str()),
                hotel_room: copy_or(&opts.hotel_room, cur.hotel_room.as_str()),
                sort_key: match opts.sort_key {
                    Some(k) => k,
                    None => cur.sort_key,
                },
                is_break: match opts.is_break {
                    Some(b) => b,
                    None => cur.is_break,
                },
            };
            let j = find_room_uid(rooms, uid).unwrap();
            proof {
                assert forall|i2: int| first_room_named(rooms@, short_name@, i2) implies i2
                    == i by {
                    if i2 < i {
                        assert(!eq_ignore_ascii_case(rooms@[i2].short_name@, short_name@));
                    } else if i2 > i {
                        assert(!eq_ignore_ascii_case(rooms@[i as int].short_name@, short_name@));
                    }
                }
                assert forall|j2: int| first_room_uid(rooms@, uid, j2) implies j2 == j by {
                    if j2 < j {
                        assert(rooms@[j2].uid != uid);
                    } else if j2 > j {
                        assert(rooms@[j as int].uid != uid);
                    }
                }
            }
            let old = snapshot_of(&rooms[j]);
            proof {
                assert(first_room_named(rooms@, short_name@, i as int));
                assert(new@ == room_updated(room_snap(rooms@[i as int]), *opts));
            }
            if same_room(&old, &new) {
                RoomPlan::Unchanged { uid }
            } else {
                RoomPlan::Update { uid, old, new }
            }
        },
        None => {
            let uid = match opts.uid {
                Some(u) => u,
                None => next_room_uid(rooms),
            };
            let snapshot = RoomSnapshot {
                short_name: String::from_str(short_name),
                long_name: copy_or(&opts.long_name, short_name),
                hotel_room: copy_or(&opts.hotel_room, ""),
                sort_key: match opts.sort_key {
                    Some(k) => k,
                    None => uid,
                },
                is_break: match opts.is_break {
                    Some(b) => b,
                    None => false,
                },
            };
            proof {
                reveal_strlit("");
                assert(""@ =~= Seq::<char>::empty());
                assert(!exists|i: int| first_room_named(rooms@, short_name@, i));
            }
            RoomPlan::Create { uid, snapshot }
        },
    }
}

// ── Presenters ───────────────────────────────────────────────────────────────

/// Where a presenter was first defined: (column, row, member index).
/// Earlier positions compare smaller, field by field.
pub type SortRank = (u32, u32, u32);

/// `a` comes strictly before `b`.
pub open spec fn sort_rank_lt(a: SortRank, b: SortRank) -> bool {
    a.0 < b.0 || (a.0 == b.0 && (a.1 < b.1 || (a.1 == b.1 && a.2 < b.2)))
}

fn sort_rank_less(a: SortRank, b: SortRank) -> (r: bool)
    ensures
        r == sort_rank_lt(a, b),
{
    a.0 < b.0 || (a.0 == b.0 && (a.1 < b.1 || (a.1 == b.1 && a.2 < b.2)))
}

/// The rank a presenter gets when none is given: fan panelist, the least
/// important.  A rank is known by its priority; 0 (guest) is the most
/// important.
pub const DEFAULT_RANK: u8 = 4;

/// The editable fields of a presenter: rank priority and sort position.
#[derive(Debug, Clone, Copy)]
pub struct PresenterSnapshot {
    pub rank: u8,
    pub sort_rank: Option<SortRank>,
}

/// A presenter of the schedule.
#[derive(Debug, Clone)]
pub struct PresenterRow {
    pub name: String,
    pub rank: u8,
    pub sort_rank: Option<SortRank>,
    pub change_state: ChangeState,
}

/// Abstract value of a presenter row: name, snapshot, change state.
pub type PresenterRowView = (Seq<char>, PresenterSnapshot, ChangeState);

impl View for PresenterRow {
    type V = PresenterRowView;

    open spec fn view(&self) -> PresenterRowView {
        (self.name@, PresenterSnapshot { rank: self.rank, sort_rank: self.sort_rank }, self.change_state)
    }
}

/// The abstract values of presenter rows.
pub open spec fn presenter_rows(rows: Seq<PresenterRow>) -> Seq<PresenterRowView> {
    rows.map_values(|p: PresenterRow| p@)
}

/// Options for finding or creating a presenter.
#[derive(Debug, Clone, Default)]
pub struct PresenterOptions {
    pub rank: Option<u8>,
    pub sort_rank: Option<SortRank>,
    /// Groups the presenter joins.
    pub add_groups: Vec<String>,
    /// Presenters that join this presenter as a group.
    pub add_members: Vec<String>,
    pub is_group: Option<bool>,
    pub always_grouped: Option<bool>,
    pub always_shown: Option<bool>,
    /// Change state of a created presenter; `Added` when absent.
    pub change_state: Option<ChangeState>,
}

/// Abstract value of [`PresenterOptions`], the names by their texts.
pub struct PresenterOptionsView {
    pub rank: Option<u8>,
    pub sort_rank: Option<SortRank>,
    pub add_groups: Seq<Seq<char>>,
    pub add_members: Seq<Seq<char>>,
    pub is_group: Option<bool>,
    pub always_grouped: Option<bool>,
    pub always_shown: Option<bool>,
    pub change_state: Option<ChangeState>,
}

impl View for PresenterOptions {
    type V = PresenterOptionsView;

    open spec fn view(&self) -> PresenterOptionsView {
        PresenterOptionsView {
            rank: self.rank,
            sort_rank: self.sort_rank,
            add_groups: texts(self.add_groups@),
            add_members: texts(self.add_members@),
            is_group: self.is_group,
            always_grouped: self.always_grouped,
            always_shown: self.always_shown,
            change_state: self.change_state,
        }
    }
}

/// A group membership: `member` belongs to `group`; without a member the
/// edge marks `group` itself as a group.
#[derive(Debug, Clone)]
pub struct GroupEdge {
    pub member: Option<String>,
    pub group: String,
    pub always_grouped: bool,
    pub always_shown: bool,
}

/// Abstract value of a [`GroupEdge`].
pub type GroupEdgeView = (Option<Seq<char>>, Seq<char>, bool, bool);

impl View for GroupEdge {
    type V = GroupEdgeView;

    open spec fn view(&self) -> GroupEdgeView {
        (
            match self.member {
                Some(m) => Some(m@),
                None => None,
            },
            self.group@,
            self.always_grouped,
            self.always_shown,
        )
    }
}

/// A change to the presenters of a schedule.
#[derive(Debug, Clone)]
pub enum PresenterCommand {
    UpdatePresenter { name: String, old: PresenterSnapshot, new: PresenterSnapshot },
    CreatePresenter { name: String, snapshot: PresenterSnapshot, change_state: ChangeState },
    AddRelationship { edge: GroupEdge },
}

/// Abstract value of a [`PresenterCommand`].
pub enum PresenterCommandView {
    Update(Seq<char>, PresenterSnapshot, PresenterSnapshot),
    Create(Seq<char>, PresenterSnapshot, ChangeState),
    Relate(GroupEdgeView),
}

impl View for PresenterCommand {
    type V = PresenterCommandView;

    open spec fn view(&self) -> PresenterCommandView {
        match self {
            PresenterCommand::UpdatePresenter { name, old, new } => PresenterCommandView::Update(
                name@,
                *old,
                *new,
            ),
            PresenterCommand::CreatePresenter { name, snapshot, change_state } => PresenterCommandView::Create(
                name@,
                *snapshot,
                *change_state,
            ),
            PresenterCommand::AddRelationship { edge } => PresenterCommandView::Relate(edge@),
        }
    }
}

/// The abstract values of a list of commands.
pub open spec fn presenter_cmd_views(s: Seq<PresenterCommand>) -> Seq<PresenterCommandView> {
    s.map_values(|c: PresenterCommand| c@)
}

/// The texts of a list of strings.
pub open spec fn texts(s: Seq<String>) -> Seq<Seq<char>> {
    s.map_values(|t: String| t@)
}

/// `i` is the first presenter named `name`, ignoring ASCII case.
pub open spec fn first_presenter_named(rows: Seq<PresenterRowView>, name: Seq<char>, i: int) -> bool {
    &&& 0 <= i < rows.len()
    &&& eq_ignore_ascii_case(rows[i].0, name)
    &&& forall|j: int| 0 <= j < i ==> !eq_ignore_ascii_case((#[trigger] rows[j]).0, name)
}

/// Some presenter is named `name`, ignoring ASCII case.
pub open spec fn presenter_named(rows: Seq<PresenterRowView>, name: Seq<char>) -> bool {
    exists|i: int| first_presenter_named(rows, name, i)
}

/// A new presenter with the default rank and no sort position.
pub open spec fn plain_snapshot() -> PresenterSnapshot {
    PresenterSnapshot { rank: DEFAULT_RANK, sort_rank: None }
}

/// The edge that marks `g` as a group.
pub open spec fn group_only_view(g: Seq<char>, shown: bool) -> GroupEdgeView {
    (None, g, false, shown)
}

/// The commands for joining `name` to group `g`: the group is created
/// (with its group edge) when no presenter has its name.
pub open spec fn join_group_cmds(rows: Seq<PresenterRowView>, name: Seq<char>, g: Seq<char>, grouped: bool) -> Seq<
    PresenterCommandView,
> {
    (if presenter_named(rows, g) {
        Seq::empty()
    } else {
        seq![
            PresenterCommandView::Create(g, plain_snapshot(), ChangeState::Added),
            PresenterCommandView::Relate(group_only_view(g, false)),
        ]
    }) + seq![PresenterCommandView::Relate((Some(name), g, grouped, false))]
}

/// The commands for presenter `m` joining group `name`: the member is
/// created when no presenter has its name.
pub open spec fn add_member_cmds(rows: Seq<PresenterRowView>, name: Seq<char>, m: Seq<char>) -> Seq<
    PresenterCommandView,
> {
    (if presenter_named(rows, m) {
        Seq::empty()
    } else {
        seq![PresenterCommandView::Create(m, plain_snapshot(), ChangeState::Added)]
    }) + seq![PresenterCommandView::Relate((Some(m), name, false, false))]
}

/// The commands for all groups in `gs`, in order.
pub open spec fn groups_cmds(rows: Seq<PresenterRowView>, name: Seq<char>, gs: Seq<Seq<char>>, grouped: bool) -> Seq<
    PresenterCommandView,
>
    decreases gs.len(),
{
    if gs.len() == 0 {
        Seq::empty()
    } else {
        groups_cmds(rows, name, gs.drop_last(), grouped) + join_group_cmds(rows, name, gs.last(), grouped)
    }
}

/// The commands for all members in `ms`, in order.
pub open spec fn members_cmds(rows: Seq<PresenterRowView>, name: Seq<char>, ms: Seq<Seq<char>>) -> Seq<
    PresenterCommandView,
>
    decreases ms.len(),
{
    if ms.len() == 0 {
        Seq::empty()
    } else {
        members_cmds(rows, name, ms.drop_last()) + add_member_cmds(rows, name, ms.last())
    }
}

/// The relationship commands for presenter `name`: its own group edge when
/// it is a group, then its groups, then its members.
pub open spec fn relationship_cmds(rows: Seq<PresenterRowView>, name: Seq<char>, opts: PresenterOptionsView) -> Seq<
    PresenterCommandView,
> {
    let shown = match opts.always_shown {
        Some(b) => b,
        None => false,
    };
    let grouped = match opts.always_grouped {
        Some(b) => b,
        None => false,
    };
    (if opts.is_group == Some(true) {
        seq![PresenterCommandView::Relate(group_only_view(name, shown))]
    } else {
        Seq::empty()
    }) + groups_cmds(rows, name, opts.add_groups, grouped) + members_cmds(
        rows,
        name,
        opts.add_members,
    )
}

/// `old` with the options merged: a rank replaces the current one only
/// when it is more important (lower), and a sort position only when there
/// is none yet or it comes earlier.
pub open spec fn presenter_merged(old: PresenterSnapshot, opts: PresenterOptionsView) -> PresenterSnapshot {
    PresenterSnapshot {
        rank: match opts.rank {
            Some(r) => if r < old.rank {
                r
            } else {
                old.rank
            },
            None => old.rank,
        },
        sort_rank: match opts.sort_rank {
            None => old.sort_rank,
            Some(n) => match old.sort_rank {
                None => Some(n),
                Some(e) => if sort_rank_lt(n, e) {
                    Some(n)
                } else {
                    Some(e)
                },
            },
        },
    }
}

/// Merging options never makes a presenter less important, and never moves
/// its sort position later: the merged rank is at most the old one and at
/// most the given one, and the merged sort position is the earlier of the
/// two.
pub proof fn lemma_merge_only_raises(old: PresenterSnapshot, opts: PresenterOptionsView)
    ensures
        presenter_merged(old, opts).rank <= old.rank,
        opts.rank matches Some(r) ==> presenter_merged(old, opts).rank <= r,
        old.sort_rank matches Some(e) ==> (presenter_merged(old, opts).sort_rank matches Some(m)
            && !sort_rank_lt(e, m)),
        opts.sort_rank matches Some(n) ==> (presenter_merged(old, opts).sort_rank matches Some(m)
            && !sort_rank_lt(n, m)),
{
}

/// The snapshot of a presenter.
pub open spec fn presenter_snap(p: PresenterRow) -> PresenterSnapshot {
    PresenterSnapshot { rank: p.rank, sort_rank: p.sort_rank }
}

/// The stored name of presenter `name` and the batch to run: an update
/// when the merged options change a found presenter, or a creation, then
/// the relationship commands.
pub open spec fn presenter_plan(rows: Seq<PresenterRowView>, name: Seq<char>, opts: PresenterOptionsView) -> (
    Seq<char>,
    Seq<PresenterCommandView>,
) {
    if presenter_named(rows, name) {
        let p = rows[choose|i: int| first_presenter_named(rows, name, i)];
        let old = p.1;
        let new = presenter_merged(old, opts);
        (
            p.0,
            (if old == new {
                Seq::empty()
            } else {
                seq![PresenterCommandView::Update(p.0, old, new)]
            }) + relationship_cmds(rows, p.0, opts),
        )
    } else {
        let snapshot = PresenterSnapshot {
            rank: match opts.rank {
                Some(r) => r,
                None => DEFAULT_RANK,
            },
            sort_rank: opts.sort_rank,
        };
        (name, seq![PresenterCommandView::Create(name, snapshot, created_state(opts.change_state))] + relationship_cmds(rows, name, opts))
    }
}

pub(crate) fn find_presenter(rows: &[PresenterRow], name: &str) -> (r: Option<usize>)
    ensures
        match r {
            Some(i) => first_presenter_named(presenter_rows(rows@), name@, i as int),
            None => !presenter_named(presenter_rows(rows@), name@),
        },
{
    let ghost pv = presenter_rows(rows@);
    let mut i: usize = 0;
    while i < rows.len()
        invariant
            i <= rows@.len(),
            pv == presenter_rows(rows@),
            forall|j: int| 0 <= j < i ==> !eq_ignore_ascii_case((#[trigger] pv[j]).0, name@),
        decreases rows@.len() - i,
    {
        assert(pv[i as int].0 == rows@[i as int].name@);
        if str_eq_ignore_ascii_case(rows[i].name.as_str(), name) {
            return Some(i);
        }
        i = i + 1;
    }
    None
}

/// The first presenter named `name` is unique.
proof fn lemma_first_presenter(rows: Seq<PresenterRowView>, name: Seq<char>, i: int)
    requires
        first_presenter_named(rows, name, i),
    ensures
        presenter_named(rows, name),
        (choose|k: int| first_presenter_named(rows, name, k)) == i,
{
    let k = choose|k: int| first_presenter_named(rows, name, k);
    assert(first_presenter_named(rows, name, k));
    if k < i {
        assert(!eq_ignore_ascii_case(rows[k].0, name));
    } else if i < k {
        assert(!eq_ignore_ascii_case(rows[i].0, name));
    }
}

fn relate(member: Option<String>, group: String, always_grouped: bool, always_shown: bool) -> (r:
    PresenterCommand)
    ensures
        r@ == PresenterCommandView::Relate(
            (
                match member {
                    Some(m) => Some(m@),
                    None => None,
                },
                group@,
                always_grouped,
                always_shown,
            ),
        ),
{
    PresenterCommand::AddRelationship { edge: GroupEdge { member, group, always_grouped, always_shown } }
}

/// The relationship commands for presenter `presenter_name`, without
/// running them: its group edge when it is a group, then for each group it
/// joins (creating the group when missing) and each member it gains
/// (creating the member when missing) the membership edge.
pub fn collect_relationship_commands(
    rows: &[PresenterRow],
    presenter_name: &str,
    opts: &PresenterOptions,
) -> (r: Vec<PresenterCommand>)
    ensures
        presenter_cmd_views(r@) == relationship_cmds(presenter_rows(rows@), presenter_name@, opts@),
{
    let mut out: Vec<PresenterCommand> = Vec::new();
    if opts.is_group == Some(true) {
        let shown = match opts.always_shown {
            Some(b) => b,
            None => false,
        };
        out.push(relate(None, String::from_str(presenter_name), false, shown));
    }
    let ghost head = presenter_cmd_views(out@);
    let grouped = match opts.always_grouped {
        Some(b) => b,
        None => false,
    };
    let ghost gs = texts(opts.add_groups@);
    let mut i: usize = 0;
    while i < opts.add_groups.len()
        invariant
            i <= opts.add_groups@.len(),
            gs == texts(opts.add_groups@),
            presenter_cmd_views(out@) == head + groups_cmds(presenter_rows(rows@), presenter_name@, gs.take(i as int), grouped),
        decreases opts.add_groups@.len() - i,
    {
        let g = &opts.add_groups[i];
        let ghost before = presenter_cmd_views(out@);
        if find_presenter(rows, g.as_str()).is_none() {
            out.push(PresenterCommand::CreatePresenter { name: g.clone(), snapshot: PresenterSnapshot { rank: DEFAULT_RANK, sort_rank: None }, change_state: ChangeState::Added });
            out.push(relate(None, g.clone(), false, false));
        }
        out.push(relate(Some(String::from_str(presenter_name)), g.clone(), grouped, false));
        proof {
            assert(gs.take(i as int + 1).drop_last() =~= gs.take(i as int));
            assert(gs[i as int] == g@);
            assert(presenter_cmd_views(out@) =~= before + join_group_cmds(presenter_rows(rows@), presenter_name@, g@, grouped));
        }
        i = i + 1;
    }
    proof {
        assert(gs.take(gs.len() as int) =~= gs);
    }
    let ghost mid = presenter_cmd_views(out@);
    let ghost ms = texts(opts.add_members@);
    let mut j: usize = 0;
    while j < opts.add_members.len()
        invariant
            j <= opts.add_members@.len(),
            ms == texts(opts.add_members@),
            presenter_cmd_views(out@) == mid + members_cmds(presenter_rows(rows@), presenter_name@, ms.take(j as int)),
        decreases opts.add_members@.len() - j,
    {
        let m = &opts.add_members[j];
        let ghost before = presenter_cmd_views(out@);
        if find_presenter(rows, m.as_str()).is_none() {
            out.push(PresenterCommand::CreatePresenter { name: m.clone(), snapshot: PresenterSnapshot { rank: DEFAULT_RANK, sort_rank: None }, change_state: ChangeState::Added });
        }
        out.push(relate(Some(m.clone()), String::from_str(presenter_name), false, false));
        proof {
            assert(ms.take(j as int + 1).drop_last() =~= ms.take(j as int));
            assert(ms[j as int] == m@);
            assert(presenter_cmd_views(out@) =~= before + add_member_cmds(presenter_rows(rows@), presenter_name@, m@));
        }
        j = j + 1;
    }
    proof {
        assert(ms.take(ms.len() as int) =~= ms);
        assert(presenter_cmd_views(out@) =~= relationship_cmds(presenter_rows(rows@), presenter_name@, opts@));
    }
    out
}

fn same_presenter(a: &PresenterSnapshot, b: &PresenterSnapshot) -> (r: bool)
    ensures
        r == (*a == *b),
{
    a.rank == b.rank && match (a.sort_rank, b.sort_rank) {
        (Some(x), Some(y)) => x.0 == y.0 && x.1 == y.1 && x.2 == y.2,
        (None, None) => true,
        _ => false,
    }
}

/// Find a presenter by name (case-insensitive) or plan its creation.
/// Returns the stored name and the batch of commands to run: a found
/// presenter's rank is only ever raised and its sort position only moved
/// earlier; the relationship commands follow.
pub fn plan_find_or_create_presenter(rows: &[PresenterRow], name: &str, opts: &PresenterOptions) -> (r: (
    String,
    Vec<PresenterCommand>,
))
    ensures
        r.0@ == presenter_plan(presenter_rows(rows@), name@, opts@).0,
        presenter_cmd_views(r.1@) == presenter_plan(presenter_rows(rows@), name@, opts@).1,
{
    match find_presenter(rows, name) {
        Some(i) => {
            proof {
                lemma_first_presenter(presenter_rows(rows@), name@, i as int);
            }
            let p = &rows[i];
            let stored = p.name.clone();
            let old = PresenterSnapshot { rank: p.rank, sort_rank: p.sort_rank };
            let rank = match opts.rank {
                Some(r) => if r < old.rank {
                    r
                } else {
                    old.rank
                },
                None => old.rank,
            };
            let sort_rank = match opts.sort_rank {
                None => old.sort_rank,
                Some(n) => match old.sort_rank {
                    None => Some(n),
                    Some(e) => if sort_rank_less(n, e) {
                        Some(n)
                    } else {
                        Some(e)
                    },
                },
            };
            let new = PresenterSnapshot { rank, sort_rank };
            let mut cmds: Vec<PresenterCommand> = Vec::new();
            if !same_presenter(&old, &new) {
                cmds.push(PresenterCommand::UpdatePresenter { name: stored.clone(), old, new });
            }
            let mut rel = collect_relationship_commands(rows, stored.as_str(), opts);
            let ghost c0 = presenter_cmd_views(cmds@);
            let ghost r0 = presenter_cmd_views(rel@);
            cmds.append(&mut rel);
            proof {
                assert(presenter_cmd_views(cmds@) =~= c0 + r0);
                if old == new {
                    assert(c0 =~= Seq::<PresenterCommandView>::empty());
                }
            }
            (stored, cmds)
        },
        None => {
            let snapshot = PresenterSnapshot {
                rank: match opts.rank {
                    Some(r) => r,
                    None => DEFAULT_RANK,
                },
                sort_rank: opts.sort_rank,
            };
            let mut cmds: Vec<PresenterCommand> = Vec::new();
            let change_state = match opts.change_state {
                Some(c) => c,
                None => ChangeState::Added,
            };
            cmds.push(PresenterCommand::CreatePresenter { name: String::from_str(name), snapshot, change_state });
            let mut rel = collect_relationship_commands(rows, name, opts);
            let ghost c0 = presenter_cmd_views(cmds@);
            let ghost r0 = presenter_cmd_views(rel@);
            cmds.append(&mut rel);
            proof {
                assert(presenter_cmd_views(cmds@) =~= c0 + r0);
            }
            (String::from_str(name), cmds)
        },
    }
}

// ── Tagged presenter cells ───────────────────────────────────────────────────

/// One step of placing a tagged presenter cell.
#[derive(Debug, Clone)]
pub enum TaggedStep {
    /// Find or create presenter `name` with this rank and sort position
    /// (all other options left at their defaults).
    FindOrCreate { name: String, rank: u8, sort_rank: Option<SortRank> },
    /// Run the command.
    Run(PresenterCommand),
    /// Add the presenter that the last `FindOrCreate` returned to `group`.
    JoinFound { group: String, always_grouped: bool },
}

/// Abstract value of a [`TaggedStep`].
pub enum TaggedStepView {
    FindOrCreate(Seq<char>, u8, Option<SortRank>),
    Run(PresenterCommandView),
    JoinFound(Seq<char>, bool),
}

impl View for TaggedStep {
    type V = TaggedStepView;

    open spec fn view(&self) -> TaggedStepView {
        match self {
            TaggedStep::FindOrCreate { name, rank, sort_rank } => TaggedStepView::FindOrCreate(
                name@,
                *rank,
                *sort_rank,
            ),
            TaggedStep::Run(c) => TaggedStepView::Run(c@),
            TaggedStep::JoinFound { group, always_grouped } => TaggedStepView::JoinFound(
                group@,
                *always_grouped,
            ),
        }
    }
}

/// What a tagged cell resolves to.
#[derive(Debug, Clone)]
pub enum TaggedOutcome {
    /// The group name (absent when the cell names none).
    Group(Option<String>),
    /// The name that the last `FindOrCreate` returned.
    Found,
}

/// The steps for a tagged presenter cell, and its outcome.
#[derive(Debug, Clone)]
pub struct TaggedPlan {
    pub steps: Vec<TaggedStep>,
    pub outcome: TaggedOutcome,
}

/// The abstract values of a list of steps.
pub open spec fn step_views(s: Seq<TaggedStep>) -> Seq<TaggedStepView> {
    s.map_values(|t: TaggedStep| t@)
}

/// The sort position of a cell's entry with member index `member`.
pub open spec fn cell_rank(column: Option<u32>, row: Option<u32>, member: u32) -> Option<SortRank> {
    match (column, row) {
        (Some(c), Some(r)) => Some((c, r, member)),
        _ => None,
    }
}

/// The cell's result is the group: there is no individual name, or it is
/// the group's name.
pub open spec fn group_outcome(name: Seq<char>, group: Option<Seq<char>>) -> bool {
    name.len() == 0 || (group matches Some(g) && eq_ignore_ascii_case(g, name))
}

/// The steps for a parsed cell `(name, group, always_grouped,
/// always_shown)`: the group first (with its group edge when always shown,
/// and the membership of `name` when that differs from the group), then the
/// individual presenter and its membership.
pub open spec fn tagged_steps(
    cell: (Seq<char>, Option<Seq<char>>, bool, bool),
    rank: u8,
    column: Option<u32>,
    row: Option<u32>,
) -> Seq<TaggedStepView> {
    let (name, group, grouped, shown) = cell;
    (match group {
        Some(g) => seq![TaggedStepView::FindOrCreate(g, rank, cell_rank(column, row, 0))] + (if shown {
            seq![TaggedStepView::Run(PresenterCommandView::Relate(group_only_view(g, true)))]
        } else {
            Seq::empty()
        }) + (if name.len() > 0 && !eq_ignore_ascii_case(name, g) {
            seq![TaggedStepView::Run(PresenterCommandView::Relate((Some(name), g, grouped, false)))]
        } else {
            Seq::empty()
        }),
        None => Seq::empty(),
    }) + (if group_outcome(name, group) {
        Seq::empty()
    } else {
        seq![TaggedStepView::FindOrCreate(name, rank, cell_rank(column, row, 1))] + match group {
            Some(g) => seq![TaggedStepView::JoinFound(g, grouped)],
            None => Seq::empty(),
        }
    })
}

fn opt_copy(o: &Option<String>) -> (r: Option<String>)
    ensures
        opt_view(r) == opt_view(*o),
{
    match o {
        Some(s) => Some(s.clone()),
        None => None,
    }
}

pub(crate) fn cell_sort(column: Option<u32>, row: Option<u32>, member: u32) -> (r: Option<SortRank>)
    ensures
        r == cell_rank(column, row, member),
{
    match (column, row) {
        (Some(c), Some(r)) => Some((c, r, member)),
        _ => None,
    }
}

/// Plan the placement of a tagged presenter cell, given the text after its
/// tag and the tag's rank.  `None` when the text is empty or `Other`.
pub fn plan_tagged_presenter(
    rest: &str,
    rank: u8,
    column_index: Option<u32>,
    row_index: Option<u32>,
) -> (r: Option<TaggedPlan>)
    ensures
        r is None <==> tagged_view(rest@) is None,
        r matches Some(p) ==> {
            &&& step_views(p.steps@) == tagged_steps(
                tagged_view(rest@)->Some_0,
                rank,
                column_index,
                row_index,
            )
            &&& (p.outcome matches TaggedOutcome::Group(g) <==> group_outcome(
                tagged_view(rest@)->Some_0.0,
                tagged_view(rest@)->Some_0.1,
            ))
            &&& (p.outcome matches TaggedOutcome::Group(g) ==> opt_view(g) == tagged_view(
                rest@,
            )->Some_0.1)
        },
{
    let t: TaggedPresenter = match parse_tagged_presenter(rest) {
        None => return None,
        Some(t) => t,
    };
    let ghost cell = (t.name@, opt_view(t.group), t.always_grouped, t.always_shown);
    let mut steps: Vec<TaggedStep> = Vec::new();
    let name_empty = t.name.as_str().unicode_len() == 0;
    match &t.group {
        Some(g) => {
            steps.push(
                TaggedStep::FindOrCreate {
                    name: g.clone(),
                    rank,
                    sort_rank: cell_sort(column_index, row_index, 0),
                },
            );
            if t.always_shown {
                steps.push(TaggedStep::Run(relate(None, g.clone(), false, true)));
            }
            if !name_empty && !str_eq_ignore_ascii_case(t.name.as_str(), g.as_str()) {
                steps.push(
                    TaggedStep::Run(relate(Some(t.name.clone()), g.clone(), t.always_grouped, false)),
                );
            }
        },
        None => {},
    }
    let ghost head = step_views(steps@);
    proof {
        let gv = opt_view(t.group);
        match gv {
            Some(g) => {
                assert(head =~= (seq![TaggedStepView::FindOrCreate(g, rank, cell_rank(column_index, row_index, 0))] + (if t.always_shown {
                    seq![TaggedStepView::Run(PresenterCommandView::Relate(group_only_view(g, true)))]
                } else {
                    Seq::empty()
                }) + (if t.name@.len() > 0 && !eq_ignore_ascii_case(t.name@, g) {
                    seq![TaggedStepView::Run(PresenterCommandView::Relate((Some(t.name@), g, t.always_grouped, false)))]
                } else {
                    Seq::empty()
                })));
            },
            None => {
                assert(head =~= Seq::<TaggedStepView>::empty());
            },
        }
    }
    let to_group = name_empty || match &t.group {
        Some(g) => str_eq_ignore_ascii_case(g.as_str(), t.name.as_str()),
        None => false,
    };
    if to_group {
        proof {
            assert(step_views(steps@) =~= head + Seq::<TaggedStepView>::empty());
        }
        return Some(TaggedPlan { steps, outcome: TaggedOutcome::Group(opt_copy(&t.group)) });
    }
    steps.push(
        TaggedStep::FindOrCreate {
            name: t.name.clone(),
            rank,
            sort_rank: cell_sort(column_index, row_index, 1),
        },
    );
    match &t.group {
        Some(g) => {
            steps.push(TaggedStep::JoinFound { group: g.clone(), always_grouped: t.always_grouped });
        },
        None => {},
    }
    proof {
        assert(step_views(steps@) =~= tagged_steps(cell, rank, column_index, row_index));
    }
    Some(TaggedPlan { steps, outcome: TaggedOutcome::Found })
}

// ── Panel types ──────────────────────────────────────────────────────────────

/// The flags of a panel type.
#[derive(Debug, Clone, Copy)]
pub struct PanelTypeFlags {
    pub is_break: bool,
    pub is_cafe: bool,
    pub is_workshop: bool,
    pub is_hidden: bool,
    pub is_room_hours: bool,
    pub is_timeline: bool,
    pub is_private: bool,
}

/// The editable fields of a panel type.  `colors` maps color names to
/// colors, in insertion order.
#[derive(Debug)]
pub struct PanelTypeSnapshot {
    pub kind: String,
    pub colors: IndexMap<String, String>,
    pub flags: PanelTypeFlags,
}

/// Ordered color entries, by their texts.
pub type ColorsView = Seq<(Seq<char>, Seq<char>)>;

/// Makes `indexmap::IndexMap` usable in the library; its contents are read
/// through [`color_entries`].
#[verifier::external_type_specification]
#[verifier::external_body]
#[verifier::reject_recursive_types(K)]
#[verifier::reject_recursive_types(V)]
#[verifier::reject_recursive_types(S)]
pub struct ExIndexMap<K, V, S>(IndexMap<K, V, S>);

/// The entries of a color map, in the map's order, by their texts.
pub uninterp spec fn color_entries(m: IndexMap<String, String>) -> Seq<(Seq<char>, Seq<char>)>;

/// Calls `IndexMap::new`.  Trusted: the new map has no entries.
#[verifier::external_body]
fn color_map_new() -> (r: IndexMap<String, String>)
    ensures
        color_entries(r) == Seq::<(Seq<char>, Seq<char>)>::empty(),
{
    IndexMap::new()
}

/// Calls `IndexMap::clone`.  Trusted: the copy has the same entries in the
/// same order.
#[verifier::external_body]
fn color_map_clone(m: &IndexMap<String, String>) -> (r: IndexMap<String, String>)
    ensures
        color_entries(r) == color_entries(*m),
{
    m.clone()
}

/// Calls `IndexMap::insert`.  Trusted: an existing key keeps its place and
/// gets the new value; a new key goes last (the crate's documented
/// behaviour; a map holds each key once, so the first entry with the key is
/// the only one).
#[verifier::external_body]
fn color_map_insert(m: &mut IndexMap<String, String>, k: String, v: String)
    ensures
        color_entries(*final(m)) == color_insert(color_entries(*old(m)), k@, v@),
{
    m.insert(k, v);
}

/// Calls `IndexMap::len`.  Trusted: the number of entries.
#[verifier::external_body]
fn color_map_len(m: &IndexMap<String, String>) -> (r: usize)
    ensures
        r == color_entries(*m).len(),
{
    m.len()
}

/// Calls `IndexMap::get_index`, copying the entry out.  Trusted: the entry
/// at position `i`.
#[verifier::external_body]
fn color_map_entry(m: &IndexMap<String, String>, i: usize) -> (r: (String, String))
    requires
        i < color_entries(*m).len(),
    ensures
        (r.0@, r.1@) == color_entries(*m)[i as int],
{
    let (k, v) = m.get_index(i).unwrap();
    (k.clone(), v.clone())
}

/// Abstract value of a [`PanelTypeSnapshot`].
pub type PanelTypeView = (Seq<char>, ColorsView, PanelTypeFlags);

impl View for PanelTypeSnapshot {
    type V = PanelTypeView;

    open spec fn view(&self) -> PanelTypeView {
        (self.kind@, color_entries(self.colors), self.flags)
    }
}

/// A panel type of the schedule, under its prefix.
#[derive(Debug)]
pub struct PanelTypeRow {
    pub prefix: String,
    pub snapshot: PanelTypeSnapshot,
    pub change_state: ChangeState,
}

/// Abstract value of a panel type row: prefix, snapshot, change state.
pub type PanelTypeRowView = (Seq<char>, PanelTypeView, ChangeState);

impl View for PanelTypeRow {
    type V = PanelTypeRowView;

    open spec fn view(&self) -> PanelTypeRowView {
        (self.prefix@, self.snapshot@, self.change_state)
    }
}

/// Options for finding or creating a panel type.
#[derive(Debug, Default)]
pub struct PanelTypeOptions {
    pub kind: Option<String>,
    /// Stored as the `color` entry.
    pub color: Option<String>,
    /// Stored as the `bw` entry.
    pub bw_color: Option<String>,
    /// Further color entries, merged in order.
    pub colors: Option<IndexMap<String, String>>,
    pub is_break: Option<bool>,
    pub is_cafe: Option<bool>,
    pub is_workshop: Option<bool>,
    pub is_hidden: Option<bool>,
    pub is_room_hours: Option<bool>,
    pub is_timeline: Option<bool>,
    pub is_private: Option<bool>,
    /// Change state of a created panel type; `Added` when absent.
    pub change_state: Option<ChangeState>,
}

/// What to do for a panel type.
#[derive(Debug)]
pub enum PanelTypePlan {
    /// The panel type exists and the options change nothing.
    Unchanged { prefix: String },
    /// The panel type exists; replace `old` by `new`.
    Update { prefix: String, old: PanelTypeSnapshot, new: PanelTypeSnapshot },
    /// Create the panel type.
    Create { prefix: String, snapshot: PanelTypeSnapshot },
}

/// Abstract value of a [`PanelTypePlan`].
pub enum PanelTypePlanView {
    Unchanged(Seq<char>),
    Update(Seq<char>, PanelTypeView, PanelTypeView),
    Create(Seq<char>, PanelTypeView),
}

impl View for PanelTypePlan {
    type V = PanelTypePlanView;

    open spec fn view(&self) -> PanelTypePlanView {
        match self {
            PanelTypePlan::Unchanged { prefix } => PanelTypePlanView::Unchanged(prefix@),
            PanelTypePlan::Update { prefix, old, new } => PanelTypePlanView::Update(
                prefix@,
                old@,
                new@,
            ),
            PanelTypePlan::Create { prefix, snapshot } => PanelTypePlanView::Create(
                prefix@,
                snapshot@,
            ),
        }
    }
}

/// `i` is the first entry with name `k`.
pub open spec fn first_color(m: ColorsView, k: Seq<char>, i: int) -> bool {
    &&& 0 <= i < m.len()
    &&& m[i].0 == k
    &&& forall|j: int| 0 <= j < i ==> (#[trigger] m[j]).0 != k
}

/// Ordered-map insertion: an existing entry keeps its place and gets the
/// new color; a new entry goes at the end.
pub open spec fn color_insert(m: ColorsView, k: Seq<char>, v: Seq<char>) -> ColorsView {
    if exists|i: int| first_color(m, k, i) {
        let i = choose|i: int| first_color(m, k, i);
        m.update(i, (m[i].0, v))
    } else {
        m.push((k, v))
    }
}

/// Inserting every entry of `extra`, in order.
pub open spec fn color_insert_all(m: ColorsView, extra: ColorsView) -> ColorsView
    decreases extra.len(),
{
    if extra.len() == 0 {
        m
    } else {
        let prev = color_insert_all(m, extra.drop_last());
        color_insert(prev, extra.last().0, extra.last().1)
    }
}

/// Inserting `v` under `k` when there is one.
pub open spec fn color_insert_opt(m: ColorsView, k: Seq<char>, v: Option<String>) -> ColorsView {
    match v {
        Some(c) => color_insert(m, k, c@),
        None => m,
    }
}

/// Inserting the extra entries when there are some.
pub open spec fn color_insert_extra(m: ColorsView, extra: Option<IndexMap<String, String>>) -> ColorsView {
    match extra {
        Some(x) => color_insert_all(m, color_entries(x)),
        None => m,
    }
}

/// `o`'s flag, or `d`.
pub open spec fn flag_or(o: Option<bool>, d: bool) -> bool {
    match o {
        Some(b) => b,
        None => d,
    }
}

/// The flags `old` with the options applied.
pub open spec fn flags_updated(old: PanelTypeFlags, opts: PanelTypeOptions) -> PanelTypeFlags {
    PanelTypeFlags {
        is_break: flag_or(opts.is_break, old.is_break),
        is_cafe: flag_or(opts.is_cafe, old.is_cafe),
        is_workshop: flag_or(opts.is_workshop, old.is_workshop),
        is_hidden: flag_or(opts.is_hidden, old.is_hidden),
        is_room_hours: flag_or(opts.is_room_hours, old.is_room_hours),
        is_timeline: flag_or(opts.is_timeline, old.is_timeline),
        is_private: flag_or(opts.is_private, old.is_private),
    }
}

/// The flags of a panel type with none set.
pub open spec fn no_flags() -> PanelTypeFlags {
    PanelTypeFlags {
        is_break: false,
        is_cafe: false,
        is_workshop: false,
        is_hidden: false,
        is_room_hours: false,
        is_timeline: false,
        is_private: false,
    }
}

/// An existing panel type with the options applied: `color` and `bw` are
/// set first, then the extra entries.
pub open spec fn panel_type_updated(old: PanelTypeView, opts: PanelTypeOptions) -> PanelTypeView {
    (
        text_or(opts.kind, old.0),
        color_insert_extra(
            color_insert_opt(color_insert_opt(old.1, "color"@, opts.color), "bw"@, opts.bw_color),
            opts.colors,
        ),
        flags_updated(old.2, opts),
    )
}

/// A new panel type from the options: the extra entries first, then
/// `color` and `bw`.
pub open spec fn panel_type_created(opts: PanelTypeOptions) -> PanelTypeView {
    (
        text_or(opts.kind, Seq::empty()),
        color_insert_opt(
            color_insert_opt(color_insert_extra(Seq::empty(), opts.colors), "color"@, opts.color),
            "bw"@,
            opts.bw_color,
        ),
        flags_updated(no_flags(), opts),
    )
}

/// `i` is the first panel type whose prefix is `prefix`, ignoring ASCII case.
pub open spec fn first_panel_type(rows: Seq<PanelTypeRow>, prefix: Seq<char>, i: int) -> bool {
    &&& 0 <= i < rows.len()
    &&& eq_ignore_ascii_case(rows[i].prefix@, prefix)
    &&& forall|j: int| 0 <= j < i ==> !eq_ignore_ascii_case((#[trigger] rows[j]).prefix@, prefix)
}

/// What to do for the panel type `prefix`.
pub open spec fn panel_type_plan(rows: Seq<PanelTypeRow>, prefix: Seq<char>, opts: PanelTypeOptions) -> PanelTypePlanView {
    if exists|i: int| first_panel_type(rows, prefix, i) {
        let row = rows[choose|i: int| first_panel_type(rows, prefix, i)];
        let old = row.snapshot@;
        let new = panel_type_updated(old, opts);
        if old == new {
            PanelTypePlanView::Unchanged(row.prefix@)
        } else {
            PanelTypePlanView::Update(row.prefix@, old, new)
        }
    } else {
        PanelTypePlanView::Create(prefix, panel_type_created(opts))
    }
}

fn insert_colors(m: &mut IndexMap<String, String>, extra: &IndexMap<String, String>)
    ensures
        color_entries(*final(m)) == color_insert_all(color_entries(*old(m)), color_entries(*extra)),
{
    let ghost m0 = color_entries(*m);
    let ghost ev = color_entries(*extra);
    let n = color_map_len(extra);
    let mut i: usize = 0;
    while i < n
        invariant
            i <= n,
            n == ev.len(),
            ev == color_entries(*extra),
            color_entries(*m) == color_insert_all(m0, ev.take(i as int)),
        decreases n - i,
    {
        let (k, v) = color_map_entry(extra, i);
        color_map_insert(m, k, v);
        assert(ev.take(i as int + 1).drop_last() =~= ev.take(i as int));
        i = i + 1;
    }
    assert(ev.take(n as int) =~= ev);
}

fn insert_color_opt(m: &mut IndexMap<String, String>, k: &str, v: &Option<String>)
    ensures
        color_entries(*final(m)) == color_insert_opt(color_entries(*old(m)), k@, *v),
{
    match v {
        Some(c) => color_map_insert(m, String::from_str(k), c.clone()),
        None => {},
    }
}

fn flag_choice(o: Option<bool>, d: bool) -> (r: bool)
    ensures
        r == flag_or(o, d),
{
    match o {
        Some(b) => b,
        None => d,
    }
}

fn apply_flags(old: PanelTypeFlags, opts: &PanelTypeOptions) -> (r: PanelTypeFlags)
    ensures
        r == flags_updated(old, *opts),
{
    PanelTypeFlags {
        is_break: flag_choice(opts.is_break, old.is_break),
        is_cafe: flag_choice(opts.is_cafe, old.is_cafe),
        is_workshop: flag_choice(opts.is_workshop, old.is_workshop),
        is_hidden: flag_choice(opts.is_hidden, old.is_hidden),
        is_room_hours: flag_choice(opts.is_room_hours, old.is_room_hours),
        is_timeline: flag_choice(opts.is_timeline, old.is_timeline),
        is_private: flag_choice(opts.is_private, old.is_private),
    }
}

fn same_colors(a: &IndexMap<String, String>, b: &IndexMap<String, String>) -> (r: bool)
    ensures
        r == (color_entries(*a) == color_entries(*b)),
{
    let n = color_map_len(a);
    if n != color_map_len(b) {
        return false;
    }
    let mut i: usize = 0;
    while i < n
        invariant
            i <= n,
            n == color_entries(*a).len(),
            n == color_entries(*b).len(),
            forall|j: int| 0 <= j < i ==> #[trigger] color_entries(*a)[j] == color_entries(*b)[j],
        decreases n - i,
    {
        let (ka, va) = color_map_entry(a, i);
        let (kb, vb) = color_map_entry(b, i);
        if !str_eq(ka.as_str(), kb.as_str()) || !str_eq(va.as_str(), vb.as_str()) {
            return false;
        }
        i = i + 1;
    }
    assert(color_entries(*a) =~= color_entries(*b));
    true
}

fn same_flags(a: PanelTypeFlags, b: PanelTypeFlags) -> (r: bool)
    ensures
        r == (a == b),
{
    a.is_break == b.is_break && a.is_cafe == b.is_cafe && a.is_workshop == b.is_workshop
        && a.is_hidden == b.is_hidden && a.is_room_hours == b.is_room_hours && a.is_timeline
        == b.is_timeline && a.is_private == b.is_private
}

fn find_panel_type(rows: &[PanelTypeRow], prefix: &str) -> (r: Option<usize>)
    ensures
        match r {
            Some(i) => first_panel_type(rows@, prefix@, i as int),
            None => forall|i: int| !first_panel_type(rows@, prefix@, i),
        },
{
    let mut i: usize = 0;
    while i < rows.len()
        invariant
            i <= rows@.len(),
            forall|j: int| 0 <= j < i ==> !eq_ignore_ascii_case((#[trigger] rows@[j]).prefix@, prefix@),
        decreases rows@.len() - i,
    {
        if str_eq_ignore_ascii_case(rows[i].prefix.as_str(), prefix) {
            return Some(i);
        }
        i = i + 1;
    }
    None
}

/// Find a panel type by prefix (case-insensitive) or plan its creation; a
/// found panel type gets the given options applied.
pub fn plan_find_or_create_panel_type(rows: &[PanelTypeRow], prefix: &str, opts: &PanelTypeOptions) -> (r:
    PanelTypePlan)
    ensures
        r@ == panel_type_plan(rows@, prefix@, *opts),
{
    match find_panel_type(rows, prefix) {
        Some(i) => {
            proof {
                assert forall|i2: int| first_panel_type(rows@, prefix@, i2) implies i2 == i by {
                    if i2 < i {
                        assert(!eq_ignore_ascii_case(rows@[i2].prefix@, prefix@));
                    } else if i2 > i {
                        assert(!eq_ignore_ascii_case(rows@[i as int].prefix@, prefix@));
                    }
                }
            }
            let row = &rows[i];
            let old = PanelTypeSnapshot {
                kind: row.snapshot.kind.clone(),
                colors: color_map_clone(&row.snapshot.colors),
                flags: row.snapshot.flags,
            };
            let mut colors = color_map_clone(&row.snapshot.colors);
            insert_color_opt(&mut colors, "color", &opts.color);
            insert_color_opt(&mut colors, "bw", &opts.bw_color);
            match &opts.colors {
                Some(extra) => insert_colors(&mut colors, extra),
                None => {},
            }
            let new = PanelTypeSnapshot {
                kind: copy_or(&opts.kind, row.snapshot.kind.as_str()),
                colors,
                flags: apply_flags(row.snapshot.flags, opts),
            };
            let prefix_out = row.prefix.clone();
            if str_eq(old.kind.as_str(), new.kind.as_str()) && same_colors(&old.colors, &new.colors)
                && same_flags(old.flags, new.flags) {
                PanelTypePlan::Unchanged { prefix: prefix_out }
            } else {
                PanelTypePlan::Update { prefix: prefix_out, old, new }
            }
        },
        None => {
            let mut colors = color_map_new();
            match &opts.colors {
                Some(extra) => insert_colors(&mut colors, extra),
                None => {},
            }
            insert_color_opt(&mut colors, "color", &opts.color);
            insert_color_opt(&mut colors, "bw", &opts.bw_color);
            proof {
                reveal_strlit("");
                assert(""@ =~= Seq::<char>::empty());
            }
            let snapshot = PanelTypeSnapshot {
                kind: copy_or(&opts.kind, ""),
                colors,
                flags: apply_flags(
                    PanelTypeFlags {
                        is_break: false,
                        is_cafe: false,
                        is_workshop: false,
                        is_hidden: false,
                        is_room_hours: false,
                        is_timeline: false,
                        is_private: false,
                    },
                    opts,
                ),
            };
            PanelTypePlan::Create { prefix: String::from_str(prefix), snapshot }
        },
    }
}

} // verus!
