use indexmap::IndexMap;
use schedule_core::edit::command::EditError;
use schedule_core::edit::editor::{Schedule, ScheduleEditor};
use schedule_core::edit::plan::{
    ChangeState, PanelTypeFlags, PanelTypeOptions, PanelTypeRow, PanelTypeSnapshot,
    PresenterOptions, PresenterRow, RoomOptions, RoomRow, DEFAULT_RANK,
};

const GUEST: u8 = 0;
const JUDGE: u8 = 1;
const STAFF: u8 = 2;
const TAGS: [(char, u8); 4] = [('G', GUEST), ('J', JUDGE), ('S', STAFF), ('P', DEFAULT_RANK)];

fn no_flags() -> PanelTypeFlags {
    PanelTypeFlags {
        is_break: false,
        is_cafe: false,
        is_workshop: false,
        is_hidden: false,
        is_room_hours: false,
        is_timeline: false,
        is_private: false,
    }
}

fn make_test_schedule() -> Schedule {
    let mut colors = IndexMap::new();
    colors.insert("color".to_string(), "#E2F9D7".to_string());
    Schedule {
        rooms: vec![RoomRow {
            uid: 10,
            short_name: "Main".to_string(),
            long_name: "Main Events".to_string(),
            hotel_room: "Salon F/G".to_string(),
            sort_key: 1,
            is_break: false,
            change_state: ChangeState::Unchanged,
        }],
        presenters: vec![
            PresenterRow { name: "Alice".to_string(), rank: GUEST, sort_rank: None, change_state: ChangeState::Unchanged },
            PresenterRow { name: "Bob".to_string(), rank: DEFAULT_RANK, sort_rank: None, change_state: ChangeState::Unchanged },
        ],
        panel_types: vec![PanelTypeRow {
            prefix: "GP".to_string(),
            snapshot: PanelTypeSnapshot { kind: "Guest Panel".to_string(), colors, flags: no_flags() },
            change_state: ChangeState::Unchanged,
        }],
        relationships: Vec::new(),
    }
}

fn make_empty_schedule() -> Schedule {
    Schedule { rooms: Vec::new(), presenters: Vec::new(), panel_types: Vec::new(), relationships: Vec::new() }
}

fn presenter<'a>(s: &'a Schedule, name: &str) -> &'a PresenterRow {
    s.presenters.iter().find(|p| p.name == name).unwrap()
}

fn panel_type<'a>(s: &'a Schedule, prefix: &str) -> &'a PanelTypeRow {
    s.panel_types.iter().find(|p| p.prefix == prefix).unwrap()
}

#[test]
fn find_or_create_room_existing() {
    let mut ed = ScheduleEditor::new(make_test_schedule());
    let uid = ed.find_or_create_room("Main", &RoomOptions { hotel_room: Some("Salon A/B".to_string()), ..Default::default() });
    assert_eq!(uid, 10);
    assert_eq!(ed.schedule().rooms[0].hotel_room, "Salon A/B");
    assert_eq!(ed.schedule().rooms[0].change_state, ChangeState::Modified);
    assert_eq!(ed.schedule().rooms.len(), 1);
    ed.undo().unwrap();
    assert_eq!(ed.schedule().rooms[0].hotel_room, "Salon F/G");
}

#[test]
fn find_or_create_room_new() {
    let mut ed = ScheduleEditor::new(make_test_schedule());
    let uid = ed.find_or_create_room(
        "Workshop 1",
        &RoomOptions {
            long_name: Some("Workshop Room 1".to_string()),
            hotel_room: Some("Salon C".to_string()),
            sort_key: Some(5),
            ..Default::default()
        },
    );
    assert_eq!(uid, 11);
    assert_eq!(ed.schedule().rooms.len(), 2);
    assert_eq!(ed.schedule().rooms[1].short_name, "Workshop 1");
    assert_eq!(ed.schedule().rooms[1].long_name, "Workshop Room 1");
    assert_eq!(ed.schedule().rooms[1].change_state, ChangeState::Added);
    ed.undo().unwrap();
    assert_eq!(ed.schedule().rooms.len(), 1);
}

#[test]
fn find_or_create_room_no_change_noop() {
    let mut ed = ScheduleEditor::new(make_test_schedule());
    let uid = ed.find_or_create_room("Main", &RoomOptions::default());
    assert_eq!(uid, 10);
    assert!(!ed.can_undo());
}

#[test]
fn find_or_create_presenter_existing_rank_upgrade() {
    let mut ed = ScheduleEditor::new(make_test_schedule());
    ed.find_or_create_presenter("Bob", &PresenterOptions { rank: Some(STAFF), ..Default::default() });
    let bob = presenter(ed.schedule(), "Bob");
    assert_eq!(bob.rank, STAFF);
    assert_eq!(bob.change_state, ChangeState::Modified);
    ed.undo().unwrap();
    assert_eq!(presenter(ed.schedule(), "Bob").rank, DEFAULT_RANK);
}

#[test]
fn find_or_create_presenter_existing_no_downgrade() {
    let mut ed = ScheduleEditor::new(make_test_schedule());
    ed.find_or_create_presenter("Alice", &PresenterOptions { rank: Some(DEFAULT_RANK), ..Default::default() });
    assert_eq!(presenter(ed.schedule(), "Alice").rank, GUEST);
    assert!(!ed.can_undo());
}

#[test]
fn find_or_create_presenter_new_creates_missing_group() {
    let mut ed = ScheduleEditor::new(make_test_schedule());
    ed.find_or_create_presenter(
        "Charlie",
        &PresenterOptions { rank: Some(JUDGE), add_groups: vec!["Judges Panel".to_string()], ..Default::default() },
    );
    assert_eq!(ed.schedule().presenters.len(), 4);
    let charlie = &ed.schedule().presenters[2];
    assert_eq!(charlie.name, "Charlie");
    assert_eq!(charlie.rank, JUDGE);
    assert_eq!(charlie.change_state, ChangeState::Added);
    assert!(ed.schedule().in_group("Charlie", "Judges Panel"));
    ed.undo().unwrap();
    assert_eq!(ed.schedule().presenters.len(), 2);
    assert!(!ed.schedule().in_group("Charlie", "Judges Panel"));
}

#[test]
fn find_or_create_presenter_add_group_membership() {
    let mut ed = ScheduleEditor::new(make_test_schedule());
    ed.find_or_create_presenter(
        "Alice",
        &PresenterOptions {
            add_groups: vec!["Cosplay Group".to_string()],
            always_grouped: Some(true),
            ..Default::default()
        },
    );
    assert!(ed.schedule().in_group("Alice", "Cosplay Group"));
    assert!(ed.schedule().always_grouped("Alice"));
    ed.undo().unwrap();
    assert!(!ed.schedule().always_grouped("Alice"));
    assert!(!ed.schedule().has_groups("Alice"));
}

#[test]
fn find_or_create_presenter_group_no_members() {
    let mut ed = ScheduleEditor::new(make_test_schedule());
    ed.find_or_create_presenter(
        "Staff Group",
        &PresenterOptions { is_group: Some(true), always_shown: Some(true), ..Default::default() },
    );
    assert!(ed.schedule().is_group("Staff Group"));
    assert!(ed.schedule().always_shown("Staff Group"));
    ed.undo().unwrap();
    assert!(!ed.schedule().presenters.iter().any(|p| p.name == "Staff Group"));
}

#[test]
fn find_or_create_panel_type_existing_update() {
    let mut ed = ScheduleEditor::new(make_test_schedule());
    let prefix = ed.find_or_create_panel_type(
        "GP",
        &PanelTypeOptions { color: Some("#FFFFFF".to_string()), is_workshop: Some(true), ..Default::default() },
    );
    assert_eq!(prefix, "GP");
    let gp = panel_type(ed.schedule(), "GP");
    assert_eq!(gp.snapshot.colors.get("color").map(|s| s.as_str()), Some("#FFFFFF"));
    assert!(gp.snapshot.flags.is_workshop);
    assert_eq!(gp.snapshot.kind, "Guest Panel");
    assert_eq!(ed.schedule().panel_types.len(), 1);
    ed.undo().unwrap();
    let gp = panel_type(ed.schedule(), "GP");
    assert_eq!(gp.snapshot.colors.get("color").map(|s| s.as_str()), Some("#E2F9D7"));
    assert!(!gp.snapshot.flags.is_workshop);
}

#[test]
fn find_or_create_panel_type_new() {
    let mut ed = ScheduleEditor::new(make_test_schedule());
    let prefix = ed.find_or_create_panel_type(
        "WS",
        &PanelTypeOptions {
            kind: Some("Workshop".to_string()),
            color: Some("#FDEEB5".to_string()),
            is_workshop: Some(true),
            ..Default::default()
        },
    );
    assert_eq!(prefix, "WS");
    assert_eq!(ed.schedule().panel_types.len(), 2);
    let ws = panel_type(ed.schedule(), "WS");
    assert_eq!(ws.snapshot.kind, "Workshop");
    assert_eq!(ws.snapshot.colors.get("color").map(|s| s.as_str()), Some("#FDEEB5"));
    assert!(ws.snapshot.flags.is_workshop);
    assert_eq!(ws.change_state, ChangeState::Added);
    ed.undo().unwrap();
    assert_eq!(ed.schedule().panel_types.len(), 1);
    assert!(!ed.schedule().panel_types.iter().any(|p| p.prefix == "WS"));
}

#[test]
fn batch_undo_reverses_all_and_redo_reapplies() {
    let mut ed = ScheduleEditor::new(make_test_schedule());
    ed.find_or_create_presenter(
        "Crew",
        &PresenterOptions { add_members: vec!["Eve".to_string(), "alice".to_string()], ..Default::default() },
    );
    assert_eq!(ed.schedule().presenters.len(), 4);
    assert!(ed.schedule().in_group("Eve", "Crew"));
    ed.undo().unwrap();
    assert_eq!(ed.schedule().presenters.len(), 2);
    assert!(ed.schedule().relationships.is_empty());
    assert!(matches!(ed.undo(), Err(EditError::NothingToUndo)));
    ed.redo().unwrap();
    assert_eq!(ed.schedule().presenters.len(), 4);
    assert!(matches!(ed.redo(), Err(EditError::NothingToRedo)));
}

#[test]
fn update_or_create_tagged_simple() {
    let mut ed = ScheduleEditor::new(make_empty_schedule());
    let name = ed.update_or_create_presenter("G:Yaya Han", true, Some(5), Some(0), &TAGS);
    assert_eq!(name, Some("Yaya Han".to_string()));
    assert_eq!(ed.schedule().presenters.len(), 1);
    let p = &ed.schedule().presenters[0];
    assert_eq!(p.rank, GUEST);
    assert_eq!(p.sort_rank, Some((5, 0, 1)));
}

#[test]
fn update_or_create_existing_returns_stored_name() {
    let mut schedule = make_empty_schedule();
    schedule.presenters.push(PresenterRow {
        name: "Alice".to_string(),
        rank: GUEST,
        sort_rank: None,
        change_state: ChangeState::Unchanged,
    });
    let mut ed = ScheduleEditor::new(schedule);
    let name = ed.update_or_create_presenter("alice", true, None, None, &TAGS);
    assert_eq!(name, Some("Alice".to_string()));
    assert_eq!(ed.schedule().presenters.len(), 1);
}

#[test]
fn update_or_create_tagged_with_group() {
    let mut ed = ScheduleEditor::new(make_empty_schedule());
    let name = ed.update_or_create_presenter("G:John=UNC Staff", true, Some(3), Some(0), &TAGS);
    assert_eq!(name, Some("John".to_string()));
    let s = ed.schedule();
    assert_eq!(s.presenters.len(), 2);
    assert!(s.in_group("John", "UNC Staff"));
    assert!(!s.always_grouped("John"));
    assert!(s.is_group("UNC Staff"));
    assert!(!s.always_shown("UNC Staff"));
}

#[test]
fn update_or_create_tagged_double_eq_always_shown() {
    let mut ed = ScheduleEditor::new(make_empty_schedule());
    let name = ed.update_or_create_presenter("G:John==UNC Staff", true, None, None, &TAGS);
    assert_eq!(name, Some("John".to_string()));
    assert!(ed.schedule().is_group("UNC Staff"));
    assert!(ed.schedule().always_shown("UNC Staff"), "== should set always_shown");
}

#[test]
fn update_or_create_tagged_lt_always_grouped() {
    let mut ed = ScheduleEditor::new(make_empty_schedule());
    let name = ed.update_or_create_presenter("G:<Jane=UNC Staff", true, None, None, &TAGS);
    assert_eq!(name, Some("Jane".to_string()));
    assert!(ed.schedule().always_grouped("Jane"), "< prefix should set always_grouped");
    assert!(ed.schedule().in_group("Jane", "UNC Staff"));
    assert!(!ed.schedule().always_shown("UNC Staff"), "single = should not set always_shown");
}

#[test]
fn update_or_create_tagged_lt_double_eq_combined() {
    let mut ed = ScheduleEditor::new(make_empty_schedule());
    let name = ed.update_or_create_presenter("G:<Bob==Team", true, None, None, &TAGS);
    assert_eq!(name, Some("Bob".to_string()));
    assert!(ed.schedule().always_grouped("Bob"));
    assert!(ed.schedule().always_shown("Team"), "== should set always_shown");
}

#[test]
fn update_or_create_no_tag_creates_with_default_rank() {
    let mut ed = ScheduleEditor::new(make_empty_schedule());
    let name = ed.update_or_create_presenter("Some Person", true, None, None, &TAGS);
    assert_eq!(name, Some("Some Person".to_string()));
    assert_eq!(ed.schedule().presenters[0].rank, DEFAULT_RANK);
}

#[test]
fn update_or_create_no_tag_no_create() {
    let mut ed = ScheduleEditor::new(make_empty_schedule());
    let name = ed.update_or_create_presenter("Nobody", false, None, None, &TAGS);
    assert_eq!(name, None);
    assert!(ed.schedule().presenters.is_empty());
}

#[test]
fn update_or_create_empty_returns_none() {
    let mut ed = ScheduleEditor::new(make_empty_schedule());
    assert_eq!(ed.update_or_create_presenter("", true, None, None, &TAGS), None);
}

#[test]
fn update_or_create_group_only_no_circular() {
    let mut ed = ScheduleEditor::new(make_empty_schedule());
    let name = ed.update_or_create_presenter("G:==UNC Staff", true, None, None, &TAGS);
    assert_eq!(name, Some("UNC Staff".to_string()));
    let s = ed.schedule();
    assert_eq!(s.presenters.len(), 1);
    assert!(s.is_group("UNC Staff"));
    assert!(s.always_shown("UNC Staff"));
    assert!(!s.has_groups("UNC Staff"));
    assert!(!s.in_group("UNC Staff", "UNC Staff"));
    assert_eq!(ed.update_or_create_presenter("G:Other", true, None, None, &TAGS), None);
    assert_eq!(ed.schedule().presenters.len(), 1);
}

#[test]
fn update_or_create_column_and_index_rank() {
    let mut ed = ScheduleEditor::new(make_empty_schedule());
    ed.update_or_create_presenter("P:TestPerson", true, Some(7), Some(3), &TAGS);
    let p = &ed.schedule().presenters[0];
    assert_eq!(p.sort_rank, Some((7, 3, 1)));
    assert_eq!(p.rank, DEFAULT_RANK);
}
