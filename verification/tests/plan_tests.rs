use schedule_core::edit::plan::{
    ChangeState,
    collect_relationship_commands, next_room_uid, plan_find_or_create_panel_type,
    plan_find_or_create_presenter, plan_find_or_create_room, plan_tagged_presenter, PanelTypeFlags,
    PanelTypeOptions, PanelTypePlan, PanelTypeRow, PanelTypeSnapshot, PresenterCommand,
    PresenterOptions, PresenterRow, RoomOptions, RoomPlan, RoomRow, TaggedOutcome, TaggedStep,
    DEFAULT_RANK,
};
use indexmap::IndexMap;

fn entries(m: &IndexMap<String, String>) -> Vec<(String, String)> {
    m.iter().map(|(k, v)| (k.clone(), v.clone())).collect()
}

fn color_map(pairs: &[(&str, &str)]) -> IndexMap<String, String> {
    let mut m = IndexMap::new();
    for (k, v) in pairs {
        m.insert(k.to_string(), v.to_string());
    }
    m
}

const GUEST: u8 = 0;
const JUDGE: u8 = 1;
const STAFF: u8 = 2;

fn rooms() -> Vec<RoomRow> {
    vec![RoomRow {
        uid: 10,
        short_name: "Main".to_string(),
        long_name: "Main Events".to_string(),
        hotel_room: "Salon F/G".to_string(),
        sort_key: 1,
        is_break: false,
        change_state: ChangeState::Unchanged,
    }]
}

fn presenters() -> Vec<PresenterRow> {
    vec![
        PresenterRow { name: "Alice".to_string(), rank: GUEST, sort_rank: None, change_state: ChangeState::Unchanged },
        PresenterRow { name: "Bob".to_string(), rank: DEFAULT_RANK, sort_rank: None, change_state: ChangeState::Unchanged },
    ]
}

fn no_flags() -> PanelTypeFlags {
    PanelTypeFlags {
        is_break: false,
        is_cafe: false,
        is_workshop: false,
        is_hidden: false,
        is_room_hours: false,
        is_timeline: false,
        is_private: false,
    }
}

fn panel_types() -> Vec<PanelTypeRow> {
    vec![PanelTypeRow {
        prefix: "GP".to_string(),
        snapshot: PanelTypeSnapshot {
            kind: "Guest Panel".to_string(),
            colors: color_map(&[("color", "#E2F9D7")]),
            flags: no_flags(),
        },
        change_state: ChangeState::Unchanged,
    }]
}

#[test]
fn plan_find_or_create_room_existing() {
    let opts = RoomOptions { hotel_room: Some("Salon A/B".to_string()), ..Default::default() };
    match plan_find_or_create_room(&rooms(), "main", &opts) {
        RoomPlan::Update { uid, old, new } => {
            assert_eq!(uid, 10);
            assert_eq!(old.hotel_room, "Salon F/G");
            assert_eq!(new.hotel_room, "Salon A/B");
            assert_eq!(new.short_name, "Main");
            assert_eq!(new.long_name, "Main Events");
        }
        other => panic!("unexpected plan {:?}", other),
    }
}

#[test]
fn plan_find_or_create_room_new() {
    let opts = RoomOptions {
        long_name: Some("Workshop Room 1".to_string()),
        hotel_room: Some("Salon C".to_string()),
        sort_key: Some(5),
        ..Default::default()
    };
    match plan_find_or_create_room(&rooms(), "Workshop 1", &opts) {
        RoomPlan::Create { uid, snapshot } => {
            assert_eq!(uid, 11);
            assert_eq!(snapshot.short_name, "Workshop 1");
            assert_eq!(snapshot.long_name, "Workshop Room 1");
            assert_eq!(snapshot.sort_key, 5);
            assert!(!snapshot.is_break);
        }
        other => panic!("unexpected plan {:?}", other),
    }
}

#[test]
fn plan_find_or_create_room_no_change_noop() {
    let opts = RoomOptions { long_name: Some("Main Events".to_string()), ..Default::default() };
    assert!(matches!(plan_find_or_create_room(&rooms(), "MAIN", &opts), RoomPlan::Unchanged { uid: 10 }));
}

#[test]
fn plan_new_room_defaults_and_explicit_uid() {
    let opts = RoomOptions { uid: Some(42), ..Default::default() };
    match plan_find_or_create_room(&rooms(), "Side", &opts) {
        RoomPlan::Create { uid, snapshot } => {
            assert_eq!(uid, 42);
            assert_eq!(snapshot.long_name, "Side");
            assert_eq!(snapshot.hotel_room, "");
            assert_eq!(snapshot.sort_key, 42);
        }
        other => panic!("unexpected plan {:?}", other),
    }
    assert_eq!(next_room_uid(&[]), 1);
    assert_eq!(next_room_uid(&rooms()), 11);
}

#[test]
fn plan_find_or_create_presenter_existing_rank_upgrade() {
    let opts = PresenterOptions { rank: Some(STAFF), ..Default::default() };
    let (name, cmds) = plan_find_or_create_presenter(&presenters(), "bob", &opts);
    assert_eq!(name, "Bob");
    assert_eq!(cmds.len(), 1);
    match &cmds[0] {
        PresenterCommand::UpdatePresenter { name, old, new } => {
            assert_eq!(name, "Bob");
            assert_eq!(old.rank, DEFAULT_RANK);
            assert_eq!(new.rank, STAFF);
        }
        other => panic!("unexpected command {:?}", other),
    }
}

#[test]
fn plan_find_or_create_presenter_existing_no_downgrade() {
    let opts = PresenterOptions { rank: Some(DEFAULT_RANK), ..Default::default() };
    let (name, cmds) = plan_find_or_create_presenter(&presenters(), "Alice", &opts);
    assert_eq!(name, "Alice");
    assert!(cmds.is_empty());
}

#[test]
fn plan_find_or_create_presenter_new() {
    let opts = PresenterOptions {
        rank: Some(JUDGE),
        add_groups: vec!["Judges Panel".to_string()],
        ..Default::default()
    };
    let (name, cmds) = plan_find_or_create_presenter(&presenters(), "Charlie", &opts);
    assert_eq!(name, "Charlie");
    assert_eq!(cmds.len(), 4);
    match &cmds[0] {
        PresenterCommand::CreatePresenter { name, snapshot, .. } => {
            assert_eq!(name, "Charlie");
            assert_eq!(snapshot.rank, JUDGE);
        }
        other => panic!("unexpected command {:?}", other),
    }
    match &cmds[1] {
        PresenterCommand::CreatePresenter { name, snapshot, .. } => {
            assert_eq!(name, "Judges Panel");
            assert_eq!(snapshot.rank, DEFAULT_RANK);
        }
        other => panic!("unexpected command {:?}", other),
    }
    match &cmds[3] {
        PresenterCommand::AddRelationship { edge } => {
            assert_eq!(edge.member.as_deref(), Some("Charlie"));
            assert_eq!(edge.group, "Judges Panel");
        }
        other => panic!("unexpected command {:?}", other),
    }
}

#[test]
fn plan_find_or_create_presenter_add_group_membership() {
    let opts = PresenterOptions {
        add_groups: vec!["Cosplay Group".to_string()],
        always_grouped: Some(true),
        ..Default::default()
    };
    let (_, cmds) = plan_find_or_create_presenter(&presenters(), "Alice", &opts);
    assert_eq!(cmds.len(), 3);
    match &cmds[2] {
        PresenterCommand::AddRelationship { edge } => {
            assert_eq!(edge.member.as_deref(), Some("Alice"));
            assert_eq!(edge.group, "Cosplay Group");
            assert!(edge.always_grouped);
            assert!(!edge.always_shown);
        }
        other => panic!("unexpected command {:?}", other),
    }
}

#[test]
fn plan_sort_rank_only_moves_earlier() {
    let rows = vec![PresenterRow { name: "Dana".to_string(), rank: STAFF, sort_rank: Some((2, 5, 0)), change_state: ChangeState::Unchanged }];
    let later = PresenterOptions { sort_rank: Some((2, 6, 0)), ..Default::default() };
    assert!(plan_find_or_create_presenter(&rows, "Dana", &later).1.is_empty());
    let earlier = PresenterOptions { sort_rank: Some((2, 4, 9)), ..Default::default() };
    match &plan_find_or_create_presenter(&rows, "Dana", &earlier).1[0] {
        PresenterCommand::UpdatePresenter { new, .. } => assert_eq!(new.sort_rank, Some((2, 4, 9))),
        other => panic!("unexpected command {:?}", other),
    }
}

#[test]
fn plan_relationship_commands_for_group_and_members() {
    let opts = PresenterOptions {
        is_group: Some(true),
        always_shown: Some(true),
        add_members: vec!["alice".to_string(), "Eve".to_string()],
        ..Default::default()
    };
    let cmds = collect_relationship_commands(&presenters(), "Crew", &opts);
    assert_eq!(cmds.len(), 4);
    match &cmds[0] {
        PresenterCommand::AddRelationship { edge } => {
            assert_eq!(edge.member, None);
            assert_eq!(edge.group, "Crew");
            assert!(edge.always_shown);
        }
        other => panic!("unexpected command {:?}", other),
    }
    match &cmds[1] {
        PresenterCommand::AddRelationship { edge } => assert_eq!(edge.member.as_deref(), Some("alice")),
        other => panic!("unexpected command {:?}", other),
    }
    assert!(matches!(&cmds[2], PresenterCommand::CreatePresenter { name, .. } if name == "Eve"));
}

#[test]
fn plan_find_or_create_panel_type_existing_update() {
    let opts = PanelTypeOptions {
        color: Some("#FFFFFF".to_string()),
        is_workshop: Some(true),
        ..Default::default()
    };
    match plan_find_or_create_panel_type(&panel_types(), "gp", &opts) {
        PanelTypePlan::Update { prefix, old, new } => {
            assert_eq!(prefix, "GP");
            assert_eq!(entries(&old.colors), vec![("color".to_string(), "#E2F9D7".to_string())]);
            assert_eq!(entries(&new.colors), vec![("color".to_string(), "#FFFFFF".to_string())]);
            assert!(new.flags.is_workshop);
            assert_eq!(new.kind, "Guest Panel");
        }
        other => panic!("unexpected plan {:?}", other),
    }
}

#[test]
fn plan_find_or_create_panel_type_new() {
    let opts = PanelTypeOptions {
        kind: Some("Workshop".to_string()),
        color: Some("#FDEEB5".to_string()),
        bw_color: Some("#CCCCCC".to_string()),
        colors: Some(color_map(&[("bw", "#000000"), ("alt", "#111111")])),
        is_workshop: Some(true),
        ..Default::default()
    };
    match plan_find_or_create_panel_type(&panel_types(), "WS", &opts) {
        PanelTypePlan::Create { prefix, snapshot } => {
            assert_eq!(prefix, "WS");
            assert_eq!(snapshot.kind, "Workshop");
            assert_eq!(
                entries(&snapshot.colors),
                vec![
                    ("bw".to_string(), "#CCCCCC".to_string()),
                    ("alt".to_string(), "#111111".to_string()),
                    ("color".to_string(), "#FDEEB5".to_string()),
                ]
            );
            assert!(snapshot.flags.is_workshop);
            assert!(!snapshot.flags.is_break);
        }
        other => panic!("unexpected plan {:?}", other),
    }
    let same = PanelTypeOptions { kind: Some("Guest Panel".to_string()), ..Default::default() };
    assert!(matches!(plan_find_or_create_panel_type(&panel_types(), "GP", &same), PanelTypePlan::Unchanged { .. }));
}

#[test]
fn plan_tagged_presenter_with_group() {
    let plan = plan_tagged_presenter("<Alice ==Crew", GUEST, Some(3), Some(7)).unwrap();
    assert_eq!(plan.steps.len(), 5);
    match &plan.steps[0] {
        TaggedStep::FindOrCreate { name, rank, sort_rank } => {
            assert_eq!(name, "Crew");
            assert_eq!(*rank, GUEST);
            assert_eq!(*sort_rank, Some((3, 7, 0)));
        }
        other => panic!("unexpected step {:?}", other),
    }
    match &plan.steps[1] {
        TaggedStep::Run(PresenterCommand::AddRelationship { edge }) => {
            assert_eq!(edge.member, None);
            assert!(edge.always_shown);
        }
        other => panic!("unexpected step {:?}", other),
    }
    match &plan.steps[3] {
        TaggedStep::FindOrCreate { name, sort_rank, .. } => {
            assert_eq!(name, "Alice");
            assert_eq!(*sort_rank, Some((3, 7, 1)));
        }
        other => panic!("unexpected step {:?}", other),
    }
    match &plan.steps[4] {
        TaggedStep::JoinFound { group, always_grouped } => {
            assert_eq!(group, "Crew");
            assert!(*always_grouped);
        }
        other => panic!("unexpected step {:?}", other),
    }
    assert!(matches!(plan.outcome, TaggedOutcome::Found));
}

#[test]
fn plan_tagged_presenter_group_only_and_other() {
    let plan = plan_tagged_presenter("=Crew", STAFF, None, None).unwrap();
    assert_eq!(plan.steps.len(), 1);
    match &plan.outcome {
        TaggedOutcome::Group(g) => assert_eq!(g.as_deref(), Some("Crew")),
        other => panic!("unexpected outcome {:?}", other),
    }
    let same = plan_tagged_presenter("crew=Crew", STAFF, None, None).unwrap();
    assert_eq!(same.steps.len(), 1);
    assert!(matches!(same.outcome, TaggedOutcome::Group(_)));
    assert!(plan_tagged_presenter("Other", STAFF, None, None).is_none());
    assert!(plan_tagged_presenter("", STAFF, None, None).is_none());
    let solo = plan_tagged_presenter("Bob", STAFF, None, None).unwrap();
    assert_eq!(solo.steps.len(), 1);
    assert!(matches!(solo.outcome, TaggedOutcome::Found));
}
