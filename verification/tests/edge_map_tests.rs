use schedule_core::edge::descriptor::{EdgeKind, HalfEdgeDescriptor};
use schedule_core::edge::map::{EdgeError, RawEdgeMap};
use schedule_core::field::CommonFieldData;
use schedule_core::ids::{NonNilUuid, RuntimeEntityId};
use schedule_core::value::{FieldCardinality, FieldType, FieldTypeItem};

const TYPE_A: &str = "type_a";
const TYPE_B: &str = "type_b";

fn field(entity: &'static str, name: &'static str, order: u32) -> HalfEdgeDescriptor {
    HalfEdgeDescriptor {
        data: CommonFieldData {
            name,
            display: name,
            description: "Test field",
            aliases: &[],
            field_type: FieldType(FieldCardinality::Optional, FieldTypeItem::Text),
            example: "",
            order,
        },
        edge_kind: EdgeKind::Target { source_fields: &[] },
        entity_name: entity,
    }
}

fn field_a1() -> HalfEdgeDescriptor {
    field(TYPE_A, "a1", 0)
}
fn field_a2() -> HalfEdgeDescriptor {
    field(TYPE_A, "a2", 1)
}
fn field_b1() -> HalfEdgeDescriptor {
    field(TYPE_B, "b1", 0)
}

fn nnu(n: u128) -> NonNilUuid {
    NonNilUuid::new(n).expect("test UUID must not be nil")
}
fn fn_a1(n: u128) -> RuntimeEntityId {
    RuntimeEntityId::new_unchecked(nnu(n), TYPE_A)
}
fn fn_a2(n: u128) -> RuntimeEntityId {
    RuntimeEntityId::new_unchecked(nnu(n), TYPE_A)
}
fn fn_b1(n: u128) -> RuntimeEntityId {
    RuntimeEntityId::new_unchecked(nnu(n), TYPE_B)
}

#[test]
fn map_test_add_edge_stores_both_directions() {
    let mut map = RawEdgeMap::default();
    let edge_ab = field_a1().edge_to(&field_b1());
    map.add_edge(fn_a1(1), edge_ab, vec![fn_b1(2)]).unwrap();

    let neighbors_a = map.neighbors(fn_a1(1), edge_ab);
    assert_eq!(neighbors_a[0], fn_b1(2));
    let edge_ba = field_b1().edge_to(&field_a1());
    let neighbors_b = map.neighbors(fn_b1(2), edge_ba);
    assert_eq!(neighbors_b[0], fn_a1(1));
}

#[test]
fn map_test_add_edge_is_idempotent() {
    let mut map = RawEdgeMap::default();
    let edge_ab = field_a1().edge_to(&field_b1());
    map.add_edge(fn_a1(1), edge_ab, vec![fn_b1(2)]).unwrap();
    map.add_edge(fn_a1(1), edge_ab, vec![fn_b1(2)]).unwrap();

    assert_eq!(map.neighbors(fn_a1(1), edge_ab).len(), 1);
    let edge_ba = field_b1().edge_to(&field_a1());
    assert_eq!(map.neighbors(fn_b1(2), edge_ba).len(), 1);
}

#[test]
fn map_test_add_edge_multiple_neighbors() {
    let mut map = RawEdgeMap::default();
    let edge_ab = field_a1().edge_to(&field_b1());
    map.add_edge(fn_a1(1), edge_ab, vec![fn_b1(10)]).unwrap();
    map.add_edge(fn_a1(1), edge_ab, vec![fn_b1(11)]).unwrap();

    let neighbors = map.neighbors(fn_a1(1), edge_ab);
    assert_eq!(neighbors.len(), 2);
    assert!(neighbors.contains(&fn_b1(10)));
    assert!(neighbors.contains(&fn_b1(11)));
}

#[test]
fn test_homogenous_edge_both_directions_in_same_map() {
    let mut map = RawEdgeMap::default();
    let edge = field_a1().edge_to(&field_a2());
    map.add_edge(fn_a1(10), edge, vec![fn_a2(20)]).unwrap();

    assert_eq!(map.neighbors(fn_a1(10), edge), &[fn_a2(20)]);
    let edge_reverse = field_a2().edge_to(&field_a1());
    assert_eq!(map.neighbors(fn_a2(20), edge_reverse), &[fn_a1(10)]);
    assert!(map.neighbors(fn_a1(10), edge_reverse).is_empty());
    assert!(map.neighbors(fn_a2(20), edge).is_empty());
}

#[test]
fn test_homogenous_edge_multiple_members_same_group() {
    let mut map = RawEdgeMap::default();
    let edge = field_a1().edge_to(&field_a2());
    map.add_edge(fn_a1(1), edge, vec![fn_a2(100)]).unwrap();
    map.add_edge(fn_a1(2), edge, vec![fn_a2(100)]).unwrap();

    let edge_reverse = field_a2().edge_to(&field_a1());
    let members = map.neighbors(fn_a2(100), edge_reverse);
    assert_eq!(members.len(), 2);
    assert!(members.contains(&fn_a1(1)));
    assert!(members.contains(&fn_a1(2)));
}

#[test]
fn test_heterogeneous_and_homogenous_coexist_on_same_uuid() {
    let mut map = RawEdgeMap::default();
    let edge_ab = field_a1().edge_to(&field_b1());
    map.add_edge(fn_a1(1), edge_ab, vec![fn_b1(2)]).unwrap();
    let edge_aa = field_a2().edge_to(&field_a2());
    map.add_edge(fn_a2(1), edge_aa, vec![fn_a2(3)]).unwrap();

    assert_eq!(map.neighbors(fn_a1(1), edge_ab), &[fn_b1(2)]);
    assert_eq!(map.neighbors(fn_a2(1), edge_aa), &[fn_a2(3)]);
    let edge_ba = field_b1().edge_to(&field_a1());
    assert_eq!(map.neighbors(fn_b1(2), edge_ba), &[fn_a1(1)]);
    assert_eq!(map.neighbors(fn_a2(3), edge_aa), &[fn_a2(1)]);
}

#[test]
fn map_test_remove_edge_clears_both_directions() {
    let mut map = RawEdgeMap::default();
    let edge_ab = field_a1().edge_to(&field_b1());
    map.add_edge(fn_a1(1), edge_ab, vec![fn_b1(2)]).unwrap();
    map.remove_edge(fn_a1(1), edge_ab, vec![fn_b1(2)]);

    assert!(map.neighbors(fn_a1(1), edge_ab).is_empty());
    let edge_ba = field_b1().edge_to(&field_a1());
    assert!(map.neighbors(fn_b1(2), edge_ba).is_empty());
}

#[test]
fn map_test_remove_edge_noop_when_absent() {
    let mut map = RawEdgeMap::default();
    let edge_ab = field_a1().edge_to(&field_b1());
    map.remove_edge(fn_a1(1), edge_ab, vec![fn_b1(2)]);
}

#[test]
fn map_test_remove_edge_leaves_other_edges_intact() {
    let mut map = RawEdgeMap::default();
    let edge_ab = field_a1().edge_to(&field_b1());
    map.add_edge(fn_a1(1), edge_ab, vec![fn_b1(10)]).unwrap();
    map.add_edge(fn_a1(1), edge_ab, vec![fn_b1(11)]).unwrap();
    map.remove_edge(fn_a1(1), edge_ab, vec![fn_b1(10)]);

    let neighbors = map.neighbors(fn_a1(1), edge_ab);
    assert_eq!(neighbors.len(), 1);
    assert!(neighbors.contains(&fn_b1(11)));
    let edge_ba = field_b1().edge_to(&field_a1());
    assert!(map.neighbors(fn_b1(10), edge_ba).is_empty());
    assert_eq!(map.neighbors(fn_b1(11), edge_ba), &[fn_a1(1)]);
}

#[test]
fn map_test_clear_all_removes_het_edges_from_neighbors() {
    let mut map = RawEdgeMap::default();
    let edge_ab = field_a1().edge_to(&field_b1());
    map.add_edge(fn_a1(1), edge_ab, vec![fn_b1(2)]).unwrap();
    map.clear_all(nnu(1));

    assert!(map.neighbors(fn_a1(1), edge_ab).is_empty());
    let edge_ba = field_b1().edge_to(&field_a1());
    assert!(map.neighbors(fn_b1(2), edge_ba).is_empty());
}

#[test]
fn test_clear_all_removes_homogenous_edges_from_both_directions() {
    let mut map = RawEdgeMap::default();
    let edge = field_a1().edge_to(&field_a2());
    map.add_edge(fn_a1(10), edge, vec![fn_a2(20)]).unwrap();
    map.clear_all(nnu(10));

    assert!(map.neighbors(fn_a1(10), edge).is_empty());
    let edge_reverse = field_a2().edge_to(&field_a1());
    assert!(map.neighbors(fn_a2(20), edge_reverse).is_empty());
}

#[test]
fn map_test_clear_all_target_side_cleans_up_source() {
    let mut map = RawEdgeMap::default();
    let edge = field_a1().edge_to(&field_a2());
    map.add_edge(fn_a1(10), edge, vec![fn_a2(20)]).unwrap();
    map.clear_all(nnu(20));

    assert!(map.neighbors(fn_a2(20), edge).is_empty());
    let edge_reverse = field_a2().edge_to(&field_a1());
    assert!(map.neighbors(fn_a1(10), edge_reverse).is_empty());
}

#[test]
fn map_test_clear_all_mixed_fields() {
    let mut map = RawEdgeMap::default();
    let edge_ab = field_a1().edge_to(&field_b1());
    map.add_edge(fn_a1(1), edge_ab, vec![fn_b1(2)]).unwrap();
    let edge_aa = field_a2().edge_to(&field_a2());
    map.add_edge(fn_a1(1), edge_aa, vec![fn_a2(3)]).unwrap();
    map.clear_all(nnu(1));

    assert!(map.neighbors(fn_a1(1), edge_ab).is_empty());
    assert!(map.neighbors(fn_a2(1), edge_aa).is_empty());
    let edge_ba = field_b1().edge_to(&field_a1());
    assert!(map.neighbors(fn_b1(2), edge_ba).is_empty());
    assert!(map.neighbors(fn_a2(3), edge_aa).is_empty());
}

#[test]
fn map_test_clear_all_noop_when_absent() {
    let mut map = RawEdgeMap::default();
    map.clear_all(nnu(99));
}

#[test]
fn map_test_neighbors_for_field_unknown_uuid() {
    let map = RawEdgeMap::default();
    let edge = field_a1().edge_to(&field_a1());
    assert!(map.neighbors(fn_a1(1), edge).is_empty());
}

#[test]
fn map_test_neighbors_for_field_wrong_field_on_known_uuid() {
    let mut map = RawEdgeMap::default();
    let edge_ab = field_a1().edge_to(&field_b1());
    map.add_edge(fn_a1(1), edge_ab, vec![fn_b1(2)]).unwrap();
    let edge_aa = field_a2().edge_to(&field_a2());
    assert!(map.neighbors(fn_a2(1), edge_aa).is_empty());
}

#[test]
fn map_test_reverse_consistent_after_multiple_adds() {
    let mut map = RawEdgeMap::default();
    let edge = field_a1().edge_to(&field_a2());
    map.add_edge(fn_a1(1), edge, vec![fn_a2(100)]).unwrap();
    map.add_edge(fn_a1(2), edge, vec![fn_a2(100)]).unwrap();
    map.add_edge(fn_a1(3), edge, vec![fn_a2(100)]).unwrap();

    let edge_reverse = field_a2().edge_to(&field_a1());
    let members = map.neighbors(fn_a2(100), edge_reverse);
    assert_eq!(members.len(), 3);
    assert!(members.contains(&fn_a1(1)));
    assert!(members.contains(&fn_a1(2)));
    assert!(members.contains(&fn_a1(3)));
}

#[test]
fn map_test_reverse_empty_after_all_members_removed() {
    let mut map = RawEdgeMap::default();
    let edge = field_a1().edge_to(&field_a2());
    map.add_edge(fn_a1(1), edge, vec![fn_a2(100)]).unwrap();
    map.add_edge(fn_a1(2), edge, vec![fn_a2(100)]).unwrap();
    map.remove_edge(fn_a1(1), edge, vec![fn_a2(100)]);
    map.remove_edge(fn_a1(2), edge, vec![fn_a2(100)]);

    let edge_reverse = field_a2().edge_to(&field_a1());
    assert!(map.neighbors(fn_a2(100), edge_reverse).is_empty());
}

// ── Further cases ───────────────────────────────────────────────────────────

#[test]
fn add_edge_rejects_wrong_near_type() {
    let mut map = RawEdgeMap::default();
    let edge_ab = field_a1().edge_to(&field_b1());
    let r = map.add_edge(fn_b1(1), edge_ab, vec![fn_b1(2)]);
    match r {
        Err(EdgeError::NearTypeMismatch { actual, expected }) => {
            assert_eq!(actual, TYPE_B);
            assert_eq!(expected, TYPE_A);
        },
        _ => panic!("expected a near type mismatch"),
    }
    assert!(map.neighbors(fn_b1(2), field_b1().edge_to(&field_a1())).is_empty());
}

#[test]
fn add_edge_rejects_wrong_far_type_and_changes_nothing() {
    let mut map = RawEdgeMap::default();
    let edge_ab = field_a1().edge_to(&field_b1());
    let r = map.add_edge(fn_a1(1), edge_ab, vec![fn_b1(2), fn_a1(3)]);
    match r {
        Err(EdgeError::FarTypeMismatch { actual, expected }) => {
            assert_eq!(actual, TYPE_A);
            assert_eq!(expected, TYPE_B);
        },
        _ => panic!("expected a far type mismatch"),
    }
    assert!(map.neighbors(fn_a1(1), edge_ab).is_empty());
}

#[test]
fn add_edge_reports_only_new_targets() {
    let mut map = RawEdgeMap::default();
    let edge_ab = field_a1().edge_to(&field_b1());
    let first = map.add_edge(fn_a1(1), edge_ab, vec![fn_b1(2)]).unwrap();
    assert_eq!(first, vec![nnu(2)]);
    let second = map.add_edge(fn_a1(1), edge_ab, vec![fn_b1(2), fn_b1(3), fn_b1(3)]).unwrap();
    assert_eq!(second, vec![nnu(3)]);
    assert_eq!(map.neighbors(fn_a1(1), edge_ab), &[fn_b1(2), fn_b1(3)]);
}

#[test]
fn remove_edge_reports_what_was_removed() {
    let mut map = RawEdgeMap::default();
    let edge_ab = field_a1().edge_to(&field_b1());
    map.add_edge(fn_a1(1), edge_ab, vec![fn_b1(2), fn_b1(3)]).unwrap();
    let removed = map.remove_edge(fn_a1(1), edge_ab, vec![fn_b1(3), fn_b1(4)]);
    assert_eq!(removed, vec![nnu(3)]);
    assert_eq!(map.neighbors(fn_a1(1), edge_ab), &[fn_b1(2)]);
}

#[test]
fn remove_undoes_add() {
    let mut map = RawEdgeMap::default();
    let edge_ab = field_a1().edge_to(&field_b1());
    let edge_ba = field_b1().edge_to(&field_a1());
    map.add_edge(fn_a1(1), edge_ab, vec![fn_b1(2)]).unwrap();
    let added = map.add_edge(fn_a1(1), edge_ab, vec![fn_b1(3), fn_b1(2)]).unwrap();
    let back: Vec<RuntimeEntityId> =
        added.iter().map(|u| RuntimeEntityId::new_unchecked(*u, TYPE_B)).collect();
    map.remove_edge(fn_a1(1), edge_ab, back);
    assert_eq!(map.neighbors(fn_a1(1), edge_ab), &[fn_b1(2)]);
    assert_eq!(map.neighbors(fn_b1(2), edge_ba), &[fn_a1(1)]);
    assert!(map.neighbors(fn_b1(3), edge_ba).is_empty());
}

#[test]
fn set_neighbors_replaces_and_patches_reverse() {
    let mut map = RawEdgeMap::default();
    let edge_ab = field_a1().edge_to(&field_b1());
    map.add_edge(fn_a1(1), edge_ab, vec![fn_b1(10), fn_b1(11)]).unwrap();
    let (added, removed) = map.set_neighbors(fn_a1(1), edge_ab, vec![fn_b1(11), fn_b1(12)]).unwrap();
    assert_eq!(added, vec![nnu(12)]);
    assert_eq!(removed, vec![nnu(10)]);
    assert_eq!(map.neighbors(fn_a1(1), edge_ab), &[fn_b1(11), fn_b1(12)]);
    let edge_ba = field_b1().edge_to(&field_a1());
    assert!(map.neighbors(fn_b1(10), edge_ba).is_empty());
    assert_eq!(map.neighbors(fn_b1(12), edge_ba), &[fn_a1(1)]);
}

#[test]
fn set_neighbors_rejects_wrong_far_type() {
    let mut map = RawEdgeMap::default();
    let edge_ab = field_a1().edge_to(&field_b1());
    map.add_edge(fn_a1(1), edge_ab, vec![fn_b1(10)]).unwrap();
    assert!(map.set_neighbors(fn_a1(1), edge_ab, vec![fn_a1(2)]).is_err());
    assert_eq!(map.neighbors(fn_a1(1), edge_ab), &[fn_b1(10)]);
}

#[test]
fn set_neighbors_lists_near_once_in_each_reverse_list() {
    let mut map = RawEdgeMap::default();
    let edge_ab = field_a1().edge_to(&field_b1());
    let edge_ba = field_b1().edge_to(&field_a1());
    map.add_edge(fn_a1(1), edge_ab, vec![fn_b1(10)]).unwrap();
    map.set_neighbors(fn_a1(1), edge_ab, vec![fn_b1(10), fn_b1(12), fn_b1(12)]).unwrap();
    assert_eq!(map.neighbors(fn_b1(10), edge_ba), &[fn_a1(1)]);
    assert_eq!(map.neighbors(fn_b1(12), edge_ba), &[fn_a1(1)]);
    assert_eq!(map.neighbors(fn_a1(1), edge_ab), &[fn_b1(10), fn_b1(12), fn_b1(12)]);
}
