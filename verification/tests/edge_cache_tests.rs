use schedule_core::edge::cache::TransitiveEdgeCache;
use schedule_core::edge::descriptor::{EdgeKind, HalfEdgeDescriptor};
use schedule_core::edge::id::FullEdge;
use schedule_core::edge::map::RawEdgeMap;
use schedule_core::field::{CommonFieldData, FieldKey};
use schedule_core::ids::{NonNilUuid, RuntimeEntityId};
use schedule_core::value::{FieldCardinality, FieldType, FieldTypeItem};

const TYPE_A: &str = "type_a";

fn field_fwd() -> HalfEdgeDescriptor {
    HalfEdgeDescriptor {
        data: CommonFieldData {
            name: "owner",
            display: "Owner",
            description: "Forward field",
            aliases: &[],
            field_type: FieldType(FieldCardinality::Optional, FieldTypeItem::Text),
            example: "",
            order: 0,
        },
        edge_kind: EdgeKind::Owner {
            target_field: FieldKey { entity_type: TYPE_A, name: "members" },
            exclusive_with: None,
        },
        entity_name: TYPE_A,
    }
}

fn field_rev() -> HalfEdgeDescriptor {
    HalfEdgeDescriptor {
        data: CommonFieldData {
            name: "members",
            display: "Members",
            description: "Reverse field",
            aliases: &[],
            field_type: FieldType(FieldCardinality::Optional, FieldTypeItem::Text),
            example: "",
            order: 1,
        },
        edge_kind: EdgeKind::Target { source_fields: &[] },
        entity_name: TYPE_A,
    }
}

fn fwd() -> FullEdge {
    field_fwd().edge_to(&field_rev())
}
fn rev() -> FullEdge {
    field_rev().edge_to(&field_fwd())
}

fn nnu(n: u128) -> NonNilUuid {
    NonNilUuid::new(n).expect("test UUID must not be nil")
}

fn id(n: u128) -> RuntimeEntityId {
    RuntimeEntityId::new_unchecked(nnu(n), TYPE_A)
}

fn add_member_group(map: &mut RawEdgeMap, member: u128, group: u128) {
    map.add_edge(id(member), fwd(), vec![id(group)]).expect("edge type validation failed");
}

#[test]
fn cache_test_cache_invalidation_via_option() {
    let mut cache = TransitiveEdgeCache::default();
    let mut edge_map = RawEdgeMap::default();

    add_member_group(&mut edge_map, 1, 2);
    let result = cache.get_or_compute(&edge_map, id(1), fwd());
    assert_eq!(result, vec![nnu(2)]);

    cache = TransitiveEdgeCache::default();
    add_member_group(&mut edge_map, 2, 3);
    let result = cache.get_or_compute(&edge_map, id(1), fwd());
    assert!(result.contains(&nnu(2)));
    assert!(result.contains(&nnu(3)));
}

#[test]
fn cache_test_transitive_closure_forward() {
    let mut cache = TransitiveEdgeCache::default();
    let mut edge_map = RawEdgeMap::default();

    add_member_group(&mut edge_map, 1, 2);
    add_member_group(&mut edge_map, 2, 3);

    let result = cache.get_or_compute(&edge_map, id(1), fwd());
    assert!(result.contains(&nnu(2)), "should reach direct neighbor 2");
    assert!(result.contains(&nnu(3)), "should reach transitive neighbor 3");
    assert!(!result.contains(&nnu(1)), "start node not included");
}

#[test]
fn cache_test_transitive_closure_reverse() {
    let mut cache = TransitiveEdgeCache::default();
    let mut edge_map = RawEdgeMap::default();

    add_member_group(&mut edge_map, 3, 2);
    add_member_group(&mut edge_map, 2, 1);

    let result = cache.get_or_compute(&edge_map, id(1), rev());
    assert!(result.contains(&nnu(2)));
    assert!(result.contains(&nnu(3)));
    assert!(!result.contains(&nnu(1)), "start node not included");
}

#[test]
fn cache_test_cycle_handling() {
    let mut cache = TransitiveEdgeCache::default();
    let mut edge_map = RawEdgeMap::default();

    add_member_group(&mut edge_map, 1, 2);
    add_member_group(&mut edge_map, 2, 1);

    let result = cache.get_or_compute(&edge_map, id(1), fwd());
    assert!(result.contains(&nnu(2)));
    assert!(!result.contains(&nnu(1)), "start node not included even in cycle");
}

#[test]
fn cache_test_empty_result() {
    let mut cache = TransitiveEdgeCache::default();
    let edge_map = RawEdgeMap::default();

    let result = cache.get_or_compute(&edge_map, id(1), fwd());
    assert!(result.is_empty());
}

#[test]
fn cache_test_cached_result_reused() {
    let mut cache = TransitiveEdgeCache::default();
    let mut edge_map = RawEdgeMap::default();
    add_member_group(&mut edge_map, 1, 2);

    let r1 = cache.get_or_compute(&edge_map, id(1), fwd());
    add_member_group(&mut edge_map, 2, 3);
    let r2 = cache.get_or_compute(&edge_map, id(1), fwd());
    assert_eq!(r1, r2, "stale cache should be returned unchanged");
}

#[test]
fn cache_test_presenter_group_scenario() {
    let mut cache = TransitiveEdgeCache::default();
    let mut edge_map = RawEdgeMap::default();

    add_member_group(&mut edge_map, 1, 3);
    add_member_group(&mut edge_map, 2, 3);
    add_member_group(&mut edge_map, 3, 4);
    add_member_group(&mut edge_map, 4, 5);
    add_member_group(&mut edge_map, 1, 6);
    add_member_group(&mut edge_map, 7, 4);

    let groups_of_team_a = cache.get_or_compute(&edge_map, id(3), fwd());
    assert!(groups_of_team_a.contains(&nnu(4)), "Division C");
    assert!(groups_of_team_a.contains(&nnu(5)), "Corp D");
    assert!(!groups_of_team_a.contains(&nnu(1)), "not Alice");
    assert!(!groups_of_team_a.contains(&nnu(7)), "not Team B");

    let members_of_team_a = cache.get_or_compute(&edge_map, id(3), rev());
    assert!(members_of_team_a.contains(&nnu(1)), "Alice");
    assert!(members_of_team_a.contains(&nnu(2)), "Bob");
    assert!(!members_of_team_a.contains(&nnu(7)), "Team B not a member of Team A");
    assert!(!members_of_team_a.contains(&nnu(6)), "Club E not a member");

    let groups_of_alice = cache.get_or_compute(&edge_map, id(1), fwd());
    assert!(groups_of_alice.contains(&nnu(3)), "Team A");
    assert!(groups_of_alice.contains(&nnu(6)), "Club E");
    assert!(groups_of_alice.contains(&nnu(4)), "Division C (via Team A)");
    assert!(groups_of_alice.contains(&nnu(5)), "Corp D (via Division C)");
    assert!(!groups_of_alice.contains(&nnu(7)), "Team B not a group of Alice");
}

#[test]
fn closure_lists_each_entity_once() {
    let mut cache = TransitiveEdgeCache::default();
    let mut edge_map = RawEdgeMap::default();
    add_member_group(&mut edge_map, 1, 2);
    add_member_group(&mut edge_map, 1, 3);
    add_member_group(&mut edge_map, 2, 4);
    add_member_group(&mut edge_map, 3, 4);
    let mut result = cache.get_or_compute(&edge_map, id(1), fwd());
    result.sort_by_key(|u| u.get());
    assert_eq!(result, vec![nnu(2), nnu(3), nnu(4)]);
}

#[test]
fn cache_entries_are_per_start_and_direction() {
    let mut cache = TransitiveEdgeCache::default();
    let mut edge_map = RawEdgeMap::default();
    add_member_group(&mut edge_map, 1, 2);
    let from_one = cache.get_or_compute(&edge_map, id(1), fwd());
    let into_two = cache.get_or_compute(&edge_map, id(2), rev());
    let from_two = cache.get_or_compute(&edge_map, id(2), fwd());
    assert_eq!(from_one, vec![nnu(2)]);
    assert_eq!(into_two, vec![nnu(1)]);
    assert!(from_two.is_empty());
}

#[test]
fn closure_order_is_depth_first_latest_found_first() {
    let mut cache = TransitiveEdgeCache::new();
    let mut map = RawEdgeMap::default();
    add_member_group(&mut map, 1, 2);
    add_member_group(&mut map, 1, 3);
    add_member_group(&mut map, 2, 4);
    add_member_group(&mut map, 3, 5);
    let order = cache.get_or_compute(&map, id(1), fwd());
    assert_eq!(order, vec![nnu(2), nnu(3), nnu(5), nnu(4)]);
}
