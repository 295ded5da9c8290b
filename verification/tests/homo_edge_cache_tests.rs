use schedule_core::edge::descriptor::{EdgeKind, HalfEdgeDescriptor};
use schedule_core::edge::id::FullEdge;
use schedule_core::edge::map::RawEdgeMap;
use schedule_core::edge_cache::HomoEdgeCache;
use schedule_core::field::{CommonFieldData, FieldKey};
use schedule_core::ids::{NonNilUuid, RuntimeEntityId};
use schedule_core::value::{FieldCardinality, FieldType, FieldTypeItem};

const TYPE_A: &str = "type_a";

fn half(name: &'static str, kind: EdgeKind, order: u32) -> HalfEdgeDescriptor {
    HalfEdgeDescriptor {
        data: CommonFieldData {
            name,
            display: name,
            description: "test field",
            aliases: &[],
            field_type: FieldType(FieldCardinality::Optional, FieldTypeItem::Text),
            example: "",
            order,
        },
        edge_kind: kind,
        entity_name: TYPE_A,
    }
}

fn groups_field() -> HalfEdgeDescriptor {
    half(
        "groups",
        EdgeKind::Owner { target_field: FieldKey { entity_type: TYPE_A, name: "members" }, exclusive_with: None },
        0,
    )
}

fn members_field() -> HalfEdgeDescriptor {
    half("members", EdgeKind::Target { source_fields: &[] }, 1)
}

fn forward_edge() -> FullEdge {
    groups_field().edge_to(&members_field())
}

fn reverse_edge() -> FullEdge {
    forward_edge().flip()
}

fn nnu(n: u128) -> NonNilUuid {
    NonNilUuid::new(n).expect("test UUID must not be nil")
}

fn add_member_group(map: &mut RawEdgeMap, member: u128, group: u128) {
    let m = RuntimeEntityId::new_unchecked(nnu(member), TYPE_A);
    let g = RuntimeEntityId::new_unchecked(nnu(group), TYPE_A);
    map.add_edge(m, forward_edge(), vec![g]).unwrap();
}

#[test]
fn edge_cache_test_cache_invalidation_via_option() {
    let mut cache = HomoEdgeCache::default();
    let mut edge_map = RawEdgeMap::default();

    add_member_group(&mut edge_map, 1, 2);
    let result = cache.get_or_compute_forward(&edge_map, nnu(1), forward_edge());
    assert_eq!(result, vec![nnu(2)]);

    cache = HomoEdgeCache::default();
    add_member_group(&mut edge_map, 2, 3);
    let result = cache.get_or_compute_forward(&edge_map, nnu(1), forward_edge());
    assert!(result.contains(&nnu(2)));
    assert!(result.contains(&nnu(3)));
}

#[test]
fn edge_cache_test_transitive_closure_forward() {
    let mut cache = HomoEdgeCache::default();
    let mut edge_map = RawEdgeMap::default();
    add_member_group(&mut edge_map, 1, 2);
    add_member_group(&mut edge_map, 2, 3);

    let result = cache.get_or_compute_forward(&edge_map, nnu(1), forward_edge());
    assert!(result.contains(&nnu(2)), "should reach direct neighbor 2");
    assert!(result.contains(&nnu(3)), "should reach transitive neighbor 3");
    assert!(!result.contains(&nnu(1)), "start node not included");
}

#[test]
fn edge_cache_test_transitive_closure_reverse() {
    let mut cache = HomoEdgeCache::default();
    let mut edge_map = RawEdgeMap::default();
    add_member_group(&mut edge_map, 3, 2);
    add_member_group(&mut edge_map, 2, 1);

    let result = cache.get_or_compute_reverse(&edge_map, nnu(1), reverse_edge());
    assert!(result.contains(&nnu(2)));
    assert!(result.contains(&nnu(3)));
    assert!(!result.contains(&nnu(1)), "start node not included");
}

#[test]
fn edge_cache_test_cycle_handling() {
    let mut cache = HomoEdgeCache::default();
    let mut edge_map = RawEdgeMap::default();
    add_member_group(&mut edge_map, 1, 2);
    add_member_group(&mut edge_map, 2, 1);

    let result = cache.get_or_compute_forward(&edge_map, nnu(1), forward_edge());
    assert!(result.contains(&nnu(2)));
    assert!(!result.contains(&nnu(1)), "start node not included even in cycle");
}

#[test]
fn edge_cache_test_empty_result() {
    let mut cache = HomoEdgeCache::default();
    let edge_map = RawEdgeMap::default();
    let result = cache.get_or_compute_forward(&edge_map, nnu(1), forward_edge());
    assert!(result.is_empty());
}

#[test]
fn edge_cache_test_cached_result_reused() {
    let mut cache = HomoEdgeCache::default();
    let mut edge_map = RawEdgeMap::default();
    add_member_group(&mut edge_map, 1, 2);

    let r1 = cache.get_or_compute_forward(&edge_map, nnu(1), forward_edge());
    add_member_group(&mut edge_map, 2, 3);
    let r2 = cache.get_or_compute_forward(&edge_map, nnu(1), forward_edge());
    assert_eq!(r1, r2, "stale cache should be returned unchanged");
}

#[test]
fn edge_cache_test_presenter_group_scenario() {
    let mut cache = HomoEdgeCache::default();
    let mut edge_map = RawEdgeMap::default();
    add_member_group(&mut edge_map, 1, 3);
    add_member_group(&mut edge_map, 2, 3);
    add_member_group(&mut edge_map, 3, 4);
    add_member_group(&mut edge_map, 4, 5);
    add_member_group(&mut edge_map, 1, 6);
    add_member_group(&mut edge_map, 7, 4);

    let groups_of_team_a = cache.get_or_compute_forward(&edge_map, nnu(3), forward_edge());
    assert!(groups_of_team_a.contains(&nnu(4)), "Division C");
    assert!(groups_of_team_a.contains(&nnu(5)), "Corp D");
    assert!(!groups_of_team_a.contains(&nnu(1)), "not Alice");
    assert!(!groups_of_team_a.contains(&nnu(7)), "not Team B");

    let members_of_team_a = cache.get_or_compute_reverse(&edge_map, nnu(3), reverse_edge());
    assert!(members_of_team_a.contains(&nnu(1)), "Alice");
    assert!(members_of_team_a.contains(&nnu(2)), "Bob");
    assert!(!members_of_team_a.contains(&nnu(7)), "Team B not a member of Team A");
    assert!(!members_of_team_a.contains(&nnu(6)), "Club E not a member");

    let groups_of_alice = cache.get_or_compute_forward(&edge_map, nnu(1), forward_edge());
    assert!(groups_of_alice.contains(&nnu(3)), "Team A");
    assert!(groups_of_alice.contains(&nnu(6)), "Club E");
    assert!(groups_of_alice.contains(&nnu(4)), "Division C (via Team A)");
    assert!(groups_of_alice.contains(&nnu(5)), "Corp D (via Division C)");
    assert!(!groups_of_alice.contains(&nnu(7)), "Team B not a group of Alice");
}
