use schedule_core::edge::descriptor::{EdgeKind, HalfEdgeDescriptor};
use schedule_core::edge::id::{FullEdge, FullEdgeProxy};
use schedule_core::field::{CommonFieldData, FieldKey};
use schedule_core::value::{FieldCardinality, FieldType, FieldTypeItem};

fn half(entity: &'static str, name: &'static str, kind: EdgeKind) -> HalfEdgeDescriptor {
    HalfEdgeDescriptor {
        data: CommonFieldData {
            name,
            display: name,
            description: "",
            aliases: &[],
            field_type: FieldType(FieldCardinality::Optional, FieldTypeItem::EntityIdentifier("panel_type")),
            example: "",
            order: 0,
        },
        edge_kind: kind,
        entity_name: entity,
    }
}

fn edge_panel_type() -> FullEdge {
    let near = half("panel", "panel_type", EdgeKind::Owner {
        target_field: FieldKey { entity_type: "panel_type", name: "panels" },
        exclusive_with: None,
    });
    let far = half("panel_type", "panels", EdgeKind::Target { source_fields: &[] });
    near.edge_to(&far)
}

fn edge_presenter_groups() -> FullEdge {
    let near = half("presenter", "groups", EdgeKind::Owner {
        target_field: FieldKey { entity_type: "presenter", name: "members" },
        exclusive_with: None,
    });
    let far = half("presenter", "members", EdgeKind::Target { source_fields: &[] });
    near.edge_to(&far)
}

#[test]
fn test_full_edge_proxy_from() {
    let edge = edge_panel_type();
    let proxy = FullEdgeProxy::from_edge(&edge);

    assert_eq!(proxy.owner_field, "panel:panel_type");
    assert!(proxy.near_is_owner);
}

#[test]
fn test_full_edge_proxy_from_flipped() {
    let canonical = edge_panel_type();
    let flipped = canonical.flip();
    let proxy = FullEdgeProxy::from_edge(&flipped);

    assert_eq!(proxy.owner_field, "panel:panel_type");
    assert!(!proxy.near_is_owner);
}

#[test]
fn test_full_edge_proxy_try_from() {
    let edge = edge_panel_type();
    let registry = [edge_presenter_groups(), edge_panel_type()];
    let proxy = FullEdgeProxy::from_edge(&edge);

    let reconstructed =
        FullEdge::try_from_proxy(&proxy, &registry).expect("Failed to reconstruct FullEdge");

    assert_eq!(edge, reconstructed);
}

#[test]
fn test_full_edge_proxy_try_from_flipped() {
    let canonical = edge_panel_type();
    let registry = [edge_presenter_groups(), edge_panel_type()];
    let flipped = canonical.flip();
    let proxy = FullEdgeProxy::from_edge(&flipped);

    let reconstructed = FullEdge::try_from_proxy(&proxy, &registry)
        .expect("Failed to reconstruct flipped FullEdge");

    assert_eq!(flipped, reconstructed);
}

#[test]
fn unknown_owner_edge_is_an_error() {
    let proxy = FullEdgeProxy { owner_field: "timeline:panels".to_string(), near_is_owner: true };
    let err = FullEdge::try_from_proxy(&proxy, &[edge_panel_type()]).unwrap_err();
    assert_eq!(err, "Unknown owner edge: timeline:panels");
}

#[test]
fn field_key_text() {
    let edge = edge_presenter_groups();
    assert_eq!(edge.near.field_key(), "presenter:groups");
    assert_eq!(edge.far.field_key(), "presenter:members");
}
