use schedule_core::edge::descriptor::{EdgeKind, HalfEdgeDescriptor};
use schedule_core::field::{CommonFieldData, FieldKey};
use schedule_core::field_set::{
    FieldDescriptor, FieldOp, FieldRef, FieldSet, FieldSetError, ResolvedRef,
};
use schedule_core::value::{CrdtFieldType, FieldCardinality, FieldType, FieldTypeItem};

fn label_field() -> FieldDescriptor {
    FieldDescriptor {
        data: CommonFieldData {
            name: "label",
            display: "Label",
            description: "A text label.",
            aliases: &["tag", "name"],
            field_type: FieldType(FieldCardinality::Single, FieldTypeItem::String),
            example: "Hello World",
            order: 0,
        },
        crdt_type: CrdtFieldType::Scalar,
        required: true,
        readable: true,
        writable: true,
    }
}

fn count_field() -> FieldDescriptor {
    FieldDescriptor {
        data: CommonFieldData {
            name: "count",
            display: "Count",
            description: "An integer count.",
            aliases: &[],
            field_type: FieldType(FieldCardinality::Single, FieldTypeItem::Integer),
            example: "7",
            order: 100,
        },
        crdt_type: CrdtFieldType::Scalar,
        required: false,
        readable: true,
        writable: true,
    }
}

fn derived_field() -> FieldDescriptor {
    FieldDescriptor {
        data: CommonFieldData {
            name: "derived",
            display: "Derived",
            description: "Read-only derived value.",
            aliases: &[],
            field_type: FieldType(FieldCardinality::Single, FieldTypeItem::Integer),
            example: "42",
            order: 200,
        },
        crdt_type: CrdtFieldType::Derived,
        required: false,
        readable: true,
        writable: false,
    }
}

fn members_edge() -> HalfEdgeDescriptor {
    HalfEdgeDescriptor {
        data: CommonFieldData {
            name: "members",
            display: "Members",
            description: "Members of this group.",
            aliases: &["member"],
            field_type: FieldType(FieldCardinality::List, FieldTypeItem::EntityIdentifier("mock")),
            example: "[]",
            order: 300,
        },
        edge_kind: EdgeKind::Target { source_fields: &[] },
        entity_name: "mock",
    }
}

fn make_field_set() -> FieldSet {
    FieldSet::new(&[label_field(), count_field(), derived_field()])
}

#[test]
fn set_test_get_by_name_canonical() {
    let fs = make_field_set();
    assert!(fs.get_by_name("label").is_some());
    assert!(fs.get_by_name("count").is_some());
}

#[test]
fn set_test_get_by_name_alias() {
    let fs = make_field_set();
    assert!(fs.get_by_name("tag").is_some());
    assert!(fs.get_by_name("name").is_some());
    assert_eq!(fs.get_by_name("tag").unwrap().name(), fs.get_by_name("label").unwrap().name());
}

#[test]
fn set_test_get_by_name_unknown_returns_none() {
    let fs = make_field_set();
    assert!(fs.get_by_name("nonexistent").is_none());
}

#[test]
fn set_test_required_fields() {
    let fs = make_field_set();
    let names: Vec<_> = fs.required_fields().iter().map(|d| d.name()).collect();
    assert_eq!(names, vec!["label"]);
}

#[test]
fn set_test_readable_fields() {
    let fs = make_field_set();
    let names: Vec<_> = fs.readable_fields().iter().map(|d| d.name()).collect();
    assert!(names.contains(&"label"));
    assert!(names.contains(&"count"));
    assert!(names.contains(&"derived"));
}

#[test]
fn set_test_writable_fields() {
    let fs = make_field_set();
    let names: Vec<_> = fs.writable_fields().iter().map(|d| d.name()).collect();
    assert!(names.contains(&"label"));
    assert!(names.contains(&"count"));
    assert!(!names.contains(&"derived"));
}

#[test]
fn set_test_fields_order() {
    let fs = make_field_set();
    let names: Vec<_> = fs.fields().iter().map(|d| d.name()).collect();
    assert_eq!(names, vec!["label", "count", "derived"]);
}

#[test]
fn set_test_crdt_fields_excludes_derived() {
    let fs = make_field_set();
    let crdt = fs.crdt_fields();
    let names: Vec<_> = crdt.iter().map(|(n, _)| *n).collect();
    assert!(names.contains(&"label"));
    assert!(names.contains(&"count"));
    assert!(!names.contains(&"derived"));
}

#[test]
fn set_test_crdt_fields_type() {
    let fs = make_field_set();
    let crdt = fs.crdt_fields();
    for (name, ct) in &crdt {
        assert!(
            matches!(ct, CrdtFieldType::Scalar | CrdtFieldType::Text | CrdtFieldType::List),
            "field {name} should only be Scalar, Text, or List; got {ct:?}"
        );
    }
}

#[test]
fn set_test_empty_field_set() {
    let fs = FieldSet::new(&[]);
    assert!(fs.get_by_name("anything").is_none());
    assert_eq!(fs.fields().len(), 0);
    assert_eq!(fs.required_fields().len(), 0);
    assert_eq!(fs.crdt_fields().len(), 0);
}

// ── Further cases ───────────────────────────────────────────────────────────

#[test]
fn half_edges_are_found_by_name_and_alias() {
    let fs = FieldSet::from_slices(&[label_field()], &[members_edge()]);
    assert_eq!(fs.half_edges().len(), 1);
    match fs.get_by_name("member") {
        Some(ResolvedRef::HalfEdge(e)) => assert_eq!(e.name(), "members"),
        _ => panic!("alias should find the half-edge"),
    }
    assert!(matches!(fs.get_by_name("label"), Some(ResolvedRef::Field(_))));
}

#[test]
fn later_registration_wins_a_shared_name() {
    let mut clash = count_field();
    clash.data.aliases = &["label"];
    let fs = FieldSet::new(&[label_field(), clash]);
    assert_eq!(fs.get_by_name("label").unwrap().name(), "count");
    assert_eq!(fs.get_by_name("tag").unwrap().name(), "label");
}

#[test]
fn resolve_add_and_remove_prefixes() {
    let fs = FieldSet::from_slices(&[label_field()], &[members_edge()]);
    let (r, op) = fs.resolve(&FieldRef::Name("add_members"), FieldOp::Replace).unwrap();
    assert_eq!(r.name(), "members");
    assert_eq!(op, FieldOp::Add);
    let (r, op) = fs.resolve(&FieldRef::Name("remove_member"), FieldOp::Replace).unwrap();
    assert_eq!(r.name(), "members");
    assert_eq!(op, FieldOp::Remove);
    assert!(fs.resolve(&FieldRef::Name("remove_members"), FieldOp::Add).is_err());
    assert!(fs.resolve(&FieldRef::Name("add_members"), FieldOp::Remove).is_err());
    let (_, op) = fs.resolve(&FieldRef::Name("label"), FieldOp::Remove).unwrap();
    assert_eq!(op, FieldOp::Remove);
    match fs.resolve(&FieldRef::Name("nofield"), FieldOp::Replace) {
        Err(FieldSetError::UnknownField(s)) => assert_eq!(s, "nofield"),
        _ => panic!("expected an unknown field"),
    }
}

#[test]
fn resolve_batch_rejects_duplicate_set() {
    let fs = make_field_set();
    let batch = [
        (FieldRef::Name("label"), FieldOp::Replace),
        (FieldRef::Field(label_field()), FieldOp::Replace),
    ];
    assert!(matches!(fs.resolve_batch(&batch), Err(FieldSetError::DuplicateField("label"))));
    let via_alias = [
        (FieldRef::Name("tag"), FieldOp::Replace),
        (FieldRef::Name("label"), FieldOp::Replace),
    ];
    assert!(matches!(fs.resolve_batch(&via_alias), Err(FieldSetError::DuplicateField("label"))));
}

#[test]
fn resolve_batch_allows_repeated_adds_and_removes() {
    let fs = FieldSet::from_slices(&[label_field()], &[members_edge()]);
    let batch = [
        (FieldRef::Name("members"), FieldOp::Add),
        (FieldRef::Name("remove_members"), FieldOp::Replace),
        (FieldRef::HalfEdge(members_edge()), FieldOp::Add),
        (FieldRef::Name("label"), FieldOp::Replace),
    ];
    let plan = fs.resolve_batch(&batch).unwrap();
    let ops: Vec<FieldOp> = plan.iter().map(|(_, op)| *op).collect();
    assert_eq!(ops, vec![FieldOp::Add, FieldOp::Remove, FieldOp::Add, FieldOp::Replace]);
    let set_after_add = [
        (FieldRef::Name("members"), FieldOp::Add),
        (FieldRef::Name("members"), FieldOp::Replace),
    ];
    assert!(matches!(fs.resolve_batch(&set_after_add), Err(FieldSetError::DuplicateField("members"))));
}

#[test]
fn resolve_batch_reports_unknown_name_and_accepts_empty() {
    let fs = make_field_set();
    assert!(fs.resolve_batch(&[]).unwrap().is_empty());
    let batch = [(FieldRef::Name("count"), FieldOp::Replace), (FieldRef::Name("nofield"), FieldOp::Replace)];
    match fs.resolve_batch(&batch) {
        Err(FieldSetError::UnknownField(s)) => assert_eq!(s, "nofield"),
        _ => panic!("expected an unknown field"),
    }
}

#[test]
fn resolved_field_type_and_key() {
    let fs = FieldSet::from_slices(&[label_field()], &[members_edge()]);
    let r = fs.get_by_name("members").unwrap();
    assert_eq!(r.field_type(), members_edge().data.field_type);
    if let ResolvedRef::HalfEdge(e) = r {
        assert!(e.key().same_as(&FieldKey { entity_type: "mock", name: "members" }));
    }
}
