use schedule_core::extra_field::{find_extra_descriptor, ExtraFieldDescriptor};

const EXTRAS: &[ExtraFieldDescriptor] = &[
    ExtraFieldDescriptor {
        name: "tech_notes",
        display: "Tech Notes",
        description: "Technical setup notes for this panel.",
        aliases: &["Tech Notes", "TechNotes"],
        entity_type: "panel",
    },
    ExtraFieldDescriptor {
        name: "source_row",
        display: "Source Row",
        description: "Row the entity came from.",
        aliases: &[],
        entity_type: "",
    },
];

#[test]
fn test_find_extra_descriptor_no_match() {
    assert!(find_extra_descriptor(EXTRAS, "nonexistent_column_xyz", "panel").is_none());
}

#[test]
fn find_extra_descriptor_matches_name_and_alias_ignoring_case() {
    assert_eq!(find_extra_descriptor(EXTRAS, "TECH_NOTES", "panel").unwrap().name, "tech_notes");
    assert_eq!(find_extra_descriptor(EXTRAS, "technotes", "panel").unwrap().name, "tech_notes");
    assert_eq!(find_extra_descriptor(EXTRAS, "tech notes", "panel").unwrap().name, "tech_notes");
}

#[test]
fn find_extra_descriptor_respects_entity_type() {
    assert!(find_extra_descriptor(EXTRAS, "tech_notes", "presenter").is_none());
    assert_eq!(find_extra_descriptor(EXTRAS, "Source_Row", "presenter").unwrap().name, "source_row");
    assert!(find_extra_descriptor(&[], "tech_notes", "panel").is_none());
}

#[test]
fn find_extra_descriptor_lowercases_unicode() {
    const UNI: &[ExtraFieldDescriptor] = &[ExtraFieldDescriptor {
        name: "ÉTAGE",
        display: "Étage",
        description: "Floor.",
        aliases: &[],
        entity_type: "",
    }];
    assert!(find_extra_descriptor(UNI, "étage", "panel").is_some());
}
