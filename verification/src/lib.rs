//! Core data model of the convention schedule: entity identifiers and their
//! text form, field and edge descriptors, the per-entity field registry, the
//! bidirectional edge index and its transitive cache, CRDT edge ownership,
//! import matching, and the undo/redo history with its edit context.

pub mod text;
pub mod value;
pub mod ids;
pub mod id_text;
pub mod field;
pub mod edge;
pub mod edit;
pub mod edge_descriptor;
pub mod edge_crdt;
pub mod edge_cache;
pub mod lookup;
pub mod event_room;
pub mod extra_field;
pub mod field_set;
