//! Edge system: half-edge descriptors, full edges, the bidirectional edge
//! map, and the transitive edge cache.

pub mod descriptor;
pub mod id;
pub mod map;
pub mod laws;
pub mod cache;
