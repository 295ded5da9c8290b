//! Edit support: reversible edit commands and their laws, find-or-create
//! plans, candidate matching and fingerprints for entity builders,
//! tagged presenter parsing, the undo/redo history and the edit context.

pub mod builder;
pub mod history;
pub mod find;
pub mod fingerprint;
pub mod context;
pub mod command;
pub mod undo;
pub mod plan;
pub mod editor;
pub mod session;
pub mod editor_laws;
pub mod plan_laws;
