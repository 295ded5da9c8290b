//! Outcomes of resolving a user-entered string to an entity.

use vstd::prelude::*;

verus! {

/// How much of the full input string a match consumed.
#[derive(Debug, Clone, Copy, PartialEq, Eq, Structural)]
pub enum MatchConsumed {
    /// The match used the whole input.
    Full,
    /// The match used only part of the input (e.g. one item of a list).
    Partial,
}

/// Whether an entity may be created from a (partial) input string.
#[derive(Debug, Clone, Copy, PartialEq, Eq, Structural)]
pub enum CanCreate {
    /// No entity may be created.
    No,
    /// An entity may be created; records how much of the input was used.
    Yes(MatchConsumed),
}

} // verus!
