//! Resolves the three parameters of a snapshot copy (a database resource, an
//! encryption key and a snapshot) from explicit values or from the candidates
//! that the database and key services list, chosen by an operator.

pub mod keys;
pub mod resources;
pub mod selection;
pub mod resolution;

use vstd::prelude::*;

verus! {

/// Why a resolution could not go on.
#[derive(Debug, Clone, Copy, PartialEq, Eq, Structural)]
pub enum ResolveError {
    /// A record from a service lacks a field that the resolution needs.
    MalformedRecord,
    /// There is nothing to choose from.
    NoCandidates,
    /// The answer names none of the offered choices.
    UnknownChoice,
    /// The event does not fit the stage the resolution is in.
    UnexpectedEvent,
}

} // verus!
