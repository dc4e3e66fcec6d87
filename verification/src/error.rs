//! Failure kinds of the planner.
//!
//! Every failure is fatal for the run: no partial plan is ever returned.

use vstd::prelude::*;

verus! {

/// Why a run failed.
#[derive(Debug, Clone, PartialEq, Eq)]
pub enum Error {
    /// The recipe graph is not a DAG; carries the identifier of the first
    /// item, in catalog order, left unresolved when the ordering stalled
    /// (such an item depends, directly or transitively, on a cycle).
    Cycle(String),
    /// A module was added beyond a facility's capacity, or to a facility that
    /// takes no modules; carries a description of the rejected change.
    Configuration(String),
    /// A dependency encoding could not be parsed; carries the offending raw
    /// fragment.
    MalformedInput(String),
    /// A resolved facility has speed zero, so the number of facilities for
    /// the named item is undefined.
    ZeroSpeed(String),
    /// An exact rate grew past what the rational representation can hold.
    ValueOverflow,
}

} // verus!
