//! Misuse of the builder that aborts a synthesis pass.
use vstd::prelude::*;

verus! {

/// Why an operation of a synthesis pass was refused. Each of these is a
/// caller error or a missing source value: the pass that met it is discarded.
/// An unsatisfied constraint is not among them: it is data, reported by
/// the satisfiability check.
#[derive(Clone, Copy, PartialEq, Eq, Structural, Debug)]
pub enum BridgeError {
    /// An imported cell has no committed value and no placeholder may stand in.
    UnresolvedExternalCell,
    /// A value or slot that already has its cell was assigned again.
    AlreadyAssigned,
    /// Work was issued into a phase that is already closed.
    StalePhaseReference,
    /// A phase was opened, closed or used out of order, or the pass is over.
    PhaseOrderViolation,
}

} // verus!
