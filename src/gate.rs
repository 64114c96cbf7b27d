//! Arithmetic chip: places each result in a new cell and records the relation.
use vstd::prelude::*;
use crate::cell::{assigned_result, AssignedValue, CellRef};
use crate::error::BridgeError;
use crate::synth::{AddGate, PhaseSynthesizer};

verus! {

/// Stateless arithmetic gates over the cells of a synthesis pass.
#[derive(Clone, Copy, Debug)]
pub struct GateChip {}

impl GateChip {
    pub fn new() -> (r: GateChip) {
        GateChip {  }
    }

    /// Issues `a + b` in the open phase `phase`: the sum is placed in a new
    /// cell of that phase and `out = a + b` is recorded over the three cells.
    /// A closed phase is refused with `StalePhaseReference`, a phase that is
    /// not yet open with `PhaseOrderViolation`.
    pub fn add(
        &self,
        synth: &mut PhaseSynthesizer,
        phase: usize,
        a: &AssignedValue,
        b: &AssignedValue,
    ) -> (r: Result<AssignedValue, BridgeError>)
        requires
            old(synth).wf(),
            old(synth)@.holds(a@),
            old(synth)@.holds(b@),
        ensures
            final(synth).wf(),
            (final(synth)@, assigned_result(r)) == old(synth)@.gate_added(phase as int, a@, b@),
            r matches Ok(c) ==> final(synth)@.holds(c@),
    {
        if let Some(e) = synth.phase_check(phase) {
            return Err(e);
        }
        let sum = a.value().add(&b.value());
        let (lhs, rhs) = match (a.cell(), b.cell()) {
            (Some(x), Some(y)) => (x, y),
            _ => (CellRef::External { index: 0 }, CellRef::External { index: 0 }),
        };
        let out = synth.push_value(phase, sum);
        synth.push_gate(AddGate { phase, lhs, rhs, out });
        Ok(AssignedValue::placed(sum, out))
    }
}

} // verus!
