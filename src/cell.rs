//! Cell references and single-assignment values.
use vstd::prelude::*;
use crate::error::BridgeError;
use crate::field::FieldValue;

verus! {

/// A slot of the phased builder: a virtual offset in the region of one phase,
/// or the alias that the copy-constraint manager issued for an imported cell.
#[derive(Clone, Copy, PartialEq, Eq, Structural, Debug)]
pub enum CellRef {
    Advice { phase: usize, offset: usize },
    External { index: usize },
}

/// A slot of the hand-placed layer: a column and a row of its region.
#[derive(Clone, Copy, PartialEq, Eq, Structural, Debug)]
pub struct RegionCell {
    pub column: usize,
    pub row: usize,
}

/// What an assigned value holds: its element and, once placed, its cell.
pub struct AssignedModel {
    pub value: FieldValue,
    pub cell: Option<CellRef>,
}

/// A field element together with the cell it is bound to, if any. The
/// element never changes; the cell goes at most once from absent to present,
/// and only through the builder.
#[derive(Debug)]
pub struct AssignedValue {
    value: FieldValue,
    cell: Option<CellRef>,
}

impl View for AssignedValue {
    type V = AssignedModel;

    closed spec fn view(&self) -> AssignedModel {
        AssignedModel { value: self.value, cell: self.cell }
    }
}

/// A result that carries an assigned value, seen through its model.
pub open spec fn assigned_result(r: Result<AssignedValue, BridgeError>) -> Result<
    AssignedModel,
    BridgeError,
> {
    match r {
        Ok(a) => Ok(a@),
        Err(e) => Err(e),
    }
}

/// Stages a private input: a value that is not yet bound to any cell.
pub fn load_witness(value: FieldValue) -> (r: AssignedValue)
    ensures
        r@ == (AssignedModel { value, cell: None }),
{
    AssignedValue { value, cell: None }
}

impl AssignedValue {
    /// The element.
    pub fn value(&self) -> (r: FieldValue)
        ensures
            r == self@.value,
    {
        self.value
    }

    /// The cell, or `None` for a value that is still virtual.
    pub fn cell(&self) -> (r: Option<CellRef>)
        ensures
            r == self@.cell,
    {
        self.cell
    }

    /// A value already bound to `cell`.
    pub(crate) fn placed(value: FieldValue, cell: CellRef) -> (r: AssignedValue)
        ensures
            r@ == (AssignedModel { value, cell: Some(cell) }),
    {
        AssignedValue { value, cell: Some(cell) }
    }

    /// Binds a virtual value to `cell`.
    pub(crate) fn bind(&mut self, cell: CellRef)
        requires
            old(self)@.cell is None,
        ensures
            final(self)@ == (AssignedModel { value: old(self)@.value, cell: Some(cell) }),
    {
        self.cell = Some(cell);
    }
}

} // verus!
