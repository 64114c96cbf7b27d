//! The copy-constraint manager: imported cells and pending equalities.
use vstd::prelude::*;
use crate::cell::{assigned_result, AssignedModel, AssignedValue, CellRef, RegionCell};
use crate::error::BridgeError;
use crate::field::FieldValue;
use crate::region::RegionAllocator;

verus! {

/// A cell of the hand-placed layer registered with the manager: where it
/// lives there, and the value it was imported with. The manager keeps only
/// this foreign key, never the source region itself.
#[derive(Clone, Copy, PartialEq, Eq, Structural, Debug)]
pub struct ExternalCell {
    pub source: RegionCell,
    pub value: FieldValue,
}

/// What the manager holds.
pub struct ManagerModel {
    /// Whether placeholder values may stand in for missing witnesses.
    pub keygen: bool,
    /// Imported cells; the alias `External { index }` names entry `index`.
    pub externals: Seq<ExternalCell>,
    /// Pairs asserted equal, in the order they were recorded.
    pub equalities: Seq<(CellRef, CellRef)>,
}

impl ManagerModel {
    /// The value behind the alias `External { index }`.
    pub open spec fn external_value(self, index: int) -> Option<FieldValue> {
        if 0 <= index < self.externals.len() {
            Some(self.externals[index].value)
        } else {
            None
        }
    }

    /// Registers `source`, whose committed value is `known`, if any: the new
    /// state and the imported value. A missing value is replaced by zero when
    /// keys are being generated, and is an error otherwise.
    pub open spec fn imported(self, source: RegionCell, known: Option<FieldValue>) -> (
        ManagerModel,
        Result<AssignedModel, BridgeError>,
    ) {
        let value = match known {
            Some(v) => v,
            None => FieldValue::spec_zero(),
        };
        if known is None && !self.keygen {
            (self, Err(BridgeError::UnresolvedExternalCell))
        } else {
            (
                ManagerModel {
                    externals: self.externals.push(ExternalCell { source, value }),
                    ..self
                },
                Ok(
                    AssignedModel {
                        value,
                        cell: Some(CellRef::External { index: self.externals.len() as usize }),
                    },
                ),
            )
        }
    }

    /// The state after the pair `(a, b)` is recorded.
    pub open spec fn equal_recorded(self, a: CellRef, b: CellRef) -> ManagerModel {
        ManagerModel { equalities: self.equalities.push((a, b)), ..self }
    }
}

/// Registry of cross-layer cell identity and pending equality obligations
/// for one synthesis pass. It is reached only through `&mut`, so imports and
/// recorded pairs are serialised, and its storage is never handed out.
pub struct CopyConstraintManager {
    keygen: bool,
    externals: Vec<ExternalCell>,
    equalities: Vec<(CellRef, CellRef)>,
}

impl View for CopyConstraintManager {
    type V = ManagerModel;

    closed spec fn view(&self) -> ManagerModel {
        ManagerModel { keygen: self.keygen, externals: self.externals@, equalities: self.equalities@ }
    }
}

impl CopyConstraintManager {
    /// An empty manager; `keygen` says whether a missing source value may be
    /// replaced by a placeholder.
    pub fn new(keygen: bool) -> (r: CopyConstraintManager)
        ensures
            r@ == (ManagerModel { keygen, externals: Seq::empty(), equalities: Seq::empty() }),
    {
        CopyConstraintManager { keygen, externals: Vec::new(), equalities: Vec::new() }
    }

    /// Imports the committed cell `source` of `region` and returns its alias.
    pub fn import(&mut self, region: &RegionAllocator, source: RegionCell) -> (r: Result<
        AssignedValue,
        BridgeError,
    >)
        requires
            region.wf(),
        ensures
            (final(self)@, assigned_result(r)) == old(self)@.imported(source, region.slot(source)),
            r matches Ok(a) ==> (a@.cell matches Some(CellRef::External { index })
                && final(self)@.external_value(index as int) == Some(a@.value)),
    {
        let known = region.value_at(source);
        let value = match known {
            Some(v) => v,
            None => {
                if !self.keygen {
                    return Err(BridgeError::UnresolvedExternalCell);
                }
                FieldValue::zero()
            },
        };
        let index = self.externals.len();
        self.externals.push(ExternalCell { source, value });
        Ok(AssignedValue::placed(value, CellRef::External { index }))
    }

    /// Records that the cells `a` and `b` must hold equal values. Nothing is
    /// checked here: a mismatch surfaces in the satisfiability check.
    pub(crate) fn record_equal(&mut self, a: CellRef, b: CellRef)
        ensures
            final(self)@ == old(self)@.equal_recorded(a, b),
    {
        self.equalities.push((a, b));
    }

    /// The value behind the alias `External { index }`.
    pub fn external_value(&self, index: usize) -> (r: Option<FieldValue>)
        ensures
            r == self@.external_value(index as int),
    {
        if index < self.externals.len() {
            Some(self.externals[index].value)
        } else {
            None
        }
    }

    /// Number of imported cells.
    pub fn num_externals(&self) -> (r: usize)
        ensures
            r == self@.externals.len(),
    {
        self.externals.len()
    }

    /// Number of recorded equality pairs.
    pub fn num_equalities(&self) -> (r: usize)
        ensures
            r == self@.equalities.len(),
    {
        self.equalities.len()
    }

    /// The recorded pair at position `i`.
    pub fn equality(&self, i: usize) -> (r: (CellRef, CellRef))
        requires
            i < self@.equalities.len(),
        ensures
            r == self@.equalities[i as int],
    {
        self.equalities[i]
    }

    /// Whether placeholders may stand in for missing source values.
    pub fn is_keygen(&self) -> (r: bool)
        ensures
            r == self@.keygen,
    {
        self.keygen
    }
}

} // verus!
