//! The phase synthesizer: ordered phases, their cells and gates, the
//! copy-constraint manager, and the check of every recorded constraint.
use vstd::prelude::*;
use crate::cell::{assigned_result, AssignedModel, AssignedValue, CellRef, RegionCell};
use crate::error::BridgeError;
use crate::field::FieldValue;
use crate::manager::{CopyConstraintManager, ManagerModel};
use crate::region::RegionAllocator;

verus! {

/// The relation `out = lhs + rhs`, issued in `phase`.
#[derive(Clone, Copy, PartialEq, Eq, Structural, Debug)]
pub struct AddGate {
    pub phase: usize,
    pub lhs: CellRef,
    pub rhs: CellRef,
    pub out: CellRef,
}

/// A recorded constraint that the cells' values do not meet.
#[derive(Clone, Copy, PartialEq, Eq, Structural, Debug)]
pub enum Violation {
    Gate { gate: AddGate },
    Equality { lhs: CellRef, rhs: CellRef },
}

/// What a synthesis pass holds.
pub struct SynthModel {
    /// The values placed in each phase opened so far, by offset.
    pub phases: Seq<Seq<FieldValue>>,
    /// Whether the last phase is still open.
    pub open: bool,
    /// Whether the pass is finalized.
    pub finalized: bool,
    /// Gates in the order they were issued.
    pub gates: Seq<AddGate>,
    /// The copy-constraint manager.
    pub manager: ManagerModel,
}

/// Whether `c` may feed a gate of `phase`: its phase is not later.
pub open spec fn within(c: CellRef, phase: int) -> bool {
    match c {
        CellRef::Advice { phase: p, .. } => p <= phase,
        CellRef::External { .. } => true,
    }
}

/// The cell of a placed value.
pub open spec fn cell_of(a: AssignedModel) -> CellRef {
    match a.cell {
        Some(c) => c,
        None => CellRef::External { index: 0 },
    }
}

impl SynthModel {
    /// A pass with no phase and an empty manager.
    pub open spec fn initial(keygen: bool) -> SynthModel {
        SynthModel {
            phases: Seq::empty(),
            open: false,
            finalized: false,
            gates: Seq::empty(),
            manager: ManagerModel { keygen, externals: Seq::empty(), equalities: Seq::empty() },
        }
    }

    pub open spec fn wf(self) -> bool {
        &&& self.open ==> self.phases.len() > 0
        &&& self.finalized ==> !self.open
        &&& forall|i: int|
            0 <= i < self.gates.len() ==> {
                let g = #[trigger] self.gates[i];
                &&& g.phase < self.phases.len()
                &&& within(g.lhs, g.phase as int)
                &&& within(g.rhs, g.phase as int)
                &&& within(g.out, g.phase as int)
            }
        &&& forall|i: int|
            0 <= i < self.manager.equalities.len() ==> self.pair_issued(
                #[trigger] self.manager.equalities[i],
            )
    }

    /// Whether both cells of `p` were issued in this pass.
    pub open spec fn pair_issued(self, p: (CellRef, CellRef)) -> bool {
        self.value_of(p.0) is Some && self.value_of(p.1) is Some
    }

    /// Whether `t` only adds to `self`: every phase's cells and the import
    /// table are kept as they were, and at most grow.
    pub open spec fn extended_by(self, t: SynthModel) -> bool {
        &&& self.phases.len() <= t.phases.len()
        &&& forall|p: int|
            0 <= p < self.phases.len() ==> (#[trigger] t.phases[p]).len() >= self.phases[p].len()
                && t.phases[p].subrange(0, self.phases[p].len() as int) == self.phases[p]
        &&& t.manager.externals.len() >= self.manager.externals.len()
        &&& t.manager.externals.subrange(0, self.manager.externals.len() as int)
            == self.manager.externals
    }

    /// A pass that only grows keeps the value of every issued cell, and
    /// every pair of issued cells stays issued.
    pub proof fn lemma_extended_keeps_values(self, t: SynthModel)
        requires
            self.extended_by(t),
        ensures
            forall|c: CellRef| #[trigger]
                self.value_of(c) is Some ==> t.value_of(c) == self.value_of(c),
            forall|p: (CellRef, CellRef)| #[trigger]
                self.pair_issued(p) ==> t.pair_issued(p),
    {
        assert forall|c: CellRef| #[trigger] self.value_of(c) is Some implies t.value_of(c)
            == self.value_of(c) by {
            match c {
                CellRef::Advice { phase, offset } => {
                    let old_cells = self.phases[phase as int];
                    assert(t.phases[phase as int].subrange(0, old_cells.len() as int)[offset as int]
                        == t.phases[phase as int][offset as int]);
                },
                CellRef::External { index } => {
                    assert(t.manager.externals.subrange(
                        0,
                        self.manager.externals.len() as int,
                    )[index as int] == t.manager.externals[index as int]);
                },
            }
        }
        assert forall|p: (CellRef, CellRef)| #[trigger] self.pair_issued(p) implies t.pair_issued(
            p,
        ) by {
            assert(self.value_of(p.0) is Some);
            assert(self.value_of(p.1) is Some);
        }
    }

    /// A pass whose cells and imports are unchanged, or to which a phase,
    /// a value in one phase, or an import was added, extends the pass it came from.
    pub proof fn lemma_extended_by(self, t: SynthModel)
        requires
            t.phases == self.phases || t.phases == self.phases.push(Seq::empty()) || exists|
                q: int,
                v: FieldValue,
            | 0 <= q < self.phases.len() && t.phases == self.phases.update(q, self.phases[q].push(v)),
            t.manager.externals == self.manager.externals || exists|e: crate::manager::ExternalCell|
                t.manager.externals == self.manager.externals.push(e),
        ensures
            self.extended_by(t),
    {
        assert forall|p: int| 0 <= p < self.phases.len() implies (#[trigger] t.phases[p]).len()
            >= self.phases[p].len() && t.phases[p].subrange(0, self.phases[p].len() as int)
            == self.phases[p] by {
            assert(t.phases[p].subrange(0, self.phases[p].len() as int) =~= self.phases[p]);
        }
        assert(t.manager.externals.subrange(0, self.manager.externals.len() as int)
            =~= self.manager.externals);
    }

    /// Whether `phase` is the phase now open.
    pub open spec fn is_open_phase(self, phase: int) -> bool {
        self.open && phase + 1 == self.phases.len()
    }

    /// Why work cannot be issued into `phase`, if it cannot.
    pub open spec fn phase_check(self, phase: int) -> Option<BridgeError> {
        if self.is_open_phase(phase) {
            None
        } else if 0 <= phase < self.phases.len() {
            Some(BridgeError::StalePhaseReference)
        } else {
            Some(BridgeError::PhaseOrderViolation)
        }
    }

    /// The value held by the issued cell `c`; `None` when `c` was not issued.
    pub open spec fn value_of(self, c: CellRef) -> Option<FieldValue> {
        match c {
            CellRef::Advice { phase, offset } => if phase < self.phases.len() && offset
                < self.phases[phase as int].len() {
                Some(self.phases[phase as int][offset as int])
            } else {
                None
            },
            CellRef::External { index } => self.manager.external_value(index as int),
        }
    }

    /// Whether `a` is bound to a cell of this pass that holds its value.
    pub open spec fn holds(self, a: AssignedModel) -> bool {
        match a.cell {
            Some(c) => self.value_of(c) == Some(a.value),
            None => false,
        }
    }

    /// The cell that the next value placed in `phase` receives.
    pub open spec fn next_cell(self, phase: int) -> CellRef {
        CellRef::Advice { phase: phase as usize, offset: self.phases[phase].len() as usize }
    }

    /// The state after `v` is placed in `phase`.
    pub open spec fn issue(self, phase: int, v: FieldValue) -> SynthModel {
        SynthModel { phases: self.phases.update(phase, self.phases[phase].push(v)), ..self }
    }

    /// Opening `phase`: allowed only for the phase after the last closed one.
    pub open spec fn opened(self, phase: int) -> (SynthModel, Result<(), BridgeError>) {
        if !self.open && !self.finalized && phase == self.phases.len() {
            (SynthModel { phases: self.phases.push(Seq::empty()), open: true, ..self }, Ok(()))
        } else {
            (self, Err(BridgeError::PhaseOrderViolation))
        }
    }

    /// Closing the open phase, after which nothing more is placed in it.
    pub open spec fn closed(self) -> (SynthModel, Result<(), BridgeError>) {
        if self.open {
            (SynthModel { open: false, ..self }, Ok(()))
        } else {
            (self, Err(BridgeError::PhaseOrderViolation))
        }
    }

    /// Finalizing the pass: every phase must be closed.
    pub open spec fn finished(self) -> (SynthModel, Result<(), BridgeError>) {
        if !self.open && !self.finalized {
            (SynthModel { finalized: true, ..self }, Ok(()))
        } else {
            (self, Err(BridgeError::PhaseOrderViolation))
        }
    }

    /// Binding the value `v` to a new cell of `phase`: the new state, the
    /// value afterwards, and the cell.
    pub open spec fn assigned(self, phase: int, v: AssignedModel) -> (
        SynthModel,
        AssignedModel,
        Result<CellRef, BridgeError>,
    ) {
        if v.cell is Some {
            (self, v, Err(BridgeError::AlreadyAssigned))
        } else if let Some(e) = self.phase_check(phase) {
            (self, v, Err(e))
        } else {
            let c = self.next_cell(phase);
            (self.issue(phase, v.value), AssignedModel { value: v.value, cell: Some(c) }, Ok(c))
        }
    }

    /// Importing `source`, whose committed value is `known`, if any.
    pub open spec fn import_done(self, source: RegionCell, known: Option<FieldValue>) -> (
        SynthModel,
        Result<AssignedModel, BridgeError>,
    ) {
        if self.finalized {
            (self, Err(BridgeError::PhaseOrderViolation))
        } else {
            let (m, r) = self.manager.imported(source, known);
            (SynthModel { manager: m, ..self }, r)
        }
    }

    /// Recording that the cells of `a` and `b` must hold equal values.
    pub open spec fn equality_done(self, a: AssignedModel, b: AssignedModel) -> (
        SynthModel,
        Result<(), BridgeError>,
    ) {
        if self.finalized {
            (self, Err(BridgeError::PhaseOrderViolation))
        } else {
            (
                SynthModel {
                    manager: self.manager.equal_recorded(cell_of(a), cell_of(b)),
                    ..self
                },
                Ok(()),
            )
        }
    }

    /// Issuing `a + b` in `phase`: the sum goes to a new cell of that phase
    /// and the relation is recorded.
    pub open spec fn gate_added(self, phase: int, a: AssignedModel, b: AssignedModel) -> (
        SynthModel,
        Result<AssignedModel, BridgeError>,
    ) {
        if let Some(e) = self.phase_check(phase) {
            (self, Err(e))
        } else {
            let sum = a.value.spec_add(b.value);
            let c = self.next_cell(phase);
            let g = AddGate { phase: phase as usize, lhs: cell_of(a), rhs: cell_of(b), out: c };
            (
                SynthModel { gates: self.issue(phase, sum).gates.push(g), ..self.issue(phase, sum) },
                Ok(AssignedModel { value: sum, cell: Some(c) }),
            )
        }
    }

    /// Whether `g` holds: its three cells meet `out = lhs + rhs`.
    pub open spec fn gate_holds(self, g: AddGate) -> bool {
        match (self.value_of(g.lhs), self.value_of(g.rhs), self.value_of(g.out)) {
            (Some(x), Some(y), Some(z)) => z == x.spec_add(y),
            _ => false,
        }
    }

    /// Whether both cells of a pair are issued and hold equal values.
    pub open spec fn pair_holds(self, p: (CellRef, CellRef)) -> bool {
        self.value_of(p.0) is Some && self.value_of(p.0) == self.value_of(p.1)
    }

    /// The gates of `gs` that do not hold, in order.
    pub open spec fn gate_violations(self, gs: Seq<AddGate>) -> Seq<Violation>
        decreases gs.len(),
    {
        if gs.len() == 0 {
            Seq::empty()
        } else {
            let rest = self.gate_violations(gs.drop_last());
            if self.gate_holds(gs.last()) {
                rest
            } else {
                rest.push(Violation::Gate { gate: gs.last() })
            }
        }
    }

    /// The pairs of `ps` that do not hold, in order.
    pub open spec fn equality_violations(self, ps: Seq<(CellRef, CellRef)>) -> Seq<Violation>
        decreases ps.len(),
    {
        if ps.len() == 0 {
            Seq::empty()
        } else {
            let rest = self.equality_violations(ps.drop_last());
            if self.pair_holds(ps.last()) {
                rest
            } else {
                rest.push(Violation::Equality { lhs: ps.last().0, rhs: ps.last().1 })
            }
        }
    }

    /// Every recorded constraint that does not hold: gates first, then
    /// equality pairs, each in the order they were recorded.
    pub open spec fn violations(self) -> Seq<Violation> {
        self.gate_violations(self.gates) + self.equality_violations(self.manager.equalities)
    }
}

/// The high-level builder of one synthesis pass. Phases are opened and
/// closed in ascending order; values are placed only in the open phase; the
/// manager records imports and equalities; nothing is checked until asked.
pub struct PhaseSynthesizer {
    done: Vec<Vec<FieldValue>>,
    current: Vec<FieldValue>,
    open: bool,
    finalized: bool,
    gates: Vec<AddGate>,
    manager: CopyConstraintManager,
}

impl View for PhaseSynthesizer {
    type V = SynthModel;

    closed spec fn view(&self) -> SynthModel {
        let closed = self.done@.map_values(|p: Vec<FieldValue>| p@);
        SynthModel {
            phases: if self.open {
                closed.push(self.current@)
            } else {
                closed
            },
            open: self.open,
            finalized: self.finalized,
            gates: self.gates@,
            manager: self.manager@,
        }
    }
}

impl PhaseSynthesizer {
    /// The invariant of every pass that this type's operations keep.
    pub closed spec fn wf(&self) -> bool {
        &&& self@.wf()
        &&& !self.open ==> self.current@.len() == 0
    }

    /// A pass with no phase yet; `keygen` lets placeholders stand in for
    /// missing source values.
    pub fn new(keygen: bool) -> (r: PhaseSynthesizer)
        ensures
            r@ == SynthModel::initial(keygen),
            r.wf(),
    {
        let r = PhaseSynthesizer {
            done: Vec::new(),
            current: Vec::new(),
            open: false,
            finalized: false,
            gates: Vec::new(),
            manager: CopyConstraintManager::new(keygen),
        };
        assert(r@.phases =~= Seq::empty());
        r
    }

    /// Opens `phase`, which must follow the last closed phase.
    pub fn open_phase(&mut self, phase: usize) -> (r: Result<(), BridgeError>)
        requires
            old(self).wf(),
        ensures
            final(self).wf(),
            (final(self)@, r) == old(self)@.opened(phase as int),
    {
        if self.open || self.finalized || phase != self.done.len() {
            return Err(BridgeError::PhaseOrderViolation);
        }
        self.open = true;
        assert(self.current@ =~= Seq::<FieldValue>::empty());
        assert(self@.phases =~= old(self)@.phases.push(Seq::empty()));
        proof {
            old(self)@.lemma_extended_by(self@);
            self.lemma_grown_from(old(self)@);
        }
        Ok(())
    }

    /// Closes the open phase.
    pub fn close_phase(&mut self) -> (r: Result<(), BridgeError>)
        requires
            old(self).wf(),
        ensures
            final(self).wf(),
            (final(self)@, r) == old(self)@.closed(),
    {
        if !self.open {
            return Err(BridgeError::PhaseOrderViolation);
        }
        let mut cur: Vec<FieldValue> = Vec::new();
        std::mem::swap(&mut cur, &mut self.current);
        self.done.push(cur);
        self.open = false;
        assert(self@.phases =~= old(self)@.phases);
        proof {
            old(self)@.lemma_extended_by(self@);
            self.lemma_grown_from(old(self)@);
        }
        Ok(())
    }

    /// Ends the pass; every phase must be closed.
    pub fn finalize(&mut self) -> (r: Result<(), BridgeError>)
        requires
            old(self).wf(),
        ensures
            final(self).wf(),
            (final(self)@, r) == old(self)@.finished(),
    {
        if self.open || self.finalized {
            return Err(BridgeError::PhaseOrderViolation);
        }
        self.finalized = true;
        proof {
            old(self)@.lemma_extended_by(self@);
            self.lemma_grown_from(old(self)@);
        }
        Ok(())
    }

    /// Why work cannot be issued into `phase`, if it cannot.
    pub fn phase_check(&self, phase: usize) -> (r: Option<BridgeError>)
        ensures
            r == self@.phase_check(phase as int),
    {
        if self.open && phase == self.done.len() {
            None
        } else if phase < self.done.len() {
            Some(BridgeError::StalePhaseReference)
        } else {
            Some(BridgeError::PhaseOrderViolation)
        }
    }

    /// After an operation that only grew the pass from `prev` and kept its
    /// pairs, every recorded pair is still issued.
    proof fn lemma_grown_from(&self, prev: SynthModel)
        requires
            prev.wf(),
            prev.extended_by(self@),
            self@.manager.equalities == prev.manager.equalities,
        ensures
            forall|i: int|
                0 <= i < self@.manager.equalities.len() ==> self@.pair_issued(
                    #[trigger] self@.manager.equalities[i],
                ),
    {
        prev.lemma_extended_keeps_values(self@);
        assert forall|i: int| 0 <= i < self@.manager.equalities.len() implies self@.pair_issued(
            #[trigger] self@.manager.equalities[i],
        ) by {
            assert(prev.pair_issued(prev.manager.equalities[i]));
        }
    }

    /// Places `v` in the open phase `phase` and returns its new cell.
    pub(crate) fn push_value(&mut self, phase: usize, v: FieldValue) -> (r: CellRef)
        requires
            old(self).wf(),
            old(self)@.phase_check(phase as int) is None,
        ensures
            final(self).wf(),
            r == old(self)@.next_cell(phase as int),
            final(self)@ == old(self)@.issue(phase as int, v),
            final(self)@.value_of(r) == Some(v),
    {
        let offset = self.current.len();
        self.current.push(v);
        assert(self@.phases =~= old(self)@.issue(phase as int, v).phases);
        proof {
            old(self)@.lemma_extended_by(self@);
            self.lemma_grown_from(old(self)@);
        }
        CellRef::Advice { phase, offset }
    }

    /// Binds the virtual value `v` to a new cell of the open phase `phase`.
    /// A value that already has a cell is refused with `AlreadyAssigned`
    /// and keeps it.
    pub fn assign(&mut self, phase: usize, v: &mut AssignedValue) -> (r: Result<
        CellRef,
        BridgeError,
    >)
        requires
            old(self).wf(),
        ensures
            final(self).wf(),
            (final(self)@, final(v)@, r) == old(self)@.assigned(phase as int, old(v)@),
            r is Ok ==> final(self)@.holds(final(v)@),
    {
        if v.cell().is_some() {
            return Err(BridgeError::AlreadyAssigned);
        }
        if let Some(e) = self.phase_check(phase) {
            return Err(e);
        }
        let c = self.push_value(phase, v.value());
        v.bind(c);
        Ok(c)
    }

    /// Imports the committed cell `source` of the hand-placed `region`.
    pub fn import(&mut self, region: &RegionAllocator, source: RegionCell) -> (r: Result<
        AssignedValue,
        BridgeError,
    >)
        requires
            old(self).wf(),
            region.wf(),
        ensures
            final(self).wf(),
            (final(self)@, assigned_result(r)) == old(self)@.import_done(
                source,
                region.slot(source),
            ),
            r matches Ok(a) ==> final(self)@.holds(a@),
    {
        if self.finalized {
            return Err(BridgeError::PhaseOrderViolation);
        }
        let r = self.manager.import(region, source);
        proof {
            old(self)@.lemma_extended_by(self@);
            self.lemma_grown_from(old(self)@);
        }
        r
    }

    /// Records that `a` and `b` must hold equal values. A mismatch is not
    /// refused here: it is reported by `check`.
    pub fn constrain_equal(&mut self, a: &AssignedValue, b: &AssignedValue) -> (r: Result<
        (),
        BridgeError,
    >)
        requires
            old(self).wf(),
            old(self)@.holds(a@),
            old(self)@.holds(b@),
        ensures
            final(self).wf(),
            (final(self)@, r) == old(self)@.equality_done(a@, b@),
    {
        if self.finalized {
            return Err(BridgeError::PhaseOrderViolation);
        }
        match (a.cell(), b.cell()) {
            (Some(x), Some(y)) => self.manager.record_equal(x, y),
            _ => {},
        }
        proof {
            let eqs = self@.manager.equalities;
            assert forall|i: int| 0 <= i < eqs.len() implies self@.pair_issued(
                #[trigger] eqs[i],
            ) by {
                if i < old(self)@.manager.equalities.len() {
                    assert(eqs[i] == old(self)@.manager.equalities[i]);
                    assert(old(self)@.pair_issued(eqs[i]));
                }
            }
        }
        Ok(())
    }

    /// Records `g`, whose cells already stand in its phase.
    pub(crate) fn push_gate(&mut self, g: AddGate)
        requires
            old(self).wf(),
            g.phase < old(self)@.phases.len(),
            within(g.lhs, g.phase as int),
            within(g.rhs, g.phase as int),
            within(g.out, g.phase as int),
        ensures
            final(self).wf(),
            final(self)@ == (SynthModel { gates: old(self)@.gates.push(g), ..old(self)@ }),
    {
        self.gates.push(g);
        proof {
            assert forall|i: int| 0 <= i < self@.gates.len() implies {
                let h = #[trigger] self@.gates[i];
                &&& h.phase < self@.phases.len()
                &&& within(h.lhs, h.phase as int)
                &&& within(h.rhs, h.phase as int)
                &&& within(h.out, h.phase as int)
            } by {
                if i < old(self)@.gates.len() {
                    assert(self@.gates[i] == old(self)@.gates[i]);
                }
            }
        }
    }

    /// The value held by the cell `c`, or `None` when `c` was not issued.
    pub fn value_of(&self, c: CellRef) -> (r: Option<FieldValue>)
        ensures
            r == self@.value_of(c),
    {
        match c {
            CellRef::Advice { phase, offset } => {
                if phase < self.done.len() {
                    if offset < self.done[phase].len() {
                        Some(self.done[phase][offset])
                    } else {
                        None
                    }
                } else if self.open && phase == self.done.len() && offset < self.current.len() {
                    Some(self.current[offset])
                } else {
                    None
                }
            },
            CellRef::External { index } => self.manager.external_value(index),
        }
    }

    /// Whether `a` is bound to a cell of this pass that holds its value.
    pub fn holds(&self, a: &AssignedValue) -> (r: bool)
        ensures
            r == self@.holds(a@),
    {
        match a.cell() {
            Some(c) => match self.value_of(c) {
                Some(v) => v == a.value(),
                None => false,
            },
            None => false,
        }
    }

    /// The copy-constraint manager of this pass.
    pub fn manager(&self) -> (r: &CopyConstraintManager)
        ensures
            r@ == self@.manager,
    {
        &self.manager
    }

    /// Number of gates issued.
    pub fn num_gates(&self) -> (r: usize)
        ensures
            r == self@.gates.len(),
    {
        self.gates.len()
    }

    /// The addition recorded at position `i`.
    pub fn gate(&self, i: usize) -> (r: AddGate)
        requires
            i < self@.gates.len(),
        ensures
            r == self@.gates[i as int],
    {
        self.gates[i]
    }

    /// The phase now open, if any.
    pub fn current_phase(&self) -> (r: Option<usize>)
        ensures
            r == if self@.open {
                Some((self@.phases.len() - 1) as usize)
            } else {
                None::<usize>
            },
    {
        if self.open {
            Some(self.done.len())
        } else {
            None
        }
    }

    /// Number of values placed in `phase`; zero for a phase not yet opened.
    pub fn phase_len(&self, phase: usize) -> (r: usize)
        ensures
            r == if phase < self@.phases.len() {
                self@.phases[phase as int].len()
            } else {
                0
            },
    {
        if phase < self.done.len() {
            self.done[phase].len()
        } else if self.open && phase == self.done.len() {
            self.current.len()
        } else {
            0
        }
    }

    /// Whether the pass is finalized.
    pub fn is_finalized(&self) -> (r: bool)
        ensures
            r == self@.finalized,
    {
        self.finalized
    }

    /// Whether the recorded gate `g` holds.
    fn gate_holds(&self, g: AddGate) -> (r: bool)
        ensures
            r == self@.gate_holds(g),
    {
        match (self.value_of(g.lhs), self.value_of(g.rhs), self.value_of(g.out)) {
            (Some(x), Some(y), Some(z)) => x.add(&y) == z,
            _ => false,
        }
    }

    /// Checks every recorded constraint against the values held and returns
    /// those that fail: gates first, then equality pairs, each in the order
    /// recorded. Every failing constraint is reported, not only the first.
    pub fn check(&self) -> (r: Vec<Violation>)
        ensures
            r@ == self@.violations(),
    {
        let mut out: Vec<Violation> = Vec::new();
        let mut i: usize = 0;
        while i < self.gates.len()
            invariant
                i <= self@.gates.len(),
                out@ == self@.gate_violations(self@.gates.subrange(0, i as int)),
            decreases self.gates.len() - i,
        {
            let g = self.gates[i];
            assert(self@.gates.subrange(0, i + 1).drop_last() =~= self@.gates.subrange(0, i as int));
            if !self.gate_holds(g) {
                out.push(Violation::Gate { gate: g });
            }
            i = i + 1;
        }
        assert(self@.gates.subrange(0, i as int) =~= self@.gates);
        let ghost gv = out@;
        let n = self.manager.num_equalities();
        let mut j: usize = 0;
        while j < n
            invariant
                j <= n,
                n == self@.manager.equalities.len(),
                gv == self@.gate_violations(self@.gates),
                out@ == gv + self@.equality_violations(
                    self@.manager.equalities.subrange(0, j as int),
                ),
            decreases n - j,
        {
            let p = self.manager.equality(j);
            let ghost ps = self@.manager.equalities;
            assert(ps.subrange(0, j + 1).drop_last() =~= ps.subrange(0, j as int));
            let lhs = self.value_of(p.0);
            if !(lhs.is_some() && lhs == self.value_of(p.1)) {
                out.push(Violation::Equality { lhs: p.0, rhs: p.1 });
                assert(out@ =~= gv + self@.equality_violations(ps.subrange(0, j + 1)));
            }
            j = j + 1;
        }
        assert(self@.manager.equalities.subrange(0, n as int) =~= self@.manager.equalities);
        out
    }
}

} // verus!
