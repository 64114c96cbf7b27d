//! Properties of a synthesis pass that relate several operations.
use vstd::prelude::*;
use crate::cell::{AssignedModel, CellRef, RegionCell};
use crate::error::BridgeError;
use crate::region::RegionAllocator;
use crate::synth::{cell_of, within, AddGate, SynthModel, Violation};

verus! {

/// Gate checks depend on the values that cells hold and on nothing else.
proof fn lemma_gate_violations_same_values(s: SynthModel, t: SynthModel, gs: Seq<AddGate>)
    requires
        forall|c: CellRef| #[trigger] s.value_of(c) == t.value_of(c),
    ensures
        s.gate_violations(gs) == t.gate_violations(gs),
    decreases gs.len(),
{
    if gs.len() > 0 {
        lemma_gate_violations_same_values(s, t, gs.drop_last());
        let g = gs.last();
        assert(s.value_of(g.lhs) == t.value_of(g.lhs));
        assert(s.value_of(g.rhs) == t.value_of(g.rhs));
        assert(s.value_of(g.out) == t.value_of(g.out));
    }
}

/// Pair checks depend on the values that cells hold and on nothing else.
proof fn lemma_equality_violations_same_values(
    s: SynthModel,
    t: SynthModel,
    ps: Seq<(CellRef, CellRef)>,
)
    requires
        forall|c: CellRef| #[trigger] s.value_of(c) == t.value_of(c),
    ensures
        s.equality_violations(ps) == t.equality_violations(ps),
    decreases ps.len(),
{
    if ps.len() > 0 {
        lemma_equality_violations_same_values(s, t, ps.drop_last());
        let p = ps.last();
        assert(s.value_of(p.0) == t.value_of(p.0));
        assert(s.value_of(p.1) == t.value_of(p.1));
    }
}

/// Single assignment: a value that already has a cell keeps it. Assigning
/// it again is refused with `AlreadyAssigned` and changes neither the value
/// nor the pass; a first assignment keeps the element and sets the cell.
pub proof fn lemma_single_assignment(s: SynthModel, phase: int, v: AssignedModel)
    ensures
        v.cell is Some ==> s.assigned(phase, v) == (s, v, Err::<CellRef, BridgeError>(
            BridgeError::AlreadyAssigned,
        )),
        s.assigned(phase, v).1.value == v.value,
        s.assigned(phase, v).2 matches Ok(c) ==> s.assigned(phase, v).1.cell == Some(c)
            && v.cell is None,
{
}

/// Phase monotonicity: a gate issued in `phase` accepts only inputs whose
/// cells stand in `phase` or an earlier one (or are imported), and every
/// gate of a well-formed pass keeps to that.
pub proof fn lemma_phase_monotonicity(
    s: SynthModel,
    phase: usize,
    a: AssignedModel,
    b: AssignedModel,
)
    requires
        s.wf(),
        s.holds(a),
        s.holds(b),
    ensures
        s.gate_added(phase as int, a, b).1 is Ok ==> within(cell_of(a), phase as int) && within(
            cell_of(b),
            phase as int,
        ),
        s.gate_added(phase as int, a, b).0.wf(),
        forall|i: int|
            0 <= i < s.gate_added(phase as int, a, b).0.gates.len() ==> {
                let g = #[trigger] s.gate_added(phase as int, a, b).0.gates[i];
                within(g.lhs, g.phase as int) && within(g.rhs, g.phase as int)
            },
{
    let t = s.gate_added(phase as int, a, b).0;
    if s.phase_check(phase as int) is None {
        assert(s.value_of(cell_of(a)) is Some);
        assert(s.value_of(cell_of(b)) is Some);
        assert forall|i: int| 0 <= i < t.gates.len() implies {
            let g = #[trigger] t.gates[i];
            &&& g.phase < t.phases.len()
            &&& within(g.lhs, g.phase as int)
            &&& within(g.rhs, g.phase as int)
            &&& within(g.out, g.phase as int)
        } by {
            if i < s.gates.len() {
                assert(t.gates[i] == s.gates[i]);
            }
        }
    }
}

/// Soundness of equality: recording `a == b` adds exactly one violation to
/// the check when their values differ, and none when they agree.
pub proof fn lemma_equality_soundness(s: SynthModel, a: AssignedModel, b: AssignedModel)
    requires
        s.holds(a),
        s.holds(b),
        !s.finalized,
    ensures
        s.equality_done(a, b).1 is Ok,
        s.equality_done(a, b).0.violations() == s.violations() + if a.value == b.value {
            Seq::<Violation>::empty()
        } else {
            seq![Violation::Equality { lhs: cell_of(a), rhs: cell_of(b) }]
        },
{
    let t = s.equality_done(a, b).0;
    let ps = s.manager.equalities;
    let p = (cell_of(a), cell_of(b));
    assert forall|c: CellRef| #[trigger] s.value_of(c) == t.value_of(c) by {}
    lemma_gate_violations_same_values(s, t, s.gates);
    lemma_equality_violations_same_values(s, t, ps);
    assert(t.manager.equalities.drop_last() =~= ps);
    assert(t.manager.equalities.last() == p);
    assert(t.pair_holds(p) == (a.value == b.value));
    if a.value == b.value {
        assert(t.violations() =~= s.violations() + Seq::<Violation>::empty());
    } else {
        assert(t.violations() =~= s.violations() + seq![
            Violation::Equality { lhs: cell_of(a), rhs: cell_of(b) },
        ]);
    }
}

/// Import idempotence: importing the same cell of `region` twice succeeds
/// or fails both times; on success the two aliases hold the same value, and
/// asserting them equal is accepted by the check. (The manager has room
/// for two more entries, as any manager whose table fits in memory has.)
pub proof fn lemma_import_idempotent(s: SynthModel, region: RegionAllocator, source: RegionCell)
    requires
        s.manager.externals.len() + 2 <= usize::MAX,
    ensures
        ({
            let (s1, r1) = s.import_done(source, region.slot(source));
            let (s2, r2) = s1.import_done(source, region.slot(source));
            &&& (r1 is Ok <==> r2 is Ok)
            &&& r1 matches Ok(x) ==> r2 matches Ok(y) ==> {
                &&& x.value == y.value
                &&& s2.holds(x)
                &&& s2.holds(y)
                &&& s2.equality_done(x, y).1 is Ok
                &&& s2.equality_done(x, y).0.violations() == s2.violations()
            }
        }),
{
    let (s1, r1) = s.import_done(source, region.slot(source));
    let (s2, r2) = s1.import_done(source, region.slot(source));
    if r1 is Ok {
        let x = r1->Ok_0;
        let y = r2->Ok_0;
        assert(s2.manager.externals[s1.manager.externals.len() - 1] == s1.manager.externals.last());
        assert(s2.holds(x));
        assert(s2.holds(y));
        lemma_equality_soundness(s2, x, y);
        assert(s2.violations() + Seq::<Violation>::empty() =~= s2.violations());
    }
}

} // verus!
