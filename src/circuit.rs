//! The circuit this crate lays out: its parameters and its synthesis steps.
use vstd::prelude::*;
use crate::cell::CellRef;
use crate::field::FieldValue;
use crate::region::RegionAllocator;
use crate::script::{run, Step};
use crate::synth::{SynthModel, Violation};

verus! {

/// Rows of the circuit are `2^K`.
pub const K: usize = 6;

/// Column layout asked of the phased builder.
#[derive(Debug, PartialEq, Eq)]
pub struct CircuitParams {
    /// The circuit has `2^k` rows.
    pub k: usize,
    /// Advice columns in each phase.
    pub num_advice_per_phase: Vec<usize>,
    /// Fixed columns.
    pub num_fixed: usize,
    /// Advice columns with range lookups enabled, in each phase.
    pub num_lookup_advice_per_phase: Vec<usize>,
    /// Bits of the range lookup table, when there is one.
    pub lookup_bits: Option<usize>,
    /// Public instance columns.
    pub num_instance_columns: usize,
}

impl CircuitParams {
    /// One phase with one advice column and one lookup column, one fixed
    /// column, a two-bit lookup table and no instance column, on `2^K` rows.
    pub fn single_phase() -> (r: CircuitParams)
        ensures
            r.k == K,
            r.num_advice_per_phase@ == seq![1usize],
            r.num_fixed == 1,
            r.num_lookup_advice_per_phase@ == seq![1usize],
            r.lookup_bits == Some(2usize),
            r.num_instance_columns == 0,
    {
        CircuitParams {
            k: K,
            num_advice_per_phase: vec![1],
            num_fixed: 1,
            num_lookup_advice_per_phase: vec![1],
            lookup_bits: Some(2),
            num_instance_columns: 0,
        }
    }
}

/// The circuit's synthesis: in phase 0, private input 0 is placed twice and
/// the two copies are asserted equal; then the phase closes and the pass ends.
pub open spec fn copy_check_script() -> Seq<Step> {
    seq![
        Step::OpenPhase { phase: 0 },
        Step::Witness { phase: 0, input: 0 },
        Step::Witness { phase: 0, input: 0 },
        Step::ConstrainEqual { lhs: 0, rhs: 1 },
        Step::ClosePhase,
        Step::Finalize,
    ]
}

/// The steps of `copy_check_script`.
pub fn copy_check_steps() -> (r: Vec<Step>)
    ensures
        r@ == copy_check_script(),
{
    vec![
        Step::OpenPhase { phase: 0 },
        Step::Witness { phase: 0, input: 0 },
        Step::Witness { phase: 0, input: 0 },
        Step::ConstrainEqual { lhs: 0, rhs: 1 },
        Step::ClosePhase,
        Step::Finalize,
    ]
}

/// The circuit holds for every witness: on any private input its steps
/// succeed, place two cells in phase 0 tied by one equality pair, and leave a
/// finalized pass in which no constraint is violated.
pub proof fn lemma_copy_check_satisfied(c: FieldValue, region: RegionAllocator)
    ensures
        run(SynthModel::initial(false), Seq::empty(), copy_check_script(), seq![c], region) matches Ok(
            (t, _),
        ) && t.finalized && t.phases == seq![seq![c, c]] && t.manager.equalities == seq![
            (CellRef::Advice { phase: 0, offset: 0 }, CellRef::Advice { phase: 0, offset: 1 }),
        ] && t.violations() == Seq::<Violation>::empty(),
{
    let st = copy_check_script();
    assert(st.skip(1).skip(1).skip(1).skip(1).skip(1).skip(1) =~= Seq::<Step>::empty());
    assert(st.skip(1) =~= seq![st[1], st[2], st[3], st[4], st[5]]);
    assert(st.skip(1).skip(1) =~= seq![st[2], st[3], st[4], st[5]]);
    assert(st.skip(1).skip(1).skip(1) =~= seq![st[3], st[4], st[5]]);
    assert(st.skip(1).skip(1).skip(1).skip(1) =~= seq![st[4], st[5]]);
    assert(st.skip(1).skip(1).skip(1).skip(1).skip(1) =~= seq![st[5]]);
    reveal_with_fuel(run, 7);
    let s0 = SynthModel::initial(false);
    let s1 = s0.opened(0).0;
    assert(s1.phases =~= seq![Seq::<FieldValue>::empty()]);
    let w = crate::cell::AssignedModel { value: c, cell: None };
    let (s2, v1, _) = s1.assigned(0, w);
    assert(s2.phases =~= seq![seq![c]]);
    let (s3, v2, _) = s2.assigned(0, w);
    assert(s2.phases[0].push(c) =~= seq![c, c]);
    assert(s3.phases =~~= seq![seq![c, c]]);
    let regs = seq![v1, v2];
    assert(Seq::<crate::cell::AssignedModel>::empty().push(v1).push(v2) =~= regs);
    let s4 = s3.equality_done(regs[0], regs[1]).0;
    let s6 = SynthModel { finalized: true, ..s4.closed().0 };
    let r = run(s0, Seq::empty(), st, seq![c], region);
    assert(r == Ok::<(SynthModel, Seq<crate::cell::AssignedModel>), (nat, crate::error::BridgeError)>(
        (s6, regs),
    ));
    let t = s6;
    assert(t.manager.equalities =~= seq![
        (CellRef::Advice { phase: 0, offset: 0 }, CellRef::Advice { phase: 0, offset: 1 }),
    ]);
    assert(t.gates =~= Seq::<crate::synth::AddGate>::empty());
    let ps = t.manager.equalities;
    assert(ps.drop_last() =~= Seq::<(CellRef, CellRef)>::empty());
    assert(t.pair_holds(ps.last()));
    assert(t.equality_violations(ps.drop_last()) == Seq::<Violation>::empty());
    assert(t.equality_violations(ps) == Seq::<Violation>::empty());
    assert(t.gate_violations(t.gates) == Seq::<Violation>::empty());
    assert(t.violations() =~= Seq::<Violation>::empty());
}

} // verus!
