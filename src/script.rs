//! Whole synthesis passes described as scripts of steps.
use vstd::prelude::*;
use crate::cell::{assigned_result, load_witness, AssignedModel, AssignedValue, RegionCell};
use crate::error::BridgeError;
use crate::field::FieldValue;
use crate::gate::GateChip;
use crate::region::RegionAllocator;
use crate::synth::{cell_of, PhaseSynthesizer, SynthModel};

verus! {

/// One step of a synthesis pass. Steps that produce a value (`Witness`,
/// `Import`, `Add`) append it to the pass's list of results; `lhs` and `rhs`
/// name earlier results by their position there.
#[derive(Clone, Copy, PartialEq, Eq, Structural, Debug)]
pub enum Step {
    OpenPhase { phase: usize },
    ClosePhase,
    /// Stages private input number `input` and places it in `phase`.
    Witness { phase: usize, input: usize },
    Import { source: RegionCell },
    Add { phase: usize, lhs: usize, rhs: usize },
    ConstrainEqual { lhs: usize, rhs: usize },
    Finalize,
}

/// Why a script stopped: the position of the step that failed and its error.
#[derive(Clone, Copy, PartialEq, Eq, Structural, Debug)]
pub struct StepFailure {
    pub step: usize,
    pub error: BridgeError,
}

/// Whether the operands of `step` name an input or one of `produced`
/// earlier results.
pub open spec fn step_operands_ok(step: Step, produced: nat, num_inputs: nat) -> bool {
    match step {
        Step::Witness { input, .. } => input < num_inputs,
        Step::Add { lhs, rhs, .. } => lhs < produced && rhs < produced,
        Step::ConstrainEqual { lhs, rhs } => lhs < produced && rhs < produced,
        _ => true,
    }
}

/// How many results `step` appends.
pub open spec fn step_output_count(step: Step) -> nat {
    match step {
        Step::Witness { .. } | Step::Import { .. } | Step::Add { .. } => 1,
        _ => 0,
    }
}

/// Whether every operand of `steps` names an input or an earlier result,
/// given `produced` results before the first step.
pub open spec fn operands_ok(steps: Seq<Step>, produced: nat, num_inputs: nat) -> bool
    decreases steps.len(),
{
    if steps.len() == 0 {
        true
    } else {
        step_operands_ok(steps[0], produced, num_inputs) && operands_ok(
            steps.skip(1),
            produced + step_output_count(steps[0]),
            num_inputs,
        )
    }
}

/// The state and results after one step, or the error that ends the pass.
pub open spec fn step_result(
    s: SynthModel,
    regs: Seq<AssignedModel>,
    step: Step,
    inputs: Seq<FieldValue>,
    region: RegionAllocator,
) -> Result<(SynthModel, Seq<AssignedModel>), BridgeError> {
    match step {
        Step::OpenPhase { phase } => match s.opened(phase as int) {
            (t, Ok(_)) => Ok((t, regs)),
            (_, Err(e)) => Err(e),
        },
        Step::ClosePhase => match s.closed() {
            (t, Ok(_)) => Ok((t, regs)),
            (_, Err(e)) => Err(e),
        },
        Step::Finalize => match s.finished() {
            (t, Ok(_)) => Ok((t, regs)),
            (_, Err(e)) => Err(e),
        },
        Step::Witness { phase, input } => match s.assigned(
            phase as int,
            AssignedModel { value: inputs[input as int], cell: None },
        ) {
            (t, v, Ok(_)) => Ok((t, regs.push(v))),
            (_, _, Err(e)) => Err(e),
        },
        Step::Import { source } => match s.import_done(source, region.slot(source)) {
            (t, Ok(a)) => Ok((t, regs.push(a))),
            (_, Err(e)) => Err(e),
        },
        Step::Add { phase, lhs, rhs } => match s.gate_added(
            phase as int,
            regs[lhs as int],
            regs[rhs as int],
        ) {
            (t, Ok(a)) => Ok((t, regs.push(a))),
            (_, Err(e)) => Err(e),
        },
        Step::ConstrainEqual { lhs, rhs } => match s.equality_done(
            regs[lhs as int],
            regs[rhs as int],
        ) {
            (t, Ok(_)) => Ok((t, regs)),
            (_, Err(e)) => Err(e),
        },
    }
}

/// The state and results after all of `steps`, or the position of the first
/// step that fails, with its error.
pub open spec fn run(
    s: SynthModel,
    regs: Seq<AssignedModel>,
    steps: Seq<Step>,
    inputs: Seq<FieldValue>,
    region: RegionAllocator,
) -> Result<(SynthModel, Seq<AssignedModel>), (nat, BridgeError)>
    decreases steps.len(),
{
    if steps.len() == 0 {
        Ok((s, regs))
    } else {
        match step_result(s, regs, steps[0], inputs, region) {
            Ok((t, r)) => match run(t, r, steps.skip(1), inputs, region) {
                Ok(x) => Ok(x),
                Err((k, e)) => Err((k + 1, e)),
            },
            Err(e) => Err((0, e)),
        }
    }
}

/// `r` with every failure position moved `by` steps later.
pub open spec fn shifted(
    r: Result<(SynthModel, Seq<AssignedModel>), (nat, BridgeError)>,
    by: nat,
) -> Result<(SynthModel, Seq<AssignedModel>), (nat, BridgeError)> {
    match r {
        Ok(x) => Ok(x),
        Err((k, e)) => Err((k + by, e)),
    }
}

/// Whether every cell issued in `s` holds the same value in `t`.
pub open spec fn keeps_values(s: SynthModel, t: SynthModel) -> bool {
    forall|c| #[trigger] s.value_of(c) is Some ==> t.value_of(c) == s.value_of(c)
}

/// A step keeps the values of issued cells and the earlier results.
proof fn lemma_step_keeps_values(
    s: SynthModel,
    regs: Seq<AssignedModel>,
    step: Step,
    inputs: Seq<FieldValue>,
    region: RegionAllocator,
)
    requires
        step_result(s, regs, step, inputs, region) is Ok,
    ensures
        ({
            let (t, r) = step_result(s, regs, step, inputs, region)->Ok_0;
            &&& keeps_values(s, t)
            &&& r.len() >= regs.len()
            &&& r.len() == regs.len() + step_output_count(step)
            &&& r.subrange(0, regs.len() as int) == regs
        }),
{
    let (t, r) = step_result(s, regs, step, inputs, region)->Ok_0;
    assert forall|c| #[trigger] s.value_of(c) is Some implies t.value_of(c) == s.value_of(c) by {
        match c {
            crate::cell::CellRef::Advice { phase, offset } => {
                if phase < s.phases.len() {
                    assert(t.phases[phase as int].subrange(0, s.phases[phase as int].len() as int)
                        =~= s.phases[phase as int]) by {
                        match step {
                            Step::Witness { .. } => {},
                            Step::Add { .. } => {},
                            _ => {},
                        }
                    }
                    assert(t.phases[phase as int][offset as int] == t.phases[phase as int].subrange(
                        0,
                        s.phases[phase as int].len() as int,
                    )[offset as int]);
                }
            },
            crate::cell::CellRef::External { index } => {
                assert(t.manager.externals.subrange(0, s.manager.externals.len() as int)
                    =~= s.manager.externals);
                assert(t.manager.externals[index as int] == t.manager.externals.subrange(
                    0,
                    s.manager.externals.len() as int,
                )[index as int]);
            },
        }
    }
    assert(r.subrange(0, regs.len() as int) =~= regs);
}

/// Whether two passes have the same layout: the same phases holding the same
/// number of cells, the same state, and the same gates, equality pairs and
/// import sources. Only the values in the cells may differ.
pub open spec fn same_layout(s: SynthModel, t: SynthModel) -> bool {
    &&& s.phases.len() == t.phases.len()
    &&& forall|p: int|
        0 <= p < s.phases.len() ==> (#[trigger] s.phases[p]).len() == t.phases[p].len()
    &&& s.open == t.open
    &&& s.finalized == t.finalized
    &&& s.gates == t.gates
    &&& s.manager.keygen == t.manager.keygen
    &&& s.manager.equalities == t.manager.equalities
    &&& s.manager.externals.len() == t.manager.externals.len()
    &&& forall|i: int|
        0 <= i < s.manager.externals.len() ==> (#[trigger] s.manager.externals[i]).source
            == t.manager.externals[i].source
}

/// Whether two lists of results are bound to the same cells.
pub open spec fn same_cells(a: Seq<AssignedModel>, b: Seq<AssignedModel>) -> bool {
    &&& a.len() == b.len()
    &&& forall|i: int| 0 <= i < a.len() ==> (#[trigger] a[i]).cell == b[i].cell
}

/// Whether two regions have values committed at the same slots.
pub open spec fn same_commits(r1: RegionAllocator, r2: RegionAllocator) -> bool {
    forall|c: RegionCell| (#[trigger] r1.slot(c) is Some) == (r2.slot(c) is Some)
}

proof fn lemma_step_same_layout(
    s1: SynthModel,
    s2: SynthModel,
    regs1: Seq<AssignedModel>,
    regs2: Seq<AssignedModel>,
    step: Step,
    in1: Seq<FieldValue>,
    in2: Seq<FieldValue>,
    region1: RegionAllocator,
    region2: RegionAllocator,
)
    requires
        same_layout(s1, s2),
        same_cells(regs1, regs2),
        same_commits(region1, region2),
        step_operands_ok(step, regs1.len(), in1.len()),
    ensures
        match (
            step_result(s1, regs1, step, in1, region1),
            step_result(s2, regs2, step, in2, region2),
        ) {
            (Ok((t1, r1)), Ok((t2, r2))) => same_layout(t1, t2) && same_cells(r1, r2),
            (Err(e1), Err(e2)) => e1 == e2,
            _ => false,
        },
{
    match step {
        Step::Import { source } => {
            assert((region1.slot(source) is Some) == (region2.slot(source) is Some));
        },
        Step::Add { lhs, rhs, .. } => {
            assert(regs1[lhs as int].cell == regs2[lhs as int].cell);
            assert(regs1[rhs as int].cell == regs2[rhs as int].cell);
        },
        Step::ConstrainEqual { lhs, rhs } => {
            assert(regs1[lhs as int].cell == regs2[lhs as int].cell);
            assert(regs1[rhs as int].cell == regs2[rhs as int].cell);
        },
        _ => {},
    }
    match (
        step_result(s1, regs1, step, in1, region1),
        step_result(s2, regs2, step, in2, region2),
    ) {
        (Ok((t1, r1)), Ok((t2, r2))) => {
            assert forall|i: int| 0 <= i < r1.len() implies (#[trigger] r1[i]).cell == r2[i].cell by {
                if i < regs1.len() {
                    assert(regs1[i].cell == regs2[i].cell);
                }
            }
            assert forall|p: int| 0 <= p < t1.phases.len() implies (#[trigger] t1.phases[p]).len()
                == t2.phases[p].len() by {
                if p < s1.phases.len() {
                    assert(s1.phases[p].len() == s2.phases[p].len());
                }
            }
            assert forall|i: int| 0 <= i < t1.manager.externals.len() implies (
            #[trigger] t1.manager.externals[i]).source == t2.manager.externals[i].source by {
                if i < s1.manager.externals.len() {
                    assert(s1.manager.externals[i].source == s2.manager.externals[i].source);
                }
            }
            match step {
                Step::Witness { phase, .. } => {
                    assert(s1.phases[phase as int].len() == s2.phases[phase as int].len());
                },
                Step::Add { phase, .. } => {
                    assert(s1.phases[phase as int].len() == s2.phases[phase as int].len());
                },
                _ => {},
            }
        },
        _ => {},
    }
}

proof fn lemma_run_same_layout(
    s1: SynthModel,
    s2: SynthModel,
    regs1: Seq<AssignedModel>,
    regs2: Seq<AssignedModel>,
    steps: Seq<Step>,
    in1: Seq<FieldValue>,
    in2: Seq<FieldValue>,
    region1: RegionAllocator,
    region2: RegionAllocator,
)
    requires
        same_layout(s1, s2),
        same_cells(regs1, regs2),
        same_commits(region1, region2),
        in1.len() == in2.len(),
        operands_ok(steps, regs1.len(), in1.len()),
    ensures
        match (run(s1, regs1, steps, in1, region1), run(s2, regs2, steps, in2, region2)) {
            (Ok((t1, r1)), Ok((t2, r2))) => same_layout(t1, t2) && same_cells(r1, r2),
            (Err(e1), Err(e2)) => e1 == e2,
            _ => false,
        },
    decreases steps.len(),
{
    if steps.len() > 0 {
        lemma_step_same_layout(s1, s2, regs1, regs2, steps[0], in1, in2, region1, region2);
        match (
            step_result(s1, regs1, steps[0], in1, region1),
            step_result(s2, regs2, steps[0], in2, region2),
        ) {
            (Ok((t1, r1)), Ok((t2, r2))) => {
                lemma_step_keeps_values(s1, regs1, steps[0], in1, region1);
                lemma_run_same_layout(
                    t1,
                    t2,
                    r1,
                    r2,
                    steps.skip(1),
                    in1,
                    in2,
                    region1,
                    region2,
                );
            },
            _ => {},
        }
    }
}

/// Determinism: two runs of one script from fresh passes with the same
/// `keygen` setting, on private inputs of the same number and on regions
/// committed at the same slots, either both fail at the same step with the
/// same error or both succeed with the same layout: the same cells in each phase, the same
/// gates and equality pairs, the same import sources and the same result
/// cells. The values of the private inputs play no part in any of it; with
/// identical inputs the two runs are identical.
pub proof fn lemma_layout_independent_of_witnesses(
    keygen: bool,
    steps: Seq<Step>,
    in1: Seq<FieldValue>,
    in2: Seq<FieldValue>,
    region1: RegionAllocator,
    region2: RegionAllocator,
)
    requires
        operands_ok(steps, 0, in1.len()),
        in1.len() == in2.len(),
        same_commits(region1, region2),
    ensures
        match (
            run(SynthModel::initial(keygen), Seq::empty(), steps, in1, region1),
            run(SynthModel::initial(keygen), Seq::empty(), steps, in2, region2),
        ) {
            (Ok((t1, r1)), Ok((t2, r2))) => same_layout(t1, t2) && same_cells(r1, r2),
            (Err(e1), Err(e2)) => e1 == e2,
            _ => false,
        },
{
    lemma_run_same_layout(
        SynthModel::initial(keygen),
        SynthModel::initial(keygen),
        Seq::empty(),
        Seq::empty(),
        steps,
        in1,
        in2,
        region1,
        region2,
    );
}

/// Whether every operand of `steps` names one of `num_inputs` inputs or an
/// earlier result.
pub fn check_operands(steps: &Vec<Step>, num_inputs: usize) -> (r: bool)
    ensures
        r == operands_ok(steps@, 0, num_inputs as nat),
{
    let mut produced: usize = 0;
    let mut i: usize = 0;
    assert(steps@.skip(0) =~= steps@);
    while i < steps.len()
        invariant
            i <= steps@.len(),
            produced <= i,
            operands_ok(steps@, 0, num_inputs as nat) == operands_ok(
                steps@.skip(i as int),
                produced as nat,
                num_inputs as nat,
            ),
        decreases steps.len() - i,
    {
        let ghost rest = steps@.skip(i as int);
        assert(rest[0] == steps@[i as int]);
        assert(rest.skip(1) =~= steps@.skip(i + 1));
        let (ok, made): (bool, usize) = match steps[i] {
            Step::Witness { input, .. } => (input < num_inputs, 1),
            Step::Import { .. } => (true, 1),
            Step::Add { lhs, rhs, .. } => (lhs < produced && rhs < produced, 1),
            Step::ConstrainEqual { lhs, rhs } => (lhs < produced && rhs < produced, 0),
            _ => (true, 0),
        };
        if !ok {
            return false;
        }
        produced = produced + made;
        i = i + 1;
    }
    true
}

/// Runs `steps` from a fresh pass on the private `inputs`, importing from
/// `region`: the finished pass and the results of the steps, or the first
/// step that fails and why. It does exactly what `run` describes.
pub fn synthesize(
    keygen: bool,
    steps: &Vec<Step>,
    inputs: &Vec<FieldValue>,
    region: &RegionAllocator,
) -> (r: Result<(PhaseSynthesizer, Vec<AssignedValue>), StepFailure>)
    requires
        region.wf(),
        operands_ok(steps@, 0, inputs@.len()),
    ensures
        match r {
            Ok((s, regs)) => s.wf() && run(
                SynthModel::initial(keygen),
                Seq::empty(),
                steps@,
                inputs@,
                *region,
            ) == Ok::<(SynthModel, Seq<AssignedModel>), (nat, BridgeError)>(
                (s@, regs@.map_values(|a: AssignedValue| a@)),
            ),
            Err(f) => run(SynthModel::initial(keygen), Seq::empty(), steps@, inputs@, *region)
                == Err::<(SynthModel, Seq<AssignedModel>), (nat, BridgeError)>(
                (f.step as nat, f.error),
            ),
        },
{
    let mut synth = PhaseSynthesizer::new(keygen);
    let mut regs: Vec<AssignedValue> = Vec::new();
    let chip = GateChip::new();
    let mut i: usize = 0;
    assert(regs@.map_values(|a: AssignedValue| a@) =~= Seq::<AssignedModel>::empty());
    assert(steps@.skip(0) =~= steps@);
    while i < steps.len()
        invariant
            i <= steps@.len(),
            region.wf(),
            synth.wf(),
            forall|j: int| 0 <= j < regs@.len() ==> synth@.holds(#[trigger] regs@[j]@),
            operands_ok(steps@.skip(i as int), regs@.len(), inputs@.len()),
            run(SynthModel::initial(keygen), Seq::empty(), steps@, inputs@, *region) == shifted(
                run(
                    synth@,
                    regs@.map_values(|a: AssignedValue| a@),
                    steps@.skip(i as int),
                    inputs@,
                    *region,
                ),
                i as nat,
            ),
        decreases steps.len() - i,
    {
        let ghost s0 = synth@;
        let ghost m0 = regs@.map_values(|a: AssignedValue| a@);
        let ghost rest = steps@.skip(i as int);
        let step = steps[i];
        assert(rest[0] == step);
        assert(rest.skip(1) =~= steps@.skip(i + 1));
        proof {
            assert forall|j: int| 0 <= j < m0.len() implies s0.holds(#[trigger] m0[j]) by {
                assert(m0[j] == regs@[j]@);
            }
        }
        let outcome: Result<(), BridgeError> = match step {
            Step::OpenPhase { phase } => synth.open_phase(phase),
            Step::ClosePhase => synth.close_phase(),
            Step::Finalize => synth.finalize(),
            Step::Witness { phase, input } => {
                let mut v = load_witness(inputs[input]);
                match synth.assign(phase, &mut v) {
                    Ok(_) => {
                        regs.push(v);
                        Ok(())
                    },
                    Err(e) => Err(e),
                }
            },
            Step::Import { source } => match synth.import(region, source) {
                Ok(a) => {
                    regs.push(a);
                    Ok(())
                },
                Err(e) => Err(e),
            },
            Step::Add { phase, lhs, rhs } => {
                assert(m0[lhs as int] == regs@[lhs as int]@);
                assert(m0[rhs as int] == regs@[rhs as int]@);
                match chip.add(&mut synth, phase, &regs[lhs], &regs[rhs]) {
                    Ok(a) => {
                        regs.push(a);
                        Ok(())
                    },
                    Err(e) => Err(e),
                }
            },
            Step::ConstrainEqual { lhs, rhs } => {
                assert(m0[lhs as int] == regs@[lhs as int]@);
                assert(m0[rhs as int] == regs@[rhs as int]@);
                synth.constrain_equal(&regs[lhs], &regs[rhs])
            },
        };
        match outcome {
            Err(e) => {
                return Err(StepFailure { step: i, error: e });
            },
            Ok(()) => {},
        }
        proof {
            let m1 = regs@.map_values(|a: AssignedValue| a@);
            assert(step_result(s0, m0, step, inputs@, *region) == Ok::<
                (SynthModel, Seq<AssignedModel>),
                BridgeError,
            >((synth@, m1))) by {
                if m1.len() > m0.len() {
                    assert(m1 =~= m0.push(m1.last()));
                } else {
                    assert(m1 =~= m0);
                }
            }
            lemma_step_keeps_values(s0, m0, step, inputs@, *region);
            assert(regs@.len() > m0.len() ==> synth@.holds(regs@[m0.len() as int]@));
            assert forall|j: int| 0 <= j < regs@.len() implies synth@.holds(#[trigger] regs@[j]@) by {
                assert(m1[j] == regs@[j]@);
                if j < m0.len() {
                    assert(m1.subrange(0, m0.len() as int)[j] == m0[j]);
                    assert(s0.holds(m0[j]));
                    assert(s0.value_of(cell_of(m0[j])) is Some);
                }
            }
        }
        i = i + 1;
    }
    assert(steps@.skip(i as int).len() == 0);
    Ok((synth, regs))
}

} // verus!
