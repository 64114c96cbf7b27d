use halo2_bridge::cell::{CellRef, RegionCell};
use halo2_bridge::circuit::{copy_check_steps, CircuitParams, K};
use halo2_bridge::error::BridgeError;
use halo2_bridge::field::FieldValue;
use halo2_bridge::region::RegionAllocator;
use halo2_bridge::script::{check_operands, synthesize, Step, StepFailure};
use halo2_bridge::synth::Violation;

fn fv(n: u64) -> FieldValue {
    FieldValue::from_u64(n)
}

fn committed(values: &[u64]) -> RegionAllocator {
    let mut region = RegionAllocator::new(1, 4);
    for (row, v) in values.iter().enumerate() {
        let cell = RegionCell { column: 0, row };
        assert_eq!(region.assign(cell, fv(*v)), Ok(cell));
    }
    region
}

/// a and b in phase 0, c = a + b, an imported cell, and c == imported.
fn sum_against_import() -> Vec<Step> {
    vec![
        Step::OpenPhase { phase: 0 },
        Step::Witness { phase: 0, input: 0 },
        Step::Witness { phase: 0, input: 1 },
        Step::Add { phase: 0, lhs: 0, rhs: 1 },
        Step::Import { source: RegionCell { column: 0, row: 0 } },
        Step::ConstrainEqual { lhs: 2, rhs: 3 },
        Step::ClosePhase,
        Step::Finalize,
    ]
}

#[test]
fn copy_check_circuit_is_satisfied() {
    let steps = copy_check_steps();
    assert_eq!(steps.len(), 6);
    let inputs = vec![fv(3)];
    assert!(check_operands(&steps, inputs.len()));
    let (pass, results) = synthesize(false, &steps, &inputs, &RegionAllocator::new(0, 0)).unwrap();
    assert_eq!(results.len(), 2);
    assert!(pass.is_finalized());
    assert_eq!(pass.phase_len(0), 2);
    assert_eq!(pass.phase_len(1), 0);
    assert_eq!(pass.manager().num_equalities(), 1);
    assert_eq!(
        pass.manager().equality(0),
        (CellRef::Advice { phase: 0, offset: 0 }, CellRef::Advice { phase: 0, offset: 1 })
    );
    assert!(pass.check().is_empty());
}

#[test]
fn scripted_sum_matches_import() {
    let inputs = vec![fv(1), fv(2)];
    let (pass, results) = synthesize(false, &sum_against_import(), &inputs, &committed(&[3])).unwrap();
    assert_eq!(results[2].value(), fv(3));
    assert!(pass.check().is_empty());
}

#[test]
fn scripted_sum_against_other_import_is_reported() {
    let inputs = vec![fv(1), fv(2)];
    let (pass, _) = synthesize(false, &sum_against_import(), &inputs, &committed(&[4])).unwrap();
    assert_eq!(
        pass.check(),
        vec![Violation::Equality {
            lhs: CellRef::Advice { phase: 0, offset: 2 },
            rhs: CellRef::External { index: 0 },
        }]
    );
}

#[test]
fn script_stops_at_the_first_error() {
    let steps = vec![Step::OpenPhase { phase: 0 }, Step::OpenPhase { phase: 1 }];
    assert_eq!(
        synthesize(false, &steps, &vec![], &RegionAllocator::new(0, 0)).err(),
        Some(StepFailure { step: 1, error: BridgeError::PhaseOrderViolation })
    );
    let missing = RegionAllocator::new(1, 1);
    assert_eq!(
        synthesize(false, &sum_against_import(), &vec![fv(1), fv(2)], &missing).err(),
        Some(StepFailure { step: 4, error: BridgeError::UnresolvedExternalCell })
    );
}

#[test]
fn keygen_run_has_the_layout_of_a_proving_run() {
    let proving = synthesize(false, &sum_against_import(), &vec![fv(1), fv(2)], &committed(&[3]))
        .unwrap()
        .0;
    let keygen = synthesize(true, &sum_against_import(), &vec![fv(0), fv(0)], &RegionAllocator::new(1, 4))
        .unwrap()
        .0;
    assert_eq!(proving.phase_len(0), keygen.phase_len(0));
    assert_eq!(proving.num_gates(), keygen.num_gates());
    assert_eq!(proving.gate(0), keygen.gate(0));
    assert_eq!(proving.manager().num_equalities(), keygen.manager().num_equalities());
    assert_eq!(proving.manager().equality(0), keygen.manager().equality(0));
    assert_eq!(keygen.manager().external_value(0), Some(FieldValue::zero()));
}

#[test]
fn runs_on_other_witness_values_share_the_layout() {
    let first = synthesize(false, &sum_against_import(), &vec![fv(1), fv(2)], &committed(&[3]))
        .unwrap()
        .0;
    let second = synthesize(false, &sum_against_import(), &vec![fv(5), fv(7)], &committed(&[9]))
        .unwrap()
        .0;
    assert_eq!(first.phase_len(0), second.phase_len(0));
    assert_eq!(first.gate(0), second.gate(0));
    assert_eq!(first.manager().equality(0), second.manager().equality(0));
    assert!(first.check().is_empty());
    assert_eq!(second.check().len(), 1);
}

#[test]
fn operands_must_name_earlier_results() {
    let forward = vec![Step::OpenPhase { phase: 0 }, Step::Add { phase: 0, lhs: 0, rhs: 0 }];
    assert!(!check_operands(&forward, 0));
    let no_input = vec![Step::OpenPhase { phase: 0 }, Step::Witness { phase: 0, input: 2 }];
    assert!(!check_operands(&no_input, 2));
    assert!(check_operands(&no_input, 3));
    assert!(!check_operands(&vec![Step::ConstrainEqual { lhs: 0, rhs: 0 }], 1));
    assert!(check_operands(&sum_against_import(), 2));
}

#[test]
fn single_phase_parameters() {
    let p = CircuitParams::single_phase();
    assert_eq!(p.k, K);
    assert_eq!(K, 6);
    assert_eq!(p.num_advice_per_phase, vec![1]);
    assert_eq!(p.num_fixed, 1);
    assert_eq!(p.num_lookup_advice_per_phase, vec![1]);
    assert_eq!(p.lookup_bits, Some(2));
    assert_eq!(p.num_instance_columns, 0);
}
