use halo2_bridge::cell::{load_witness, AssignedValue, CellRef, RegionCell};
use halo2_bridge::error::BridgeError;
use halo2_bridge::field::{FieldValue, MODULUS_0, MODULUS_1, MODULUS_2, MODULUS_3};
use halo2_bridge::gate::GateChip;
use halo2_bridge::region::RegionAllocator;
use halo2_bridge::synth::{AddGate, PhaseSynthesizer, Violation};

fn fv(n: u64) -> FieldValue {
    FieldValue::from_u64(n)
}

/// Phase 0 holds a = 1, b = 2 and c = a + b; returns the pass and c.
fn add_in_phase_zero(keygen: bool) -> (PhaseSynthesizer, AssignedValue) {
    let mut synth = PhaseSynthesizer::new(keygen);
    assert_eq!(synth.open_phase(0), Ok(()));
    let mut a = load_witness(fv(1));
    let mut b = load_witness(fv(2));
    assert!(synth.assign(0, &mut a).is_ok());
    assert!(synth.assign(0, &mut b).is_ok());
    let c = GateChip::new().add(&mut synth, 0, &a, &b).unwrap();
    (synth, c)
}

fn region_with(values: &[u64]) -> RegionAllocator {
    let mut region = RegionAllocator::new(1, 8);
    for (row, v) in values.iter().enumerate() {
        let cell = RegionCell { column: 0, row };
        assert_eq!(region.assign(cell, fv(*v)), Ok(cell));
    }
    region
}

#[test]
fn external_cell_matching_sum_is_satisfied() {
    let region = region_with(&[3]);
    let (mut synth, c) = add_in_phase_zero(false);
    assert_eq!(c.value(), fv(3));
    let ext = synth.import(&region, RegionCell { column: 0, row: 0 }).unwrap();
    assert_eq!(ext.value(), fv(3));
    assert_eq!(synth.constrain_equal(&c, &ext), Ok(()));
    assert_eq!(synth.close_phase(), Ok(()));
    assert_eq!(synth.finalize(), Ok(()));
    assert!(synth.check().is_empty());
}

#[test]
fn external_cell_with_other_value_reports_the_pair() {
    let region = region_with(&[4]);
    let (mut synth, c) = add_in_phase_zero(false);
    let ext = synth.import(&region, RegionCell { column: 0, row: 0 }).unwrap();
    assert_eq!(synth.constrain_equal(&c, &ext), Ok(()));
    assert_eq!(synth.close_phase(), Ok(()));
    assert_eq!(synth.finalize(), Ok(()));
    assert_eq!(
        synth.check(),
        vec![Violation::Equality {
            lhs: CellRef::Advice { phase: 0, offset: 2 },
            rhs: CellRef::External { index: 0 },
        }]
    );
}

#[test]
fn every_mismatched_pair_is_reported() {
    let region = region_with(&[2, 3]);
    let (mut synth, c) = add_in_phase_zero(false);
    let two = synth.import(&region, RegionCell { column: 0, row: 0 }).unwrap();
    let three = synth.import(&region, RegionCell { column: 0, row: 1 }).unwrap();
    assert_eq!(synth.constrain_equal(&c, &two), Ok(()));
    assert_eq!(synth.constrain_equal(&c, &three), Ok(()));
    assert_eq!(synth.close_phase(), Ok(()));
    assert_eq!(synth.finalize(), Ok(()));
    let report = synth.check();
    assert_eq!(report.len(), 1);
    assert_eq!(
        report[0],
        Violation::Equality {
            lhs: CellRef::Advice { phase: 0, offset: 2 },
            rhs: CellRef::External { index: 0 },
        }
    );
}

#[test]
fn opening_phase_one_while_phase_zero_is_open_is_refused() {
    let mut synth = PhaseSynthesizer::new(false);
    assert_eq!(synth.open_phase(0), Ok(()));
    assert_eq!(synth.open_phase(1), Err(BridgeError::PhaseOrderViolation));
    assert_eq!(synth.current_phase(), Some(0));
    assert_eq!(synth.close_phase(), Ok(()));
    assert_eq!(synth.open_phase(1), Ok(()));
    assert_eq!(synth.current_phase(), Some(1));
}

#[test]
fn phases_open_only_in_order() {
    let mut synth = PhaseSynthesizer::new(false);
    assert_eq!(synth.open_phase(1), Err(BridgeError::PhaseOrderViolation));
    assert_eq!(synth.close_phase(), Err(BridgeError::PhaseOrderViolation));
    assert_eq!(synth.open_phase(0), Ok(()));
    assert_eq!(synth.finalize(), Err(BridgeError::PhaseOrderViolation));
    assert_eq!(synth.close_phase(), Ok(()));
    assert_eq!(synth.open_phase(0), Err(BridgeError::PhaseOrderViolation));
    assert_eq!(synth.finalize(), Ok(()));
    assert_eq!(synth.open_phase(1), Err(BridgeError::PhaseOrderViolation));
    assert_eq!(synth.finalize(), Err(BridgeError::PhaseOrderViolation));
}

#[test]
fn second_assignment_is_refused_and_keeps_the_cell() {
    let mut synth = PhaseSynthesizer::new(false);
    assert_eq!(synth.open_phase(0), Ok(()));
    let mut a = load_witness(fv(5));
    assert_eq!(a.cell(), None);
    assert_eq!(synth.assign(0, &mut a), Ok(CellRef::Advice { phase: 0, offset: 0 }));
    assert_eq!(synth.assign(0, &mut a), Err(BridgeError::AlreadyAssigned));
    assert_eq!(a.cell(), Some(CellRef::Advice { phase: 0, offset: 0 }));
    assert_eq!(a.value(), fv(5));
    assert_eq!(synth.phase_len(0), 1);
}

#[test]
fn closed_phase_is_stale_and_later_phase_is_out_of_order() {
    let (mut synth, c) = add_in_phase_zero(false);
    let chip = GateChip::new();
    assert_eq!(synth.close_phase(), Ok(()));
    assert_eq!(chip.add(&mut synth, 0, &c, &c).err(), Some(BridgeError::StalePhaseReference));
    let mut d = load_witness(fv(9));
    assert_eq!(synth.assign(0, &mut d), Err(BridgeError::StalePhaseReference));
    assert_eq!(synth.assign(1, &mut d), Err(BridgeError::PhaseOrderViolation));
    assert_eq!(chip.add(&mut synth, 1, &c, &c).err(), Some(BridgeError::PhaseOrderViolation));
    assert_eq!(synth.open_phase(1), Ok(()));
    let e = chip.add(&mut synth, 1, &c, &c).unwrap();
    assert_eq!(e.value(), fv(6));
    assert_eq!(e.cell(), Some(CellRef::Advice { phase: 1, offset: 0 }));
    let g = synth.gate(synth.num_gates() - 1);
    assert_eq!(g.phase, 1);
    assert_eq!(g.lhs, CellRef::Advice { phase: 0, offset: 2 });
}

#[test]
fn gate_records_its_three_cells() {
    let (synth, c) = add_in_phase_zero(false);
    assert_eq!(synth.num_gates(), 1);
    assert_eq!(
        synth.gate(0),
        AddGate {
            phase: 0,
            lhs: CellRef::Advice { phase: 0, offset: 0 },
            rhs: CellRef::Advice { phase: 0, offset: 1 },
            out: CellRef::Advice { phase: 0, offset: 2 },
        }
    );
    assert_eq!(c.cell(), Some(CellRef::Advice { phase: 0, offset: 2 }));
    assert!(synth.holds(&c));
    assert_eq!(synth.value_of(CellRef::Advice { phase: 0, offset: 2 }), Some(fv(3)));
    assert_eq!(synth.value_of(CellRef::Advice { phase: 0, offset: 3 }), None);
}

#[test]
fn importing_a_cell_twice_gives_equal_aliases() {
    let region = region_with(&[7]);
    let mut synth = PhaseSynthesizer::new(false);
    let src = RegionCell { column: 0, row: 0 };
    let x = synth.import(&region, src).unwrap();
    let y = synth.import(&region, src).unwrap();
    assert_eq!(x.value(), y.value());
    assert_eq!(x.cell(), Some(CellRef::External { index: 0 }));
    assert_eq!(y.cell(), Some(CellRef::External { index: 1 }));
    assert_eq!(synth.constrain_equal(&x, &y), Ok(()));
    assert!(synth.check().is_empty());
    assert_eq!(synth.manager().num_equalities(), 1);
}

#[test]
fn unresolved_source_is_refused_unless_generating_keys() {
    let region = RegionAllocator::new(2, 2);
    let src = RegionCell { column: 1, row: 1 };
    let mut proving = PhaseSynthesizer::new(false);
    assert_eq!(proving.import(&region, src).err(), Some(BridgeError::UnresolvedExternalCell));
    let outside = RegionCell { column: 2, row: 0 };
    assert_eq!(proving.import(&region, outside).err(), Some(BridgeError::UnresolvedExternalCell));
    let mut keygen = PhaseSynthesizer::new(true);
    let x = keygen.import(&region, src).unwrap();
    assert_eq!(x.value(), FieldValue::zero());
    assert_eq!(keygen.manager().external_value(0), Some(FieldValue::zero()));
}

#[test]
fn import_after_finalize_is_refused() {
    let region = region_with(&[1]);
    let mut synth = PhaseSynthesizer::new(false);
    let x = synth.import(&region, RegionCell { column: 0, row: 0 }).unwrap();
    assert_eq!(synth.finalize(), Ok(()));
    assert_eq!(
        synth.import(&region, RegionCell { column: 0, row: 0 }).err(),
        Some(BridgeError::PhaseOrderViolation)
    );
    assert_eq!(synth.constrain_equal(&x, &x), Err(BridgeError::PhaseOrderViolation));
    assert!(synth.is_finalized());
}

#[test]
fn region_slot_is_written_once() {
    let mut region = RegionAllocator::new(2, 3);
    let cell = RegionCell { column: 1, row: 2 };
    assert_eq!(region.value_at(cell), None);
    assert_eq!(region.assign(cell, fv(8)), Ok(cell));
    assert_eq!(region.assign(cell, fv(9)), Err(BridgeError::AlreadyAssigned));
    assert_eq!(region.value_at(cell), Some(fv(8)));
    assert_eq!(region.value_at(RegionCell { column: 0, row: 2 }), None);
}

#[test]
fn field_addition_wraps_at_the_modulus() {
    assert_eq!(fv(1).add(&fv(2)), fv(3));
    assert_eq!(fv(1).add(&fv(2)).limbs(), (3, 0, 0, 0));
    let minus_one =
        FieldValue::from_limbs((MODULUS_0 - 1, MODULUS_1, MODULUS_2, MODULUS_3)).unwrap();
    assert_eq!(minus_one.add(&fv(1)), FieldValue::zero());
    assert_eq!(minus_one.add(&fv(5)), fv(4));
    assert_eq!(fv(u64::MAX).limbs(), (u64::MAX, 0, 0, 0));
    assert!(fv(4).equals(&fv(4)));
    assert!(!fv(4).equals(&fv(5)));
}

#[test]
fn limbs_at_or_above_the_modulus_are_refused() {
    assert_eq!(FieldValue::from_limbs((MODULUS_0, MODULUS_1, MODULUS_2, MODULUS_3)), None);
    assert_eq!(FieldValue::from_limbs((0, 0, 0, u64::MAX)), None);
    assert_eq!(FieldValue::from_limbs((3, 0, 0, 0)), Some(fv(3)));
}

#[test]
fn sum_and_witness_of_equal_value_are_satisfied() {
    let (mut synth, c) = add_in_phase_zero(false);
    let mut d = load_witness(fv(3));
    assert!(synth.assign(0, &mut d).is_ok());
    assert_eq!(synth.constrain_equal(&c, &d), Ok(()));
    assert!(synth.check().is_empty());
}

#[test]
fn two_runs_with_the_same_inputs_agree() {
    let (first, c1) = add_in_phase_zero(false);
    let (second, c2) = add_in_phase_zero(false);
    assert_eq!(c1.cell(), c2.cell());
    assert_eq!(first.num_gates(), second.num_gates());
    assert_eq!(first.gate(0), second.gate(0));
    assert_eq!(first.check(), second.check());
}
