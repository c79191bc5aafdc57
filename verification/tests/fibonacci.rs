use plonkish::circuit::Layouter;
use plonkish::column::Cell;
use plonkish::dev::{check, unbound_instance_rows, Violation};
use plonkish::fibonacci::{example1, example2, example3, example4};
use plonkish::field::Fp;
use plonkish::plonk::ConstraintSystem;

#[test]
fn example1_test_circuit() {
    let mut cs = ConstraintSystem::new();
    let config = example1::MyCircuit::configure(&mut cs);
    let instance = vec![vec![Fp::from(1), Fp::from(1), Fp::from(55)]];
    let mut layouter = Layouter::new(4, &cs, instance).unwrap();
    let circuit = example1::MyCircuit {};
    circuit.synthesize(config, &mut layouter, &cs).unwrap();
    let violations = check(&cs, &layouter.asn).unwrap();
    assert!(violations.is_empty());
}

#[test]
fn example2_test_circuit() {
    let mut cs = ConstraintSystem::new();
    let config = example2::MyCircuit::configure(&mut cs);
    let public_input = vec![vec![Fp::from(1), Fp::from(1), Fp::from(55)]];
    let mut layouter = Layouter::new(4, &cs, public_input).unwrap();
    let circuit = example2::MyCircuit {};
    circuit.synthesize(config, &mut layouter, &cs).unwrap();
    let violations = check(&cs, &layouter.asn).unwrap();
    assert!(violations.is_empty());
}

#[test]
fn example3_test_circuit() {
    let mut cs = ConstraintSystem::new();
    let config = example3::MyCircuit::configure(&mut cs);
    let public_input = vec![vec![Fp::from(1), Fp::from(1), Fp::from(55)]];
    let mut layouter = Layouter::new(4, &cs, public_input).unwrap();
    let circuit = example3::MyCircuit {};
    circuit.synthesize(config, &mut layouter, &cs).unwrap();
    let violations = check(&cs, &layouter.asn).unwrap();
    assert!(violations.is_empty());
}

#[test]
fn example4_test_circuit() {
    let mut cs = ConstraintSystem::new();
    let config = example4::MyCircuit::configure(&mut cs);
    let mut layouter = Layouter::new(4, &cs, vec![]).unwrap();
    let circuit = example4::MyCircuit {
        a: Fp::from(12),
        b: Fp::from(12),
        c: Fp::from(15),
    };
    circuit.synthesize(config, &mut layouter, &cs).unwrap();
    let violations = check(&cs, &layouter.asn).unwrap();
    assert!(violations.is_empty());
}

#[test]
fn example4_differing_inputs_select_difference() {
    let mut cs = ConstraintSystem::new();
    let config = example4::MyCircuit::configure(&mut cs);
    let mut layouter = Layouter::new(4, &cs, vec![]).unwrap();
    let circuit = example4::MyCircuit {
        a: Fp::from(20),
        b: Fp::from(7),
        c: Fp::from(100),
    };
    circuit.synthesize(config, &mut layouter, &cs).unwrap();
    let violations = check(&cs, &layouter.asn).unwrap();
    assert!(violations.is_empty());
}

// A two-column recurrence seeded with 1, 1 reaches the value 13, and binding
// that cell against a matching public input must satisfy.
#[test]
fn recurrence_reaches_thirteen() {
    let mut cs = ConstraintSystem::new();
    let config = example2::FibonacciChip::configure(&mut cs);
    let instance = vec![vec![Fp::from(1), Fp::from(1), Fp::from(13)]];
    let mut layouter = Layouter::new(4, &cs, instance).unwrap();
    let chip = example2::FibonacciChip::construct(config);
    let (a_cell, _b_cell) = chip.assign_row(&mut layouter, &cs, 4).unwrap();
    assert_eq!(a_cell.value, Fp::from(13));
    chip.expose_public(&mut layouter, &cs, &a_cell, 2).unwrap();
    let violations = check(&cs, &layouter.asn).unwrap();
    assert!(violations.is_empty());
}

// The same recurrence bound against a wrong public input must violate
// exactly the instance copy constraint.
#[test]
fn recurrence_wrong_instance_fails_binding() {
    let mut cs = ConstraintSystem::new();
    let config = example2::FibonacciChip::configure(&mut cs);
    let instance = vec![vec![Fp::from(1), Fp::from(1), Fp::from(12)]];
    let mut layouter = Layouter::new(4, &cs, instance).unwrap();
    let chip = example2::FibonacciChip::construct(config);
    let (a_cell, _b_cell) = chip.assign_row(&mut layouter, &cs, 4).unwrap();
    chip.expose_public(&mut layouter, &cs, &a_cell, 2).unwrap();
    let violations = check(&cs, &layouter.asn).unwrap();
    assert_eq!(
        violations,
        vec![Violation::CopyMismatch {
            index: 2,
            left: Cell { column: config.col_a, row: 3 },
            right: Cell { column: config.instance, row: 2 },
        }]
    );
}

// Binding the same cell to the same instance row twice does not change the
// verdict.
#[test]
fn instance_binding_idempotent() {
    let mut cs = ConstraintSystem::new();
    let config = example2::FibonacciChip::configure(&mut cs);
    let instance = vec![vec![Fp::from(1), Fp::from(1), Fp::from(55)]];
    let mut layouter = Layouter::new(4, &cs, instance).unwrap();
    let chip = example2::FibonacciChip::construct(config);
    let (_a_cell, b_cell) = chip.assign_row(&mut layouter, &cs, 5).unwrap();
    chip.expose_public(&mut layouter, &cs, &b_cell, 2).unwrap();
    let once = check(&cs, &layouter.asn).unwrap();
    chip.expose_public(&mut layouter, &cs, &b_cell, 2).unwrap();
    let twice = check(&cs, &layouter.asn).unwrap();
    assert_eq!(once.is_empty(), twice.is_empty());
    assert!(twice.is_empty());
}

// Perturbing an assigned cell that gates and copy constraints reference is
// never invisible: the checker reports a violation touching it.
#[test]
fn perturbed_cell_is_reported() {
    let mut cs = ConstraintSystem::new();
    let config = example1::MyCircuit::configure(&mut cs);
    let instance = vec![vec![Fp::from(1), Fp::from(1), Fp::from(55)]];
    let mut layouter = Layouter::new(4, &cs, instance).unwrap();
    let circuit = example1::MyCircuit {};
    circuit.synthesize(config, &mut layouter, &cs).unwrap();
    assert!(check(&cs, &layouter.asn).unwrap().is_empty());
    // flip the final cell of the chain
    layouter.asn.advice[config.col_c.index][7] = Some(Fp::from(54));
    let violations = check(&cs, &layouter.asn).unwrap();
    assert!(!violations.is_empty());
    let touched = violations.iter().any(|v| match v {
        Violation::Gate { row, .. } => *row == 7,
        Violation::CopyMismatch { left, right, .. } => {
            (left.column == config.col_c && left.row == 7)
                || (right.column == config.col_c && right.row == 7)
        }
        _ => false,
    });
    assert!(touched);
}

// Too few rows or too few public inputs abort circuit construction with the
// configuration error, before any verdict is produced.
#[test]
fn synthesize_reports_configuration_errors() {
    let mut cs = ConstraintSystem::new();
    let config = example1::MyCircuit::configure(&mut cs);
    let instance = vec![vec![Fp::from(1), Fp::from(1), Fp::from(55)]];
    // k = 2 gives 4 rows, fewer than the 8 the circuit needs
    let mut layouter = Layouter::new(2, &cs, instance).unwrap();
    let circuit = example1::MyCircuit {};
    let r = circuit.synthesize(config, &mut layouter, &cs);
    assert_eq!(r.err(), Some(plonkish::error::Error::NotEnoughRows));

    let mut cs = ConstraintSystem::new();
    let config = example1::MyCircuit::configure(&mut cs);
    // only two public inputs, but the circuit binds three rows
    let instance = vec![vec![Fp::from(1), Fp::from(1)]];
    let mut layouter = Layouter::new(4, &cs, instance).unwrap();
    let circuit = example1::MyCircuit {};
    let r = circuit.synthesize(config, &mut layouter, &cs);
    assert_eq!(r.err(), Some(plonkish::error::Error::InstanceOutOfBounds));
}

// Instance rows that no copy constraint references are reported as unbound,
// and bound rows are not.
#[test]
fn unbound_instance_rows_are_listed() {
    let mut cs = ConstraintSystem::new();
    let config = example1::MyCircuit::configure(&mut cs);
    let instance = vec![vec![Fp::from(1), Fp::from(1), Fp::from(55), Fp::from(99)]];
    let mut layouter = Layouter::new(4, &cs, instance).unwrap();
    let circuit = example1::MyCircuit {};
    circuit.synthesize(config, &mut layouter, &cs).unwrap();
    let unbound = unbound_instance_rows(&layouter.asn);
    assert_eq!(unbound, vec![(0, 3)]);
}
