use plonkish::circuit::Layouter;
use plonkish::dev::{check, Violation};
use plonkish::field::Fp;
use plonkish::plonk::ConstraintSystem;
use plonkish::range_check::{example1, example2};

#[test]
fn range_example1_test_circuit() {
    let mut cs = ConstraintSystem::new();
    let config = example1::MyCircuit::configure(&mut cs);
    let mut layouter = Layouter::new(4, &cs, vec![]).unwrap();
    let circuit = example1::MyCircuit { v: Fp::from(2) };
    circuit.synthesize(config, &mut layouter, &cs).unwrap();
    let violations = check(&cs, &layouter.asn).unwrap();
    assert!(violations.is_empty());
}

#[test]
fn range_example2_test_circuit() {
    let mut cs = ConstraintSystem::new();
    let config = example2::MyCircuit::configure(&mut cs);
    let mut layouter = Layouter::new(9, &cs, vec![]).unwrap();
    let circuit = example2::MyCircuit { v: Fp::from(55) };
    circuit.synthesize(config, &mut layouter, &cs).unwrap();
    let violations = check(&cs, &layouter.asn).unwrap();
    assert!(violations.is_empty());

    let mut cs = ConstraintSystem::new();
    let config = example2::MyCircuit::configure(&mut cs);
    let mut layouter = Layouter::new(9, &cs, vec![]).unwrap();
    let circuit = example2::MyCircuit { v: Fp::from(6) };
    circuit.synthesize(config, &mut layouter, &cs).unwrap();
    let violations = check(&cs, &layouter.asn).unwrap();
    assert!(violations.is_empty());
}

// For RANGE = 8, the value 8 violates exactly the range-check sub-constraint
// at its row.
#[test]
fn range_example1_rejects_eight() {
    let mut cs = ConstraintSystem::new();
    let config = example1::MyCircuit::configure(&mut cs);
    let mut layouter = Layouter::new(4, &cs, vec![]).unwrap();
    let circuit = example1::MyCircuit { v: Fp::from(8) };
    circuit.synthesize(config, &mut layouter, &cs).unwrap();
    let violations = check(&cs, &layouter.asn).unwrap();
    assert_eq!(violations, vec![Violation::Gate { gate: 0, poly: 0, row: 0 }]);
}

// For NUM_BITS = 8, the value 256 is absent from the table and violates the
// lookup membership check.
#[test]
fn range_example2_rejects_256() {
    let mut cs = ConstraintSystem::new();
    let config = example2::MyCircuit::configure(&mut cs);
    let mut layouter = Layouter::new(9, &cs, vec![]).unwrap();
    let circuit = example2::MyCircuit { v: Fp::from(256) };
    circuit.synthesize(config, &mut layouter, &cs).unwrap();
    let violations = check(&cs, &layouter.asn).unwrap();
    assert_eq!(violations, vec![Violation::LookupMiss { lookup: 0, row: 0 }]);
}

// The polynomial form and the lookup form accept and reject exactly the same
// values for the same logical range.
#[test]
fn poly_and_lookup_forms_agree() {
    for value in [0u64, 1, 6, 55, 255, 256, 257, 1000] {
        let mut cs = ConstraintSystem::new();
        let config = example1::RangeCheckChip::configure(&mut cs, 256);
        let chip = example1::RangeCheckChip::construct(config);
        let mut layouter = Layouter::new(9, &cs, vec![]).unwrap();
        chip.assign(&mut layouter, &cs, Fp::from(value)).unwrap();
        let poly_ok = check(&cs, &layouter.asn).unwrap().is_empty();

        let mut cs = ConstraintSystem::new();
        let config = example2::MyCircuit::configure(&mut cs);
        let mut layouter = Layouter::new(9, &cs, vec![]).unwrap();
        let circuit = example2::MyCircuit { v: Fp::from(value) };
        circuit.synthesize(config, &mut layouter, &cs).unwrap();
        let lookup_ok = check(&cs, &layouter.asn).unwrap().is_empty();

        assert_eq!(poly_ok, lookup_ok);
        assert_eq!(poly_ok, value < 256);
    }
}
