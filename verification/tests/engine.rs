use plonkish::circuit::Layouter;
use plonkish::column::{Cell, Column, ColumnKind};
use plonkish::dev::{check, Violation};
use plonkish::error::Error;
use plonkish::expression::Expr;
use plonkish::field::{Fp, MODULUS};
use plonkish::plonk::ConstraintSystem;
use plonkish::zkmips::instructions::SyscallNumber;

fn one_gate_system() -> (ConstraintSystem, Column, plonkish::column::Selector) {
    let mut cs = ConstraintSystem::new();
    let col = cs.advice_column();
    let sel = cs.selector();
    let mut polys: Vec<(&'static str, Expr)> = Vec::new();
    // a gate `v * v - v` holds only for 0 and 1
    polys.push((
        "boolean",
        Expr::query(col, 0).mul(Expr::query(col, 0)).sub(Expr::query(col, 0)),
    ));
    cs.create_gate("boolean", sel, polys);
    (cs, col, sel)
}

// Vacuous truth: on rows where a gate's selector is inactive, no cell value
// can produce a gate violation.
#[test]
fn inactive_selector_never_violates() {
    let (cs, col, _sel) = one_gate_system();
    let mut layouter = Layouter::new(3, &cs, vec![]).unwrap();
    layouter.start_region();
    // 7 is not boolean, but the selector stays off everywhere
    layouter.assign_advice(col, 0, Fp::from(7)).unwrap();
    layouter.end_region();
    let violations = check(&cs, &layouter.asn).unwrap();
    assert!(violations.is_empty());
}

#[test]
fn active_selector_checks_the_gate() {
    let (cs, col, sel) = one_gate_system();
    let mut layouter = Layouter::new(3, &cs, vec![]).unwrap();
    layouter.start_region();
    layouter.enable_selector(sel, 0).unwrap();
    layouter.assign_advice(col, 0, Fp::from(7)).unwrap();
    layouter.end_region();
    let violations = check(&cs, &layouter.asn).unwrap();
    assert_eq!(violations, vec![Violation::Gate { gate: 0, poly: 0, row: 0 }]);
}

#[test]
fn not_enough_rows_for_instance() {
    let mut cs = ConstraintSystem::new();
    let _ = cs.instance_column();
    let instance = vec![vec![Fp::from(1), Fp::from(1), Fp::from(55)]];
    let r = Layouter::new(1, &cs, instance);
    assert_eq!(r.err(), Some(Error::NotEnoughRows));
}

#[test]
fn reassigning_a_cell_differently_fails() {
    let (cs, col, _sel) = one_gate_system();
    let mut layouter = Layouter::new(3, &cs, vec![]).unwrap();
    layouter.start_region();
    layouter.assign_advice(col, 0, Fp::from(7)).unwrap();
    // the same value is accepted
    layouter.assign_advice(col, 0, Fp::from(7)).unwrap();
    // a different value is a configuration error
    let r = layouter.assign_advice(col, 0, Fp::from(8));
    assert_eq!(r.err(), Some(Error::AlreadyAssigned));
    layouter.end_region();
}

#[test]
fn equality_must_be_enabled_for_copies() {
    let mut cs = ConstraintSystem::new();
    let col = cs.advice_column();
    let icol = cs.instance_column();
    cs.enable_equality(icol);
    // `col` itself was never equality-enabled
    let instance = vec![vec![Fp::from(1)]];
    let mut layouter = Layouter::new(3, &cs, instance).unwrap();
    let cell = Cell { column: col, row: 0 };
    let r = layouter.constrain_instance(&cs, cell, icol, 0);
    assert_eq!(r.err(), Some(Error::EqualityNotEnabled));
}

#[test]
fn instance_row_must_exist() {
    let mut cs = ConstraintSystem::new();
    let col = cs.advice_column();
    let icol = cs.instance_column();
    cs.enable_equality(col);
    cs.enable_equality(icol);
    let instance = vec![vec![Fp::from(1)]];
    let mut layouter = Layouter::new(3, &cs, instance).unwrap();
    let cell = Cell { column: col, row: 0 };
    let r = layouter.constrain_instance(&cs, cell, icol, 5);
    assert_eq!(r.err(), Some(Error::InstanceOutOfBounds));
}

#[test]
fn rotation_out_of_bounds_is_a_configuration_error() {
    let mut cs = ConstraintSystem::new();
    let col = cs.advice_column();
    let sel = cs.selector();
    let mut polys: Vec<(&'static str, Expr)> = Vec::new();
    polys.push(("looks back", Expr::query(col, -1)));
    cs.create_gate("looks back", sel, polys);
    let mut layouter = Layouter::new(3, &cs, vec![]).unwrap();
    layouter.start_region();
    layouter.enable_selector(sel, 0).unwrap();
    layouter.end_region();
    let r = check(&cs, &layouter.asn);
    assert_eq!(r.err(), Some(Error::RotationOutOfBounds));
}

#[test]
fn undeclared_column_is_a_configuration_error() {
    let mut cs = ConstraintSystem::new();
    let _col = cs.advice_column();
    let sel = cs.selector();
    let ghost_col = Column { kind: ColumnKind::Advice, index: 9 };
    let mut polys: Vec<(&'static str, Expr)> = Vec::new();
    polys.push(("phantom", Expr::query(ghost_col, 0)));
    cs.create_gate("phantom", sel, polys);
    let mut layouter = Layouter::new(3, &cs, vec![]).unwrap();
    layouter.start_region();
    layouter.enable_selector(sel, 0).unwrap();
    layouter.end_region();
    let r = check(&cs, &layouter.asn);
    assert_eq!(r.err(), Some(Error::ColumnOutOfBounds));
}

#[test]
fn error_descriptions_name_the_fault() {
    assert!(Error::NotEnoughRows.describe().contains("rows"));
    assert!(Error::AlreadyAssigned.describe().contains("re-assigned"));
    assert!(Error::Synthesis.describe().contains("witness"));
}

#[test]
fn field_arithmetic_wraps_at_the_modulus() {
    assert_eq!(Fp::from(65520).add(Fp::from(5)), Fp::from(4));
    assert_eq!(Fp::from(3).sub(Fp::from(5)), Fp::from(MODULUS - 2));
    assert_eq!(Fp::from(300).mul(Fp::from(300)), Fp::from(90000 % MODULUS));
    assert_eq!(Fp::from(1).neg(), Fp::from(MODULUS - 1));
    assert_eq!(Fp::zero().neg(), Fp::zero());
    assert_eq!(Fp::from(55).repr(), 55);
}

#[test]
fn field_inverse_multiplies_to_one() {
    let x = Fp::from(3);
    let inv = x.invert().unwrap();
    assert_eq!(x.mul(inv), Fp::one());
    assert_eq!(Fp::zero().invert(), None);
}

#[test]
fn syscall_numbers_match_the_kernel_table() {
    assert_eq!(SyscallNumber::MMAP.number(), 4090);
    assert_eq!(SyscallNumber::BRK.number(), 4045);
    assert_eq!(SyscallNumber::CLONE.number(), 4120);
    assert_eq!(SyscallNumber::EXIT.number(), 4246);
    assert_eq!(SyscallNumber::READ.number(), 4003);
    assert_eq!(SyscallNumber::WRITE.number(), 4004);
    assert_eq!(SyscallNumber::FCNTL.number(), 4055);
}
