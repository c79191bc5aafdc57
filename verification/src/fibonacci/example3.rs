//! A recurrence over a single advice column: one gate reads three
//! consecutive rows (rotations 0, 1 and 2), so each sequence element sits in
//! its own row and no copy constraints chain the steps.

use vstd::prelude::*;
use crate::circuit::Layouter;
use crate::column::{AssignedCell, Cell, Column, ColumnKind, Selector};
use crate::dev::instance_cell;
use crate::error::Error;
use crate::circuit::Assignment;
use crate::dev::{copies_ok, copy_violated, eval, gate_violated, gates_ok, lookups_ok, satisfied};
use crate::expression::Expr;
use crate::fibonacci::fib_spec;
use crate::field::{fadd, fneg};
use crate::plonk::ConstraintSystem;

verus! {

/// The column and selector the chip works with.
#[derive(Clone, Copy, PartialEq, Eq, Structural, Debug)]
pub struct FibonacciConfig {
    pub advice: Column,
    pub selector: Selector,
    pub instance: Column,
}

impl FibonacciConfig {
    /// One equality-enabled advice column, a selector, and an
    /// equality-enabled instance column, all declared in `cs`.
    pub open spec fn wf(self, cs: ConstraintSystem) -> bool {
        &&& self.advice.kind == ColumnKind::Advice && self.advice.index < cs.num_advice
        &&& self.selector.index < cs.num_selectors
        &&& self.instance.kind == ColumnKind::Instance && self.instance.index < cs.num_instance
        &&& cs.eq_enabled(self.advice)
        &&& cs.eq_enabled(self.instance)
    }
}

/// The window polynomial: `f(r) + f(r + 1) - f(r + 2)` on the one column.
pub open spec fn window_poly(config: FibonacciConfig) -> Expr {
    Expr::Sum(
        Box::new(
            Expr::Sum(
                Box::new(Expr::Query(config.advice, 0)),
                Box::new(Expr::Query(config.advice, 1)),
            ),
        ),
        Box::new(Expr::Negated(Box::new(Expr::Query(config.advice, 2)))),
    )
}

pub struct FibonacciChip {
    pub config: FibonacciConfig,
}

impl FibonacciChip {
    pub fn construct(config: FibonacciConfig) -> (chip: FibonacciChip)
        ensures
            chip.config == config,
    {
        FibonacciChip { config }
    }

    /// Declares the chip's column and the three-row window gate.
    pub fn configure(cs: &mut ConstraintSystem) -> (config: FibonacciConfig)
        requires
            old(cs).wf(),
            old(cs).num_advice < usize::MAX,
            old(cs).num_instance < usize::MAX,
            old(cs).num_selectors < usize::MAX,
        ensures
            final(cs).wf(),
            config.wf(*final(cs)),
            config.advice == (Column { kind: ColumnKind::Advice, index: old(cs).num_advice }),
            config.selector == (Selector { index: old(cs).num_selectors, complex: false }),
            config.instance == (Column {
                kind: ColumnKind::Instance,
                index: old(cs).num_instance,
            }),
            final(cs).num_advice == old(cs).num_advice + 1,
            final(cs).num_fixed == old(cs).num_fixed,
            final(cs).num_instance == old(cs).num_instance + 1,
            final(cs).num_tables == old(cs).num_tables,
            final(cs).num_selectors == old(cs).num_selectors + 1,
            final(cs).advice_eq@ == old(cs).advice_eq@.push(true),
            final(cs).instance_eq@ == old(cs).instance_eq@.push(true),
            final(cs).lookups == old(cs).lookups,
            final(cs).gates@.len() == old(cs).gates@.len() + 1,
            forall|g: int|
                0 <= g < old(cs).gates@.len() ==> final(cs).gates@[g] == old(cs).gates@[g],
            final(cs).gates@.last().name == "add",
            final(cs).gates@.last().selector == config.selector,
            final(cs).gates@.last().polys@.len() == 1,
            final(cs).gates@.last().polys@[0].0 == "add",
            final(cs).gates@.last().polys@[0].1 == window_poly(config),
    {
        let advice = cs.advice_column();
        let selector = cs.selector();
        let instance = cs.instance_column();
        cs.enable_equality(advice);
        cs.enable_equality(instance);
        let poly = Expr::query(advice, 0).add(Expr::query(advice, 1)).sub(
            Expr::query(advice, 2),
        );
        let mut polys: Vec<(&'static str, Expr)> = Vec::new();
        polys.push(("add", poly));
        cs.create_gate("add", selector, polys);
        proof {
            assert(cs.advice_eq@ =~= old(cs).advice_eq@.push(true));
            assert(cs.instance_eq@ =~= old(cs).instance_eq@.push(true));
        }
        FibonacciConfig { advice, selector, instance }
    }

    /// Fills one region with the whole table: row `r` holds element `r` of
    /// the sequence, the seeds are copied from the first two public inputs,
    /// and the window gate is active wherever three rows remain.
    pub fn assign_row(&self, l: &mut Layouter, cs: &ConstraintSystem, nrows: usize) -> (r: Result<
        AssignedCell,
        Error,
    >)
        requires
            old(l).wf(),
            !old(l).in_region,
            old(l).asn.wf(*cs),
            self.config.wf(*cs),
            3 <= nrows,
        ensures
            final(l).wf(),
            final(l).asn.wf(*cs),
            !final(l).in_region,
            final(l).asn.n == old(l).asn.n,
            final(l).asn.instance == old(l).asn.instance,
            (r is Ok <==> old(l).offset + nrows <= old(l).asn.n && old(
                l,
            ).asn.instance[self.config.instance.index as int].len() >= 2),
            r is Err ==> *final(l) == *old(l) && (r->Err_0 == Error::NotEnoughRows <==> old(
                l,
            ).offset + nrows > old(l).asn.n) && (r->Err_0 == Error::InstanceOutOfBounds <==> old(
                l,
            ).offset + nrows <= old(l).asn.n && old(
                l,
            ).asn.instance[self.config.instance.index as int].len() < 2),
            r is Ok ==> ({
                let base = old(l).offset as int;
                let i0 = old(l).asn.instance[self.config.instance.index as int][0]@;
                let i1 = old(l).asn.instance[self.config.instance.index as int][1]@;
                let out = r->Ok_0;
                &&& final(l).offset == old(l).offset + nrows
                &&& out.cell == (Cell {
                    column: self.config.advice,
                    row: (old(l).offset + nrows - 1) as usize,
                })
                &&& out.value@ == fib_spec(i0, i1, (nrows - 1) as nat)
                &&& forall|rr: int|
                    base <= rr < base + nrows ==> (#[trigger] final(l).asn.val(
                        self.config.advice,
                        rr,
                    )) == fib_spec(i0, i1, (rr - base) as nat)
                &&& forall|rr: int|
                    base <= rr < base + nrows - 2 ==> (#[trigger] final(l).asn.sel(
                        self.config.selector.index as int,
                        rr,
                    ))
                &&& final(l).asn.copies@ == old(l).asn.copies@.push(
                    (
                        instance_cell(self.config.instance.index, 0),
                        Cell { column: self.config.advice, row: old(l).offset },
                    ),
                ).push(
                    (
                        instance_cell(self.config.instance.index, 1),
                        Cell { column: self.config.advice, row: (old(l).offset + 1) as usize },
                    ),
                )
                &&& final(l).asn.fixed == old(l).asn.fixed
                &&& final(l).asn.tables == old(l).asn.tables
                &&& forall|j: int|
                    0 <= j < final(l).asn.advice.len() && j != self.config.advice.index ==> (
                    #[trigger] final(l).asn.advice[j]) == old(l).asn.advice[j]
                &&& forall|rr: int|
                    0 <= rr < final(l).asn.n && !(base <= rr < base + nrows) ==> (
                    #[trigger] final(l).asn.advice[self.config.advice.index as int][rr]) == old(
                        l,
                    ).asn.advice[self.config.advice.index as int][rr]
                &&& forall|j: int|
                    0 <= j < final(l).asn.selectors.len() && j != self.config.selector.index ==> (
                    #[trigger] final(l).asn.selectors[j]) == old(l).asn.selectors[j]
                &&& forall|rr: int|
                    0 <= rr < final(l).asn.n && !(base <= rr < base + 2) && !(base <= rr < base
                        + nrows - 2) ==> (
                    #[trigger] final(l).asn.selectors[self.config.selector.index as int][rr])
                        == old(l).asn.selectors[self.config.selector.index as int][rr]
            }),
    {
        if nrows > l.asn.n - l.offset {
            return Err(Error::NotEnoughRows);
        }
        if l.asn.instance[self.config.instance.index].len() < 2 {
            return Err(Error::InstanceOutOfBounds);
        }
        let ghost i0 = l.asn.instance[self.config.instance.index as int][0]@;
        let ghost i1 = l.asn.instance[self.config.instance.index as int][1]@;
        let ghost base = l.offset as int;
        l.start_region();
        let a_seed = match l.assign_advice_from_instance(
            cs,
            self.config.instance,
            0,
            self.config.advice,
            0,
        ) {
            Ok(c) => c,
            Err(_) => {
                proof {
                    assert(false);
                }
                return Err(Error::Synthesis);
            },
        };
        let b_seed = match l.assign_advice_from_instance(
            cs,
            self.config.instance,
            1,
            self.config.advice,
            1,
        ) {
            Ok(c) => c,
            Err(_) => {
                proof {
                    assert(false);
                }
                return Err(Error::Synthesis);
            },
        };
        match l.enable_selector(self.config.selector, 0) {
            Ok(()) => {},
            Err(_) => {
                proof {
                    assert(false);
                }
                return Err(Error::Synthesis);
            },
        };
        match l.enable_selector(self.config.selector, 1) {
            Ok(()) => {},
            Err(_) => {
                proof {
                    assert(false);
                }
                return Err(Error::Synthesis);
            },
        };
        proof {
            assert(fib_spec(i0, i1, 0) == i0);
            assert(fib_spec(i0, i1, 1) == i1);
        }
        let mut a_cell = a_seed;
        let mut b_cell = b_seed;
        let mut row: usize = 2;
        while row < nrows
            invariant
                2 <= row <= nrows,
                l.wf(),
                l.in_region,
                l.asn.wf(*cs),
                self.config.wf(*cs),
                l.asn.n == old(l).asn.n,
                l.asn.instance == old(l).asn.instance,
                base == old(l).offset as int,
                base + nrows <= l.asn.n,
                l.region_base == base,
                l.offset == base,
                l.region_used == row,
                i0 == old(l).asn.instance[self.config.instance.index as int][0]@,
                i1 == old(l).asn.instance[self.config.instance.index as int][1]@,
                a_cell.value@ == fib_spec(i0, i1, (row - 2) as nat),
                b_cell.value@ == fib_spec(i0, i1, (row - 1) as nat),
                b_cell.cell == (Cell { column: self.config.advice, row: (base + row - 1) as usize }),
                forall|rr: int|
                    base <= rr < base + row ==> (#[trigger] l.asn.val(self.config.advice, rr))
                        == fib_spec(i0, i1, (rr - base) as nat),
                forall|rr: int|
                    base <= rr < base + row && rr - base < nrows - 2 ==> (#[trigger] l.asn.sel(
                        self.config.selector.index as int,
                        rr,
                    )),
                l.asn.copies@ == old(l).asn.copies@.push(
                    (
                        instance_cell(self.config.instance.index, 0),
                        Cell { column: self.config.advice, row: old(l).offset },
                    ),
                ).push(
                    (
                        instance_cell(self.config.instance.index, 1),
                        Cell { column: self.config.advice, row: (old(l).offset + 1) as usize },
                    ),
                ),
                l.asn.fixed == old(l).asn.fixed,
                l.asn.tables == old(l).asn.tables,
                forall|j: int|
                    0 <= j < l.asn.advice.len() && j != self.config.advice.index ==> (
                    #[trigger] l.asn.advice[j]) == old(l).asn.advice[j],
                forall|rr: int|
                    0 <= rr < l.asn.n && !(base <= rr < base + row) ==> (
                    #[trigger] l.asn.advice[self.config.advice.index as int][rr]) == old(
                        l,
                    ).asn.advice[self.config.advice.index as int][rr],
                forall|j: int|
                    0 <= j < l.asn.selectors.len() && j != self.config.selector.index ==> (
                    #[trigger] l.asn.selectors[j]) == old(l).asn.selectors[j],
                forall|rr: int|
                    0 <= rr < l.asn.n && !(base <= rr < base + 2) && !(base <= rr < base + row
                        && rr - base < nrows - 2) ==> (
                    #[trigger] l.asn.selectors[self.config.selector.index as int][rr]) == old(
                        l,
                    ).asn.selectors[self.config.selector.index as int][rr],
            decreases nrows - row,
        {
            let ghost lrow = *l;
            if row < nrows - 2 {
                match l.enable_selector(self.config.selector, row) {
                    Ok(()) => {},
                    Err(_) => {
                        proof {
                            assert(false);
                        }
                        return Err(Error::Synthesis);
                    },
                };
            }
            proof {
                assert(l.asn.advice[self.config.advice.index as int]
                    == lrow.asn.advice[self.config.advice.index as int]);
                assert(lrow.asn.advice[self.config.advice.index as int][base + row] is None);
            }
            let sum = a_cell.value.add(b_cell.value);
            let c_cell = match l.assign_advice(self.config.advice, row, sum) {
                Ok(c) => c,
                Err(_) => {
                    proof {
                        assert(false);
                    }
                    return Err(Error::Synthesis);
                },
            };
            proof {
                assert(fib_spec(i0, i1, row as nat) == fadd(
                    fib_spec(i0, i1, (row - 2) as nat),
                    fib_spec(i0, i1, (row - 1) as nat),
                ));
                assert(l.asn.advice[self.config.advice.index as int]@
                    == lrow.asn.advice[self.config.advice.index as int]@.update(
                    base + row,
                    Some(sum),
                ));
                assert forall|rr: int| base <= rr < base + row implies (#[trigger] l.asn.val(
                    self.config.advice,
                    rr,
                )) == fib_spec(i0, i1, (rr - base) as nat) by {
                    assert(lrow.asn.val(self.config.advice, rr) == fib_spec(
                        i0,
                        i1,
                        (rr - base) as nat,
                    ));
                }
                assert forall|rr: int| base <= rr < base + row + 1 && rr - base < nrows - 2 implies (
                #[trigger] l.asn.sel(self.config.selector.index as int, rr)) by {
                    if rr < base + row {
                        assert(lrow.asn.sel(self.config.selector.index as int, rr));
                    }
                }
            }
            a_cell = b_cell;
            b_cell = c_cell;
            row = row + 1;
        }
        l.end_region();
        Ok(b_cell)
    }

    /// Binds an already-assigned cell to row `row` of the public-input
    /// column.
    pub fn expose_public(
        &self,
        l: &mut Layouter,
        cs: &ConstraintSystem,
        cell: &AssignedCell,
        row: usize,
    ) -> (r: Result<(), Error>)
        requires
            old(l).wf(),
            old(l).asn.wf(*cs),
            self.config.wf(*cs),
            old(l).asn.cell_wf(cell.cell),
            cs.eq_enabled(cell.cell.column),
        ensures
            final(l).wf(),
            final(l).asn.wf(*cs),
            final(l).in_region == old(l).in_region,
            final(l).offset == old(l).offset,
            final(l).asn.n == old(l).asn.n,
            final(l).asn.instance == old(l).asn.instance,
            match r {
                Ok(()) => {
                    &&& row < old(l).asn.instance[self.config.instance.index as int].len()
                    &&& crate::circuit::copies_pushed(
                        old(l).asn,
                        final(l).asn,
                        (cell.cell, instance_cell(self.config.instance.index, row)),
                    )
                },
                Err(e) => {
                    &&& *final(l) == *old(l)
                    &&& e == Error::InstanceOutOfBounds
                    &&& row >= old(l).asn.instance[self.config.instance.index as int].len()
                },
            },
    {
        l.constrain_instance(cs, cell.cell(), self.config.instance, row)
    }
}

/// End to end: on the grid `synthesize` fills into a fresh layouter, the
/// circuit is satisfied exactly when the third public input equals element
/// 9 of the recurrence seeded by the first two. The contracts of
/// `configure`, `Layouter::new` and `synthesize` supply every premise.
pub proof fn lemma_synthesized_satisfied(
    cs: ConstraintSystem,
    config: FibonacciConfig,
    a: Assignment,
)
    requires
        config.wf(cs),
        cs.gates.len() == 1,
        cs.gates[0].selector == config.selector,
        cs.gates[0].polys.len() == 1,
        cs.gates[0].polys[0].1 == window_poly(config),
        cs.lookups.len() == 0,
        10 <= a.n,
        config.instance.index < a.instance.len(),
        a.instance[config.instance.index as int].len() >= 3,
        a.copies@.len() == 3,
        a.copies@[0] == (
            instance_cell(config.instance.index, 0),
            Cell { column: config.advice, row: 0 },
        ),
        a.copies@[1] == (
            instance_cell(config.instance.index, 1),
            Cell { column: config.advice, row: 1 },
        ),
        a.copies@[2] == (
            Cell { column: config.advice, row: 9 },
            instance_cell(config.instance.index, 2),
        ),
        forall|rr: int|
            0 <= rr < 10 ==> a.val(config.advice, rr) == fib_spec(
                a.instance[config.instance.index as int][0]@,
                a.instance[config.instance.index as int][1]@,
                rr as nat,
            ),
        forall|rr: int| 0 <= rr < 8 ==> a.sel(config.selector.index as int, rr),
        forall|rr: int| 8 <= rr < a.n ==> !(#[trigger] a.sel(config.selector.index as int, rr)),
    ensures
        satisfied(cs, a) <==> a.instance[config.instance.index as int][2]@ == fib_spec(
            a.instance[config.instance.index as int][0]@,
            a.instance[config.instance.index as int][1]@,
            9,
        ),
{
    let idx = config.instance.index as int;
    let i0 = a.instance[idx][0]@;
    let i1 = a.instance[idx][1]@;
    let out = a.instance[idx][2]@;
    assert forall|gi: int, pi: int, row: int|
        0 <= gi < cs.gates.len() && 0 <= pi < cs.gates[gi].polys.len() && 0 <= row
            < a.n implies !gate_violated(cs, a, gi, pi, row) by {
        if row < 8 {
            let q0 = Expr::Query(config.advice, 0);
            let q1 = Expr::Query(config.advice, 1);
            let q2 = Expr::Query(config.advice, 2);
            let lhs = Expr::Sum(Box::new(q0), Box::new(q1));
            let neg2 = Expr::Negated(Box::new(q2));
            assert(window_poly(config) == Expr::Sum(Box::new(lhs), Box::new(neg2)));
            assert(eval(q0, a, row) == a.val(config.advice, row));
            assert(eval(q1, a, row) == a.val(config.advice, row + 1));
            assert(eval(q2, a, row) == a.val(config.advice, row + 2));
            assert(eval(lhs, a, row) == fadd(eval(q0, a, row), eval(q1, a, row)));
            assert(eval(neg2, a, row) == fneg(eval(q2, a, row)));
            assert(eval(window_poly(config), a, row) == fadd(
                eval(lhs, a, row),
                eval(neg2, a, row),
            ));
            assert(fib_spec(i0, i1, (row + 2) as nat) == fadd(
                fib_spec(i0, i1, row as nat),
                fib_spec(i0, i1, (row + 1) as nat),
            ));
            let x = fadd(a.val(config.advice, row), a.val(config.advice, row + 1));
            assert(a.val(config.advice, row + 2) == x);
            vstd::arithmetic::div_mod::lemma_add_mod_noop_right(
                x,
                -x,
                crate::field::modulus(),
            );
            vstd::arithmetic::div_mod::lemma_small_mod(0nat, crate::field::MODULUS as nat);
            assert(fadd(x, fneg(x)) == 0);
        } else {
            assert(!a.sel(config.selector.index as int, row));
        }
    }
    assert(gates_ok(cs, a));
    assert(lookups_ok(cs, a));
    assert(!copy_violated(a, 0)) by {
        assert(a.val(config.advice, 0) == fib_spec(i0, i1, 0));
    }
    assert(!copy_violated(a, 1)) by {
        assert(a.val(config.advice, 1) == fib_spec(i0, i1, 1));
    }
    assert(a.val(config.advice, 9) == fib_spec(i0, i1, 9));
    assert(copy_violated(a, 2) <==> fib_spec(i0, i1, 9) != out);
    if out == fib_spec(i0, i1, 9) {
        assert forall|ci: int| 0 <= ci < a.copies@.len() implies !copy_violated(a, ci) by {
            assert(ci == 0 || ci == 1 || ci == 2);
        }
        assert(copies_ok(a));
    } else {
        assert(copy_violated(a, 2));
        assert(!copies_ok(a));
    }
}

/// The circuit itself: ten sequence elements in one column, with the last
/// one exposed against public-input row 2.
pub struct MyCircuit {}

impl MyCircuit {
    /// Declares the chip's column and gate.
    pub fn configure(cs: &mut ConstraintSystem) -> (config: FibonacciConfig)
        requires
            old(cs).wf(),
            old(cs).num_advice < usize::MAX,
            old(cs).num_instance < usize::MAX,
            old(cs).num_selectors < usize::MAX,
        ensures
            final(cs).wf(),
            config.wf(*final(cs)),
            config.advice == (Column { kind: ColumnKind::Advice, index: old(cs).num_advice }),
            config.selector == (Selector { index: old(cs).num_selectors, complex: false }),
            config.instance == (Column {
                kind: ColumnKind::Instance,
                index: old(cs).num_instance,
            }),
            final(cs).num_advice == old(cs).num_advice + 1,
            final(cs).num_fixed == old(cs).num_fixed,
            final(cs).num_instance == old(cs).num_instance + 1,
            final(cs).num_tables == old(cs).num_tables,
            final(cs).num_selectors == old(cs).num_selectors + 1,
            final(cs).advice_eq@ == old(cs).advice_eq@.push(true),
            final(cs).instance_eq@ == old(cs).instance_eq@.push(true),
            final(cs).lookups == old(cs).lookups,
            final(cs).gates@.len() == old(cs).gates@.len() + 1,
            forall|g: int|
                0 <= g < old(cs).gates@.len() ==> final(cs).gates@[g] == old(cs).gates@[g],
            final(cs).gates@.last().name == "add",
            final(cs).gates@.last().selector == config.selector,
            final(cs).gates@.last().polys@.len() == 1,
            final(cs).gates@.last().polys@[0].0 == "add",
            final(cs).gates@.last().polys@[0].1 == window_poly(config),
    {
        FibonacciChip::configure(cs)
    }

    /// Fills ten rows of the column and binds the last one to public-input
    /// row 2. Succeeds exactly when ten rows fit the domain and three public
    /// inputs were supplied; otherwise the configuration error comes back
    /// untouched.
    #[verifier::loop_isolation(false)]
    pub fn synthesize(&self, config: FibonacciConfig, l: &mut Layouter, cs: &ConstraintSystem) -> (r:
        Result<(), Error>)
        requires
            old(l).wf(),
            !old(l).in_region,
            old(l).offset == 0,
            old(l).asn.wf(*cs),
            config.wf(*cs),
        ensures
            final(l).wf(),
            final(l).asn.wf(*cs),
            !final(l).in_region,
            final(l).asn.n == old(l).asn.n,
            final(l).asn.instance == old(l).asn.instance,
            (r is Ok <==> old(l).asn.n >= 10 && old(
                l,
            ).asn.instance[config.instance.index as int].len() >= 3),
            r is Err ==> *final(l) == *old(l) && (r->Err_0 == Error::NotEnoughRows <==> old(
                l,
            ).asn.n < 10) && (r->Err_0 == Error::InstanceOutOfBounds <==> old(l).asn.n >= 10 && old(
                l,
            ).asn.instance[config.instance.index as int].len() < 3),
            r is Ok ==> ({
                let i0 = old(l).asn.instance[config.instance.index as int][0]@;
                let i1 = old(l).asn.instance[config.instance.index as int][1]@;
                &&& final(l).offset == 10
                &&& forall|rr: int|
                    0 <= rr < 10 ==> final(l).asn.val(config.advice, rr) == fib_spec(
                        i0,
                        i1,
                        rr as nat,
                    )
                &&& forall|rr: int| 0 <= rr < 8 ==> final(l).asn.sel(config.selector.index as int, rr)
                &&& final(l).asn.copies@ == old(l).asn.copies@.push(
                    (instance_cell(config.instance.index, 0), Cell { column: config.advice, row: 0 }),
                ).push(
                    (instance_cell(config.instance.index, 1), Cell { column: config.advice, row: 1 }),
                ).push(
                    (Cell { column: config.advice, row: 9 }, instance_cell(config.instance.index, 2)),
                )
                &&& final(l).asn.fixed == old(l).asn.fixed
                &&& final(l).asn.tables == old(l).asn.tables
                &&& forall|j: int|
                    0 <= j < final(l).asn.advice.len() && j != config.advice.index ==> (
                    #[trigger] final(l).asn.advice[j]) == old(l).asn.advice[j]
                &&& forall|rr: int|
                    10 <= rr < final(l).asn.n ==> (
                    #[trigger] final(l).asn.advice[config.advice.index as int][rr]) == old(
                        l,
                    ).asn.advice[config.advice.index as int][rr]
                &&& forall|j: int|
                    0 <= j < final(l).asn.selectors.len() && j != config.selector.index ==> (
                    #[trigger] final(l).asn.selectors[j]) == old(l).asn.selectors[j]
                &&& forall|rr: int|
                    8 <= rr < final(l).asn.n ==> (
                    #[trigger] final(l).asn.selectors[config.selector.index as int][rr]) == old(
                        l,
                    ).asn.selectors[config.selector.index as int][rr]
            }),
    {
        if l.asn.n < 10 {
            return Err(Error::NotEnoughRows);
        }
        if l.asn.instance[config.instance.index].len() < 3 {
            return Err(Error::InstanceOutOfBounds);
        }
        let chip = FibonacciChip::construct(config);
        let out_cell = match chip.assign_row(l, cs, 10) {
            Ok(c) => c,
            Err(_) => {
                proof {
                    assert(false);
                }
                return Err(Error::Synthesis);
            },
        };
        let ghost lpre = *l;
        match chip.expose_public(l, cs, &out_cell, 2) {
            Ok(()) => {},
            Err(_) => {
                proof {
                    assert(false);
                }
                return Err(Error::Synthesis);
            },
        };
        proof {
            let i0 = old(l).asn.instance[config.instance.index as int][0]@;
            let i1 = old(l).asn.instance[config.instance.index as int][1]@;
            assert(l.asn.advice == lpre.asn.advice);
            assert(l.asn.selectors == lpre.asn.selectors);
            assert(l.asn.fixed == lpre.asn.fixed);
            assert(l.asn.tables == lpre.asn.tables);
            assert forall|rr: int| 0 <= rr < 10 implies l.asn.val(config.advice, rr) == fib_spec(
                i0,
                i1,
                rr as nat,
            ) by {
                assert(lpre.asn.val(config.advice, rr) == fib_spec(i0, i1, rr as nat));
            }
            assert forall|rr: int| 0 <= rr < 8 implies l.asn.sel(
                config.selector.index as int,
                rr,
            ) by {
                assert(lpre.asn.sel(config.selector.index as int, rr));
            }
        }
        Ok(())
    }
}

} // verus!
