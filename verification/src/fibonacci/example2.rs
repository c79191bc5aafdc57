//! A recurrence over two advice columns: one region holds the whole table,
//! and a gate with next-row rotations constrains each row against the one
//! below it, so no copy constraints are needed between steps.

use vstd::prelude::*;
use crate::circuit::Layouter;
use crate::column::{AssignedCell, Cell, Column, ColumnKind, Selector};
use crate::dev::instance_cell;
use crate::error::Error;
use crate::circuit::Assignment;
use crate::dev::{copies_ok, copy_violated, eval, gate_violated, gates_ok, lookups_ok, satisfied};
use crate::expression::Expr;
use crate::fibonacci::fib_spec;
use crate::field::{fadd, fneg};
use crate::plonk::ConstraintSystem;

verus! {

/// The columns and selector the chip works with.
#[derive(Clone, Copy, PartialEq, Eq, Structural, Debug)]
pub struct FibonacciConfig {
    pub col_a: Column,
    pub col_b: Column,
    pub selector: Selector,
    pub instance: Column,
}

impl FibonacciConfig {
    /// Two distinct, equality-enabled advice columns, a selector, and an
    /// equality-enabled instance column, all declared in `cs`.
    pub open spec fn wf(self, cs: ConstraintSystem) -> bool {
        &&& self.col_a.kind == ColumnKind::Advice && self.col_a.index < cs.num_advice
        &&& self.col_b.kind == ColumnKind::Advice && self.col_b.index < cs.num_advice
        &&& self.col_a.index != self.col_b.index
        &&& self.selector.index < cs.num_selectors
        &&& self.instance.kind == ColumnKind::Instance && self.instance.index < cs.num_instance
        &&& cs.eq_enabled(self.col_a)
        &&& cs.eq_enabled(self.col_b)
        &&& cs.eq_enabled(self.instance)
    }
}

/// The first gate polynomial: `a + b - a_next`.
pub open spec fn step_a_poly(config: FibonacciConfig) -> Expr {
    Expr::Sum(
        Box::new(
            Expr::Sum(
                Box::new(Expr::Query(config.col_a, 0)),
                Box::new(Expr::Query(config.col_b, 0)),
            ),
        ),
        Box::new(Expr::Negated(Box::new(Expr::Query(config.col_a, 1)))),
    )
}

/// The second gate polynomial: `b + a_next - b_next`.
pub open spec fn step_b_poly(config: FibonacciConfig) -> Expr {
    Expr::Sum(
        Box::new(
            Expr::Sum(
                Box::new(Expr::Query(config.col_b, 0)),
                Box::new(Expr::Query(config.col_a, 1)),
            ),
        ),
        Box::new(Expr::Negated(Box::new(Expr::Query(config.col_b, 1)))),
    )
}

pub struct FibonacciChip {
    pub config: FibonacciConfig,
}

impl FibonacciChip {
    pub fn construct(config: FibonacciConfig) -> (chip: FibonacciChip)
        ensures
            chip.config == config,
    {
        FibonacciChip { config }
    }

    /// Declares the chip's columns and the two-part step gate.
    pub fn configure(cs: &mut ConstraintSystem) -> (config: FibonacciConfig)
        requires
            old(cs).wf(),
            old(cs).num_advice + 2 <= usize::MAX,
            old(cs).num_instance < usize::MAX,
            old(cs).num_selectors < usize::MAX,
        ensures
            final(cs).wf(),
            config.wf(*final(cs)),
            config.col_a == (Column { kind: ColumnKind::Advice, index: old(cs).num_advice }),
            config.col_b == (Column {
                kind: ColumnKind::Advice,
                index: (old(cs).num_advice + 1) as usize,
            }),
            config.selector == (Selector { index: old(cs).num_selectors, complex: false }),
            config.instance == (Column {
                kind: ColumnKind::Instance,
                index: old(cs).num_instance,
            }),
            final(cs).num_advice == old(cs).num_advice + 2,
            final(cs).num_fixed == old(cs).num_fixed,
            final(cs).num_instance == old(cs).num_instance + 1,
            final(cs).num_tables == old(cs).num_tables,
            final(cs).num_selectors == old(cs).num_selectors + 1,
            final(cs).advice_eq@ == old(cs).advice_eq@.push(true).push(true),
            final(cs).instance_eq@ == old(cs).instance_eq@.push(true),
            final(cs).lookups == old(cs).lookups,
            final(cs).gates@.len() == old(cs).gates@.len() + 1,
            forall|g: int|
                0 <= g < old(cs).gates@.len() ==> final(cs).gates@[g] == old(cs).gates@[g],
            final(cs).gates@.last().name == "add",
            final(cs).gates@.last().selector == config.selector,
            final(cs).gates@.last().polys@.len() == 2,
            final(cs).gates@.last().polys@[0].0 == "a",
            final(cs).gates@.last().polys@[0].1 == step_a_poly(config),
            final(cs).gates@.last().polys@[1].0 == "b",
            final(cs).gates@.last().polys@[1].1 == step_b_poly(config),
    {
        let col_a = cs.advice_column();
        let col_b = cs.advice_column();
        let selector = cs.selector();
        let instance = cs.instance_column();
        cs.enable_equality(col_a);
        cs.enable_equality(col_b);
        cs.enable_equality(instance);
        let poly_a = Expr::query(col_a, 0).add(Expr::query(col_b, 0)).sub(Expr::query(col_a, 1));
        let poly_b = Expr::query(col_b, 0).add(Expr::query(col_a, 1)).sub(Expr::query(col_b, 1));
        let mut polys: Vec<(&'static str, Expr)> = Vec::new();
        polys.push(("a", poly_a));
        polys.push(("b", poly_b));
        cs.create_gate("add", selector, polys);
        proof {
            assert(cs.advice_eq@ =~= old(cs).advice_eq@.push(true).push(true));
            assert(cs.instance_eq@ =~= old(cs).instance_eq@.push(true));
        }
        FibonacciConfig { col_a, col_b, selector, instance }
    }

    /// Fills one region with the whole table: row `r` holds elements `2r`
    /// and `2r + 1` of the sequence, the seeds are copied from the first two
    /// public inputs, and the step gate is active on every row but the last.
    pub fn assign_row(&self, l: &mut Layouter, cs: &ConstraintSystem, nrows: usize) -> (r: Result<
        (AssignedCell, AssignedCell),
        Error,
    >)
        requires
            old(l).wf(),
            !old(l).in_region,
            old(l).asn.wf(*cs),
            self.config.wf(*cs),
            2 <= nrows,
        ensures
            final(l).wf(),
            final(l).asn.wf(*cs),
            !final(l).in_region,
            final(l).asn.n == old(l).asn.n,
            final(l).asn.instance == old(l).asn.instance,
            (r is Ok <==> old(l).offset + nrows <= old(l).asn.n && old(
                l,
            ).asn.instance[self.config.instance.index as int].len() >= 2),
            r is Err ==> *final(l) == *old(l) && (r->Err_0 == Error::NotEnoughRows <==> old(
                l,
            ).offset + nrows > old(l).asn.n) && (r->Err_0 == Error::InstanceOutOfBounds <==> old(
                l,
            ).offset + nrows <= old(l).asn.n && old(
                l,
            ).asn.instance[self.config.instance.index as int].len() < 2),
            r is Ok ==> ({
                let base = old(l).offset as int;
                let i0 = old(l).asn.instance[self.config.instance.index as int][0]@;
                let i1 = old(l).asn.instance[self.config.instance.index as int][1]@;
                let cells = r->Ok_0;
                &&& final(l).offset == old(l).offset + nrows
                &&& cells.0.cell == (Cell {
                    column: self.config.col_a,
                    row: (old(l).offset + nrows - 1) as usize,
                })
                &&& cells.1.cell == (Cell {
                    column: self.config.col_b,
                    row: (old(l).offset + nrows - 1) as usize,
                })
                &&& cells.0.value@ == fib_spec(i0, i1, (2 * (nrows - 1)) as nat)
                &&& cells.1.value@ == fib_spec(i0, i1, (2 * (nrows - 1) + 1) as nat)
                &&& forall|rr: int|
                    base <= rr < base + nrows ==> (#[trigger] final(l).asn.val(
                        self.config.col_a,
                        rr,
                    )) == fib_spec(i0, i1, (2 * (rr - base)) as nat)
                &&& forall|rr: int|
                    base <= rr < base + nrows ==> (#[trigger] final(l).asn.val(
                        self.config.col_b,
                        rr,
                    )) == fib_spec(i0, i1, (2 * (rr - base) + 1) as nat)
                &&& forall|rr: int|
                    base <= rr < base + nrows - 1 ==> (#[trigger] final(l).asn.sel(
                        self.config.selector.index as int,
                        rr,
                    ))
                &&& final(l).asn.copies@ == old(l).asn.copies@.push(
                    (
                        instance_cell(self.config.instance.index, 0),
                        Cell { column: self.config.col_a, row: old(l).offset },
                    ),
                ).push(
                    (
                        instance_cell(self.config.instance.index, 1),
                        Cell { column: self.config.col_b, row: old(l).offset },
                    ),
                )
                &&& final(l).asn.fixed == old(l).asn.fixed
                &&& final(l).asn.tables == old(l).asn.tables
                &&& forall|j: int|
                    0 <= j < final(l).asn.advice.len() && j != self.config.col_a.index && j
                        != self.config.col_b.index ==> (#[trigger] final(l).asn.advice[j]) == old(
                        l,
                    ).asn.advice[j]
                &&& forall|rr: int|
                    0 <= rr < final(l).asn.n && !(base <= rr < base + nrows) ==> (
                    #[trigger] final(l).asn.advice[self.config.col_a.index as int][rr]) == old(
                        l,
                    ).asn.advice[self.config.col_a.index as int][rr]
                &&& forall|rr: int|
                    0 <= rr < final(l).asn.n && !(base <= rr < base + nrows) ==> (
                    #[trigger] final(l).asn.advice[self.config.col_b.index as int][rr]) == old(
                        l,
                    ).asn.advice[self.config.col_b.index as int][rr]
                &&& forall|j: int|
                    0 <= j < final(l).asn.selectors.len() && j != self.config.selector.index ==> (
                    #[trigger] final(l).asn.selectors[j]) == old(l).asn.selectors[j]
                &&& forall|rr: int|
                    0 <= rr < final(l).asn.n && !(base <= rr < base + nrows - 1) ==> (
                    #[trigger] final(l).asn.selectors[self.config.selector.index as int][rr])
                        == old(l).asn.selectors[self.config.selector.index as int][rr]
            }),
    {
        if nrows > l.asn.n - l.offset {
            return Err(Error::NotEnoughRows);
        }
        if l.asn.instance[self.config.instance.index].len() < 2 {
            return Err(Error::InstanceOutOfBounds);
        }
        let ghost i0 = l.asn.instance[self.config.instance.index as int][0]@;
        let ghost i1 = l.asn.instance[self.config.instance.index as int][1]@;
        let ghost base = l.offset as int;
        l.start_region();
        let mut a_cell = match l.assign_advice_from_instance(
            cs,
            self.config.instance,
            0,
            self.config.col_a,
            0,
        ) {
            Ok(c) => c,
            Err(_) => {
                proof {
                    assert(false);
                }
                return Err(Error::Synthesis);
            },
        };
        let mut b_cell = match l.assign_advice_from_instance(
            cs,
            self.config.instance,
            1,
            self.config.col_b,
            0,
        ) {
            Ok(c) => c,
            Err(_) => {
                proof {
                    assert(false);
                }
                return Err(Error::Synthesis);
            },
        };
        match l.enable_selector(self.config.selector, 0) {
            Ok(()) => {},
            Err(_) => {
                proof {
                    assert(false);
                }
                return Err(Error::Synthesis);
            },
        };
        proof {
            assert(fib_spec(i0, i1, 0) == i0);
            assert(fib_spec(i0, i1, 1) == i1);
        }
        let mut row: usize = 1;
        while row < nrows
            invariant
                1 <= row <= nrows,
                l.wf(),
                l.in_region,
                l.asn.wf(*cs),
                self.config.wf(*cs),
                l.asn.n == old(l).asn.n,
                l.asn.instance == old(l).asn.instance,
                base == old(l).offset as int,
                base + nrows <= l.asn.n,
                l.region_base == base,
                l.offset == base,
                l.region_used == row,
                i0 == old(l).asn.instance[self.config.instance.index as int][0]@,
                i1 == old(l).asn.instance[self.config.instance.index as int][1]@,
                a_cell.cell == (Cell { column: self.config.col_a, row: (base + row - 1) as usize }),
                b_cell.cell == (Cell { column: self.config.col_b, row: (base + row - 1) as usize }),
                a_cell.value@ == fib_spec(i0, i1, (2 * (row - 1)) as nat),
                b_cell.value@ == fib_spec(i0, i1, (2 * (row - 1) + 1) as nat),
                forall|rr: int|
                    base <= rr < base + row ==> (#[trigger] l.asn.val(self.config.col_a, rr))
                        == fib_spec(i0, i1, (2 * (rr - base)) as nat),
                forall|rr: int|
                    base <= rr < base + row ==> (#[trigger] l.asn.val(self.config.col_b, rr))
                        == fib_spec(i0, i1, (2 * (rr - base) + 1) as nat),
                forall|rr: int|
                    base <= rr < base + row && rr - base < nrows - 1 ==> (#[trigger] l.asn.sel(
                        self.config.selector.index as int,
                        rr,
                    )),
                l.asn.copies@ == old(l).asn.copies@.push(
                    (
                        instance_cell(self.config.instance.index, 0),
                        Cell { column: self.config.col_a, row: old(l).offset },
                    ),
                ).push(
                    (
                        instance_cell(self.config.instance.index, 1),
                        Cell { column: self.config.col_b, row: old(l).offset },
                    ),
                ),
                l.asn.fixed == old(l).asn.fixed,
                l.asn.tables == old(l).asn.tables,
                forall|j: int|
                    0 <= j < l.asn.advice.len() && j != self.config.col_a.index && j
                        != self.config.col_b.index ==> (#[trigger] l.asn.advice[j]) == old(
                        l,
                    ).asn.advice[j],
                forall|rr: int|
                    0 <= rr < l.asn.n && !(base <= rr < base + row) ==> (
                    #[trigger] l.asn.advice[self.config.col_a.index as int][rr]) == old(
                        l,
                    ).asn.advice[self.config.col_a.index as int][rr],
                forall|rr: int|
                    0 <= rr < l.asn.n && !(base <= rr < base + row) ==> (
                    #[trigger] l.asn.advice[self.config.col_b.index as int][rr]) == old(
                        l,
                    ).asn.advice[self.config.col_b.index as int][rr],
                forall|j: int|
                    0 <= j < l.asn.selectors.len() && j != self.config.selector.index ==> (
                    #[trigger] l.asn.selectors[j]) == old(l).asn.selectors[j],
                forall|rr: int|
                    0 <= rr < l.asn.n && !(base <= rr < base + row && rr - base < nrows - 1) ==> (
                    #[trigger] l.asn.selectors[self.config.selector.index as int][rr]) == old(
                        l,
                    ).asn.selectors[self.config.selector.index as int][rr],
            decreases nrows - row,
        {
            let ghost lrow = *l;
            if row < nrows - 1 {
                match l.enable_selector(self.config.selector, row) {
                    Ok(()) => {},
                    Err(_) => {
                        proof {
                            assert(false);
                        }
                        return Err(Error::Synthesis);
                    },
                };
            }
            let sum_a = a_cell.value.add(b_cell.value);
            let new_a = match l.assign_advice(self.config.col_a, row, sum_a) {
                Ok(c) => c,
                Err(_) => {
                    proof {
                        assert(false);
                    }
                    return Err(Error::Synthesis);
                },
            };
            let ghost lmid = *l;
            let sum_b = b_cell.value.add(new_a.value);
            proof {
                assert(l.asn.advice[self.config.col_b.index as int]
                    == lmid.asn.advice[self.config.col_b.index as int]);
                assert(lmid.asn.advice[self.config.col_b.index as int][base + row] is None);
            }
            let new_b = match l.assign_advice(self.config.col_b, row, sum_b) {
                Ok(c) => c,
                Err(_) => {
                    proof {
                        assert(false);
                    }
                    return Err(Error::Synthesis);
                },
            };
            proof {
                assert(fib_spec(i0, i1, (2 * row) as nat) == fadd(
                    fib_spec(i0, i1, (2 * row - 2) as nat),
                    fib_spec(i0, i1, (2 * row - 1) as nat),
                ));
                assert(fib_spec(i0, i1, (2 * row + 1) as nat) == fadd(
                    fib_spec(i0, i1, (2 * row - 1) as nat),
                    fib_spec(i0, i1, (2 * row) as nat),
                ));
                assert(lmid.asn.advice[self.config.col_a.index as int]@
                    == lrow.asn.advice[self.config.col_a.index as int]@.update(
                    base + row,
                    Some(sum_a),
                ));
                assert(l.asn.advice[self.config.col_a.index as int]
                    == lmid.asn.advice[self.config.col_a.index as int]);
                assert(l.asn.advice[self.config.col_b.index as int]@
                    == lmid.asn.advice[self.config.col_b.index as int]@.update(
                    base + row,
                    Some(sum_b),
                ));
                assert(lmid.asn.advice[self.config.col_b.index as int]
                    == lrow.asn.advice[self.config.col_b.index as int]);
                assert forall|rr: int| base <= rr < base + row implies (#[trigger] l.asn.val(
                    self.config.col_a,
                    rr,
                )) == fib_spec(i0, i1, (2 * (rr - base)) as nat) by {
                    assert(lrow.asn.val(self.config.col_a, rr) == fib_spec(
                        i0,
                        i1,
                        (2 * (rr - base)) as nat,
                    ));
                }
                assert forall|rr: int| base <= rr < base + row implies (#[trigger] l.asn.val(
                    self.config.col_b,
                    rr,
                )) == fib_spec(i0, i1, (2 * (rr - base) + 1) as nat) by {
                    assert(lrow.asn.val(self.config.col_b, rr) == fib_spec(
                        i0,
                        i1,
                        (2 * (rr - base) + 1) as nat,
                    ));
                }
                assert forall|rr: int|
                    0 <= rr < l.asn.n && !(base <= rr < base + row + 1) implies (
                #[trigger] l.asn.advice[self.config.col_a.index as int][rr]) == old(
                    l,
                ).asn.advice[self.config.col_a.index as int][rr] by {
                    assert(lrow.asn.advice[self.config.col_a.index as int][rr] == old(
                        l,
                    ).asn.advice[self.config.col_a.index as int][rr]);
                }
                assert forall|rr: int|
                    0 <= rr < l.asn.n && !(base <= rr < base + row + 1) implies (
                #[trigger] l.asn.advice[self.config.col_b.index as int][rr]) == old(
                    l,
                ).asn.advice[self.config.col_b.index as int][rr] by {
                    assert(lrow.asn.advice[self.config.col_b.index as int][rr] == old(
                        l,
                    ).asn.advice[self.config.col_b.index as int][rr]);
                }
                assert forall|rr: int|
                    base <= rr < base + row + 1 && rr - base < nrows - 1 implies (
                #[trigger] l.asn.sel(self.config.selector.index as int, rr)) by {
                    if rr < base + row {
                        assert(lrow.asn.sel(self.config.selector.index as int, rr));
                    }
                }
            }
            a_cell = new_a;
            b_cell = new_b;
            row = row + 1;
        }
        l.end_region();
        Ok((a_cell, b_cell))
    }

    /// Binds an already-assigned cell to row `row` of the public-input
    /// column.
    pub fn expose_public(
        &self,
        l: &mut Layouter,
        cs: &ConstraintSystem,
        cell: &AssignedCell,
        row: usize,
    ) -> (r: Result<(), Error>)
        requires
            old(l).wf(),
            old(l).asn.wf(*cs),
            self.config.wf(*cs),
            old(l).asn.cell_wf(cell.cell),
            cs.eq_enabled(cell.cell.column),
        ensures
            final(l).wf(),
            final(l).asn.wf(*cs),
            final(l).in_region == old(l).in_region,
            final(l).offset == old(l).offset,
            final(l).asn.n == old(l).asn.n,
            final(l).asn.instance == old(l).asn.instance,
            match r {
                Ok(()) => {
                    &&& row < old(l).asn.instance[self.config.instance.index as int].len()
                    &&& crate::circuit::copies_pushed(
                        old(l).asn,
                        final(l).asn,
                        (cell.cell, instance_cell(self.config.instance.index, row)),
                    )
                },
                Err(e) => {
                    &&& *final(l) == *old(l)
                    &&& e == Error::InstanceOutOfBounds
                    &&& row >= old(l).asn.instance[self.config.instance.index as int].len()
                },
            },
    {
        l.constrain_instance(cs, cell.cell(), self.config.instance, row)
    }
}

/// End to end: on the grid `synthesize` fills into a fresh layouter, the
/// circuit is satisfied exactly when the third public input equals element
/// 9 of the recurrence seeded by the first two. The contracts of
/// `configure`, `Layouter::new` and `synthesize` supply every premise.
pub proof fn lemma_synthesized_satisfied(
    cs: ConstraintSystem,
    config: FibonacciConfig,
    a: Assignment,
)
    requires
        config.wf(cs),
        cs.gates.len() == 1,
        cs.gates[0].selector == config.selector,
        cs.gates[0].polys.len() == 2,
        cs.gates[0].polys[0].1 == step_a_poly(config),
        cs.gates[0].polys[1].1 == step_b_poly(config),
        cs.lookups.len() == 0,
        5 <= a.n,
        config.instance.index < a.instance.len(),
        a.instance[config.instance.index as int].len() >= 3,
        a.copies@.len() == 3,
        a.copies@[0] == (
            instance_cell(config.instance.index, 0),
            Cell { column: config.col_a, row: 0 },
        ),
        a.copies@[1] == (
            instance_cell(config.instance.index, 1),
            Cell { column: config.col_b, row: 0 },
        ),
        a.copies@[2] == (
            Cell { column: config.col_b, row: 4 },
            instance_cell(config.instance.index, 2),
        ),
        forall|rr: int|
            0 <= rr < 5 ==> a.val(config.col_a, rr) == fib_spec(
                a.instance[config.instance.index as int][0]@,
                a.instance[config.instance.index as int][1]@,
                (2 * rr) as nat,
            ),
        forall|rr: int|
            0 <= rr < 5 ==> a.val(config.col_b, rr) == fib_spec(
                a.instance[config.instance.index as int][0]@,
                a.instance[config.instance.index as int][1]@,
                (2 * rr + 1) as nat,
            ),
        forall|rr: int| 0 <= rr < 4 ==> a.sel(config.selector.index as int, rr),
        forall|rr: int| 4 <= rr < a.n ==> !(#[trigger] a.sel(config.selector.index as int, rr)),
    ensures
        satisfied(cs, a) <==> a.instance[config.instance.index as int][2]@ == fib_spec(
            a.instance[config.instance.index as int][0]@,
            a.instance[config.instance.index as int][1]@,
            9,
        ),
{
    let idx = config.instance.index as int;
    let i0 = a.instance[idx][0]@;
    let i1 = a.instance[idx][1]@;
    let out = a.instance[idx][2]@;
    assert forall|gi: int, pi: int, row: int|
        0 <= gi < cs.gates.len() && 0 <= pi < cs.gates[gi].polys.len() && 0 <= row
            < a.n implies !gate_violated(cs, a, gi, pi, row) by {
        if row < 4 {
            let qa = Expr::Query(config.col_a, 0);
            let qb = Expr::Query(config.col_b, 0);
            let qan = Expr::Query(config.col_a, 1);
            let qbn = Expr::Query(config.col_b, 1);
            assert(eval(qa, a, row) == a.val(config.col_a, row));
            assert(eval(qb, a, row) == a.val(config.col_b, row));
            assert(eval(qan, a, row) == a.val(config.col_a, row + 1));
            assert(eval(qbn, a, row) == a.val(config.col_b, row + 1));
            assert(fib_spec(i0, i1, (2 * row + 2) as nat) == fadd(
                fib_spec(i0, i1, (2 * row) as nat),
                fib_spec(i0, i1, (2 * row + 1) as nat),
            ));
            assert(fib_spec(i0, i1, (2 * row + 3) as nat) == fadd(
                fib_spec(i0, i1, (2 * row + 1) as nat),
                fib_spec(i0, i1, (2 * row + 2) as nat),
            ));
            assert(a.val(config.col_a, row + 1) == fib_spec(i0, i1, (2 * (row + 1)) as nat));
            assert(a.val(config.col_b, row + 1) == fib_spec(i0, i1, (2 * (row + 1) + 1) as nat));
            if pi == 0 {
                let lhs = Expr::Sum(Box::new(qa), Box::new(qb));
                let nega = Expr::Negated(Box::new(qan));
                assert(step_a_poly(config) == Expr::Sum(Box::new(lhs), Box::new(nega)));
                assert(eval(lhs, a, row) == fadd(eval(qa, a, row), eval(qb, a, row)));
                assert(eval(nega, a, row) == fneg(eval(qan, a, row)));
                assert(eval(step_a_poly(config), a, row) == fadd(
                    eval(lhs, a, row),
                    eval(nega, a, row),
                ));
                let x = fadd(a.val(config.col_a, row), a.val(config.col_b, row));
                assert(a.val(config.col_a, row + 1) == x);
                vstd::arithmetic::div_mod::lemma_add_mod_noop_right(
                    x,
                    -x,
                    crate::field::modulus(),
                );
                vstd::arithmetic::div_mod::lemma_small_mod(0nat, crate::field::MODULUS as nat);
                assert(fadd(x, fneg(x)) == 0);
            } else {
                let lhs = Expr::Sum(Box::new(qb), Box::new(qan));
                let negb = Expr::Negated(Box::new(qbn));
                assert(step_b_poly(config) == Expr::Sum(Box::new(lhs), Box::new(negb)));
                assert(eval(lhs, a, row) == fadd(eval(qb, a, row), eval(qan, a, row)));
                assert(eval(negb, a, row) == fneg(eval(qbn, a, row)));
                assert(eval(step_b_poly(config), a, row) == fadd(
                    eval(lhs, a, row),
                    eval(negb, a, row),
                ));
                let x = fadd(a.val(config.col_b, row), a.val(config.col_a, row + 1));
                assert(a.val(config.col_b, row + 1) == x);
                vstd::arithmetic::div_mod::lemma_add_mod_noop_right(
                    x,
                    -x,
                    crate::field::modulus(),
                );
                vstd::arithmetic::div_mod::lemma_small_mod(0nat, crate::field::MODULUS as nat);
                assert(fadd(x, fneg(x)) == 0);
            }
        } else {
            assert(!a.sel(config.selector.index as int, row));
        }
    }
    assert(gates_ok(cs, a));
    assert(lookups_ok(cs, a));
    assert(!copy_violated(a, 0)) by {
        assert(a.val(config.col_a, 0) == fib_spec(i0, i1, 0));
    }
    assert(!copy_violated(a, 1)) by {
        assert(a.val(config.col_b, 0) == fib_spec(i0, i1, 1));
    }
    assert(a.val(config.col_b, 4) == fib_spec(i0, i1, 9));
    assert(copy_violated(a, 2) <==> fib_spec(i0, i1, 9) != out);
    if out == fib_spec(i0, i1, 9) {
        assert forall|ci: int| 0 <= ci < a.copies@.len() implies !copy_violated(a, ci) by {
            assert(ci == 0 || ci == 1 || ci == 2);
        }
        assert(copies_ok(a));
    } else {
        assert(copy_violated(a, 2));
        assert(!copies_ok(a));
    }
}

/// The circuit itself: five rows of the two-column table, with the last
/// `b` cell exposed against public-input row 2.
pub struct MyCircuit {}

impl MyCircuit {
    /// Declares the chip's columns and gate.
    pub fn configure(cs: &mut ConstraintSystem) -> (config: FibonacciConfig)
        requires
            old(cs).wf(),
            old(cs).num_advice + 2 <= usize::MAX,
            old(cs).num_instance < usize::MAX,
            old(cs).num_selectors < usize::MAX,
        ensures
            final(cs).wf(),
            config.wf(*final(cs)),
            config.col_a == (Column { kind: ColumnKind::Advice, index: old(cs).num_advice }),
            config.col_b == (Column {
                kind: ColumnKind::Advice,
                index: (old(cs).num_advice + 1) as usize,
            }),
            config.selector == (Selector { index: old(cs).num_selectors, complex: false }),
            config.instance == (Column {
                kind: ColumnKind::Instance,
                index: old(cs).num_instance,
            }),
            final(cs).num_advice == old(cs).num_advice + 2,
            final(cs).num_fixed == old(cs).num_fixed,
            final(cs).num_instance == old(cs).num_instance + 1,
            final(cs).num_tables == old(cs).num_tables,
            final(cs).num_selectors == old(cs).num_selectors + 1,
            final(cs).advice_eq@ == old(cs).advice_eq@.push(true).push(true),
            final(cs).instance_eq@ == old(cs).instance_eq@.push(true),
            final(cs).lookups == old(cs).lookups,
            final(cs).gates@.len() == old(cs).gates@.len() + 1,
            forall|g: int|
                0 <= g < old(cs).gates@.len() ==> final(cs).gates@[g] == old(cs).gates@[g],
            final(cs).gates@.last().name == "add",
            final(cs).gates@.last().selector == config.selector,
            final(cs).gates@.last().polys@.len() == 2,
            final(cs).gates@.last().polys@[0].0 == "a",
            final(cs).gates@.last().polys@[0].1 == step_a_poly(config),
            final(cs).gates@.last().polys@[1].0 == "b",
            final(cs).gates@.last().polys@[1].1 == step_b_poly(config),
    {
        FibonacciChip::configure(cs)
    }

    /// Fills five rows of the table and binds the last `b` cell (element 9
    /// of the sequence) to public-input row 2. Succeeds exactly when five
    /// rows fit the domain and three public inputs were supplied; otherwise
    /// the configuration error comes back untouched.
    #[verifier::loop_isolation(false)]
    pub fn synthesize(&self, config: FibonacciConfig, l: &mut Layouter, cs: &ConstraintSystem) -> (r:
        Result<(), Error>)
        requires
            old(l).wf(),
            !old(l).in_region,
            old(l).offset == 0,
            old(l).asn.wf(*cs),
            config.wf(*cs),
        ensures
            final(l).wf(),
            final(l).asn.wf(*cs),
            !final(l).in_region,
            final(l).asn.n == old(l).asn.n,
            final(l).asn.instance == old(l).asn.instance,
            (r is Ok <==> old(l).asn.n >= 5 && old(
                l,
            ).asn.instance[config.instance.index as int].len() >= 3),
            r is Err ==> *final(l) == *old(l) && (r->Err_0 == Error::NotEnoughRows <==> old(
                l,
            ).asn.n < 5) && (r->Err_0 == Error::InstanceOutOfBounds <==> old(l).asn.n >= 5 && old(
                l,
            ).asn.instance[config.instance.index as int].len() < 3),
            r is Ok ==> ({
                let i0 = old(l).asn.instance[config.instance.index as int][0]@;
                let i1 = old(l).asn.instance[config.instance.index as int][1]@;
                &&& final(l).offset == 5
                &&& forall|rr: int|
                    0 <= rr < 5 ==> final(l).asn.val(config.col_a, rr) == fib_spec(
                        i0,
                        i1,
                        (2 * rr) as nat,
                    )
                &&& forall|rr: int|
                    0 <= rr < 5 ==> final(l).asn.val(config.col_b, rr) == fib_spec(
                        i0,
                        i1,
                        (2 * rr + 1) as nat,
                    )
                &&& forall|rr: int|
                    0 <= rr < 4 ==> final(l).asn.sel(config.selector.index as int, rr)
                &&& final(l).asn.copies@ == old(l).asn.copies@.push(
                    (instance_cell(config.instance.index, 0), Cell { column: config.col_a, row: 0 }),
                ).push(
                    (instance_cell(config.instance.index, 1), Cell { column: config.col_b, row: 0 }),
                ).push(
                    (Cell { column: config.col_b, row: 4 }, instance_cell(config.instance.index, 2)),
                )
                &&& final(l).asn.fixed == old(l).asn.fixed
                &&& final(l).asn.tables == old(l).asn.tables
                &&& forall|j: int|
                    0 <= j < final(l).asn.advice.len() && j != config.col_a.index && j
                        != config.col_b.index ==> (#[trigger] final(l).asn.advice[j]) == old(
                        l,
                    ).asn.advice[j]
                &&& forall|rr: int|
                    5 <= rr < final(l).asn.n ==> (
                    #[trigger] final(l).asn.advice[config.col_a.index as int][rr]) == old(
                        l,
                    ).asn.advice[config.col_a.index as int][rr]
                        && final(l).asn.advice[config.col_b.index as int][rr]
                        == old(l).asn.advice[config.col_b.index as int][rr]
                &&& forall|j: int|
                    0 <= j < final(l).asn.selectors.len() && j != config.selector.index ==> (
                    #[trigger] final(l).asn.selectors[j]) == old(l).asn.selectors[j]
                &&& forall|rr: int|
                    4 <= rr < final(l).asn.n ==> (
                    #[trigger] final(l).asn.selectors[config.selector.index as int][rr]) == old(
                        l,
                    ).asn.selectors[config.selector.index as int][rr]
            }),
    {
        if l.asn.n < 5 {
            return Err(Error::NotEnoughRows);
        }
        if l.asn.instance[config.instance.index].len() < 3 {
            return Err(Error::InstanceOutOfBounds);
        }
        let chip = FibonacciChip::construct(config);
        let cells = match chip.assign_row(l, cs, 5) {
            Ok(c) => c,
            Err(_) => {
                proof {
                    assert(false);
                }
                return Err(Error::Synthesis);
            },
        };
        let b_cell = cells.1;
        let ghost lpre = *l;
        match chip.expose_public(l, cs, &b_cell, 2) {
            Ok(()) => {},
            Err(_) => {
                proof {
                    assert(false);
                }
                return Err(Error::Synthesis);
            },
        };
        proof {
            assert(l.asn.advice == lpre.asn.advice);
            assert(l.asn.selectors == lpre.asn.selectors);
            assert(l.asn.fixed == lpre.asn.fixed);
            assert(l.asn.tables == lpre.asn.tables);
            let i0 = old(l).asn.instance[config.instance.index as int][0]@;
            let i1 = old(l).asn.instance[config.instance.index as int][1]@;
            assert forall|rr: int| 0 <= rr < 5 implies final(l).asn.val(config.col_a, rr) == fib_spec(
                i0,
                i1,
                (2 * rr) as nat,
            ) by {
                assert(lpre.asn.val(config.col_a, rr) == fib_spec(i0, i1, (2 * rr) as nat));
            }
            assert forall|rr: int| 0 <= rr < 5 implies final(l).asn.val(config.col_b, rr) == fib_spec(
                i0,
                i1,
                (2 * rr + 1) as nat,
            ) by {
                assert(lpre.asn.val(config.col_b, rr) == fib_spec(i0, i1, (2 * rr + 1) as nat));
            }
            assert forall|rr: int| 0 <= rr < 4 implies final(l).asn.sel(
                config.selector.index as int,
                rr,
            ) by {
                assert(lpre.asn.sel(config.selector.index as int, rr));
            }
        }
        Ok(())
    }
}

} // verus!
