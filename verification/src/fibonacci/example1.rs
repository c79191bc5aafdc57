//! A recurrence over three advice columns: every row carries `(a, b, c)`
//! with a gate `a + b - c`, and consecutive rows are chained by copy
//! constraints, so the grid holds the sequence one row per step.

use vstd::prelude::*;
use crate::circuit::Layouter;
use crate::column::{AssignedCell, Cell, Column, ColumnKind, Selector};
use crate::dev::instance_cell;
use crate::error::Error;
use crate::circuit::Assignment;
use crate::dev::{copies_ok, copy_violated, eval, gate_violated, gates_ok, lookups_ok, satisfied};
use crate::expression::Expr;
use crate::fibonacci::fib_spec;
use crate::field::{fadd, fneg};
use crate::plonk::ConstraintSystem;

verus! {


/// The columns and selector the chip works with.
#[derive(Clone, Copy, PartialEq, Eq, Structural, Debug)]
pub struct FibonacciConfig {
    pub col_a: Column,
    pub col_b: Column,
    pub col_c: Column,
    pub selector: Selector,
    pub instance: Column,
}

impl FibonacciConfig {
    /// The configuration names three distinct, equality-enabled advice
    /// columns, a selector and an equality-enabled instance column, all
    /// declared in `cs`.
    pub open spec fn wf(self, cs: ConstraintSystem) -> bool {
        &&& self.col_a.kind == ColumnKind::Advice && self.col_a.index < cs.num_advice
        &&& self.col_b.kind == ColumnKind::Advice && self.col_b.index < cs.num_advice
        &&& self.col_c.kind == ColumnKind::Advice && self.col_c.index < cs.num_advice
        &&& self.col_a.index != self.col_b.index
        &&& self.col_a.index != self.col_c.index
        &&& self.col_b.index != self.col_c.index
        &&& self.selector.index < cs.num_selectors
        &&& self.instance.kind == ColumnKind::Instance && self.instance.index < cs.num_instance
        &&& cs.eq_enabled(self.col_a)
        &&& cs.eq_enabled(self.col_b)
        &&& cs.eq_enabled(self.col_c)
        &&& cs.eq_enabled(self.instance)
    }
}

/// The polynomial of the addition gate: `a + b - c` at the current row.
pub open spec fn add_gate_poly(config: FibonacciConfig) -> Expr {
    Expr::Sum(
        Box::new(
            Expr::Sum(
                Box::new(Expr::Query(config.col_a, 0)),
                Box::new(Expr::Query(config.col_b, 0)),
            ),
        ),
        Box::new(Expr::Negated(Box::new(Expr::Query(config.col_c, 0)))),
    )
}

/// The copy pairs the circuit declares, in declaration order: two seed
/// bindings, two chain links per row after the first, and the final
/// public binding of the last sum.
pub open spec fn chain_copy(config: FibonacciConfig, k: int) -> (Cell, Cell) {
    if k == 0 {
        (instance_cell(config.instance.index, 0), Cell { column: config.col_a, row: 0 })
    } else if k == 1 {
        (instance_cell(config.instance.index, 1), Cell { column: config.col_b, row: 0 })
    } else if k == 16 {
        (Cell { column: config.col_c, row: 7 }, instance_cell(config.instance.index, 2))
    } else if k % 2 == 0 {
        let r = k / 2;
        (
            if r == 1 {
                Cell { column: config.col_b, row: 0 }
            } else {
                Cell { column: config.col_c, row: (r - 2) as usize }
            },
            Cell { column: config.col_a, row: r as usize },
        )
    } else {
        let r = k / 2;
        (
            Cell { column: config.col_c, row: (r - 1) as usize },
            Cell { column: config.col_b, row: r as usize },
        )
    }
}

pub struct FibonacciChip {
    pub config: FibonacciConfig,
}

impl FibonacciChip {
    pub fn construct(config: FibonacciConfig) -> (chip: FibonacciChip)
        ensures
            chip.config == config,
    {
        FibonacciChip { config }
    }

    /// Declares the chip's columns, enables equality on all of them, and
    /// registers the selector-gated addition gate.
    pub fn configure(cs: &mut ConstraintSystem) -> (config: FibonacciConfig)
        requires
            old(cs).wf(),
            old(cs).num_advice + 3 <= usize::MAX,
            old(cs).num_instance < usize::MAX,
            old(cs).num_selectors < usize::MAX,
        ensures
            final(cs).wf(),
            config.wf(*final(cs)),
            config.col_a == (Column { kind: ColumnKind::Advice, index: old(cs).num_advice }),
            config.col_b == (Column {
                kind: ColumnKind::Advice,
                index: (old(cs).num_advice + 1) as usize,
            }),
            config.col_c == (Column {
                kind: ColumnKind::Advice,
                index: (old(cs).num_advice + 2) as usize,
            }),
            config.selector == (Selector { index: old(cs).num_selectors, complex: false }),
            config.instance == (Column {
                kind: ColumnKind::Instance,
                index: old(cs).num_instance,
            }),
            final(cs).num_advice == old(cs).num_advice + 3,
            final(cs).num_fixed == old(cs).num_fixed,
            final(cs).num_instance == old(cs).num_instance + 1,
            final(cs).num_tables == old(cs).num_tables,
            final(cs).num_selectors == old(cs).num_selectors + 1,
            final(cs).advice_eq@ == old(cs).advice_eq@.push(true).push(true).push(true),
            final(cs).instance_eq@ == old(cs).instance_eq@.push(true),
            final(cs).lookups == old(cs).lookups,
            final(cs).gates@.len() == old(cs).gates@.len() + 1,
            forall|g: int| 0 <= g < old(cs).gates@.len() ==> final(cs).gates@[g] == old(cs).gates@[g],
            final(cs).gates@.last().name == "add",
            final(cs).gates@.last().selector == config.selector,
            final(cs).gates@.last().polys@.len() == 1,
            final(cs).gates@.last().polys@[0].0 == "add",
            final(cs).gates@.last().polys@[0].1 == add_gate_poly(config),
    {
        let col_a = cs.advice_column();
        let col_b = cs.advice_column();
        let col_c = cs.advice_column();
        let selector = cs.selector();
        let instance = cs.instance_column();
        cs.enable_equality(col_a);
        cs.enable_equality(col_b);
        cs.enable_equality(col_c);
        cs.enable_equality(instance);
        let a = Expr::query(col_a, 0);
        let b = Expr::query(col_b, 0);
        let c = Expr::query(col_c, 0);
        let poly = a.add(b).sub(c);
        let mut polys: Vec<(&'static str, Expr)> = Vec::new();
        polys.push(("add", poly));
        cs.create_gate("add", selector, polys);
        proof {
            assert(cs.advice_eq@ =~= old(cs).advice_eq@.push(true).push(true).push(true));
            assert(cs.instance_eq@ =~= old(cs).instance_eq@.push(true));
        }
        FibonacciConfig { col_a, col_b, col_c, selector, instance }
    }

    /// Places the first region: the selector on, `a` and `b` copied from the
    /// first two public inputs (binding them with copy constraints), and `c`
    /// assigned their sum.
    pub fn assign_first_row(&self, l: &mut Layouter, cs: &ConstraintSystem) -> (r: Result<
        (AssignedCell, AssignedCell, AssignedCell),
        Error,
    >)
        requires
            old(l).wf(),
            !old(l).in_region,
            old(l).asn.wf(*cs),
            self.config.wf(*cs),
        ensures
            final(l).wf(),
            final(l).asn.wf(*cs),
            !final(l).in_region,
            final(l).asn.n == old(l).asn.n,
            final(l).asn.instance == old(l).asn.instance,
            match r {
                Ok(cells) => {
                    let base = old(l).offset as int;
                    let i0 = old(l).asn.instance[self.config.instance.index as int][0];
                    let i1 = old(l).asn.instance[self.config.instance.index as int][1];
                    &&& old(l).offset < old(l).asn.n
                    &&& old(l).asn.instance[self.config.instance.index as int].len() >= 2
                    &&& final(l).offset == old(l).offset + 1
                    &&& cells.0 == (AssignedCell {
                        cell: Cell { column: self.config.col_a, row: old(l).offset },
                        value: i0,
                    })
                    &&& cells.1 == (AssignedCell {
                        cell: Cell { column: self.config.col_b, row: old(l).offset },
                        value: i1,
                    })
                    &&& cells.2.cell == (Cell { column: self.config.col_c, row: old(l).offset })
                    &&& cells.2.value@ == fadd(i0@, i1@)
                    &&& final(l).asn.val(self.config.col_a, base) == i0@
                    &&& final(l).asn.val(self.config.col_b, base) == i1@
                    &&& final(l).asn.val(self.config.col_c, base) == fadd(i0@, i1@)
                    &&& final(l).asn.sel(self.config.selector.index as int, base)
                    &&& forall|s: int, rr: int|
                        0 <= s < cs.num_selectors && 0 <= rr < final(l).asn.n && !(s
                            == self.config.selector.index && rr == base) ==> final(l).asn.sel(s, rr)
                            == old(l).asn.sel(s, rr)
                    &&& forall|c2: Column, rr: int|
                        (c2.kind == ColumnKind::Advice && c2.index < cs.num_advice || c2.kind
                            == ColumnKind::Instance && c2.index < cs.num_instance) && 0 <= rr
                            < final(l).asn.n && !(c2.kind == ColumnKind::Advice && rr == base && (c2.index
                            == self.config.col_a.index || c2.index == self.config.col_b.index
                            || c2.index == self.config.col_c.index)) ==> final(l).asn.val(c2, rr) == old(
                            l,
                        ).asn.val(c2, rr)
                    &&& final(l).asn.tables == old(l).asn.tables
                    &&& final(l).asn.copies@ == old(l).asn.copies@.push(
                        (
                            instance_cell(self.config.instance.index, 0),
                            Cell { column: self.config.col_a, row: old(l).offset },
                        ),
                    ).push(
                        (
                            instance_cell(self.config.instance.index, 1),
                            Cell { column: self.config.col_b, row: old(l).offset },
                        ),
                    )
                    &&& final(l).asn.fixed == old(l).asn.fixed
                    &&& forall|j: int|
                        0 <= j < final(l).asn.advice.len() && j != self.config.col_a.index && j
                            != self.config.col_b.index && j != self.config.col_c.index ==> (
                        #[trigger] final(l).asn.advice[j]) == old(l).asn.advice[j]
                    &&& forall|rr: int|
                        0 <= rr < final(l).asn.n && rr != base ==> (
                        #[trigger] final(l).asn.advice[self.config.col_a.index as int][rr]) == old(
                            l,
                        ).asn.advice[self.config.col_a.index as int][rr]
                            && final(l).asn.advice[self.config.col_b.index as int][rr]
                            == old(l).asn.advice[self.config.col_b.index as int][rr]
                            && final(l).asn.advice[self.config.col_c.index as int][rr]
                            == old(l).asn.advice[self.config.col_c.index as int][rr]
                    &&& forall|j: int|
                        0 <= j < final(l).asn.selectors.len() && j != self.config.selector.index
                            ==> (#[trigger] final(l).asn.selectors[j]) == old(l).asn.selectors[j]
                    &&& forall|rr: int|
                        0 <= rr < final(l).asn.n && rr != base ==> (
                        #[trigger] final(l).asn.selectors[self.config.selector.index as int][rr])
                            == old(l).asn.selectors[self.config.selector.index as int][rr]
                },
                Err(e) => {
                    &&& *final(l) == *old(l)
                    &&& (e == Error::NotEnoughRows <==> old(l).offset >= old(l).asn.n)
                    &&& (e == Error::InstanceOutOfBounds <==> old(l).offset < old(l).asn.n && old(
                        l,
                    ).asn.instance[self.config.instance.index as int].len() < 2)
                    &&& (old(l).offset >= old(l).asn.n || old(
                        l,
                    ).asn.instance[self.config.instance.index as int].len() < 2)
                },
            },
    {
        if l.offset >= l.asn.n {
            return Err(Error::NotEnoughRows);
        }
        if l.asn.instance[self.config.instance.index].len() < 2 {
            return Err(Error::InstanceOutOfBounds);
        }
        l.start_region();
        let a_cell = match l.assign_advice_from_instance(
            cs,
            self.config.instance,
            0,
            self.config.col_a,
            0,
        ) {
            Ok(c) => c,
            Err(_) => {
                proof {
                    assert(false);
                }
                return Err(Error::Synthesis);
            },
        };
        let b_cell = match l.assign_advice_from_instance(
            cs,
            self.config.instance,
            1,
            self.config.col_b,
            0,
        ) {
            Ok(c) => c,
            Err(_) => {
                proof {
                    assert(false);
                }
                return Err(Error::Synthesis);
            },
        };
        let sum = a_cell.value.add(b_cell.value);
        proof {
            assert(l.asn.advice[self.config.col_c.index as int] == old(
                l,
            ).asn.advice[self.config.col_c.index as int]);
            assert(l.region_base == old(l).offset);
            assert(old(l).asn.advice[self.config.col_c.index as int][l.region_base as int]
                is None);
        }
        let c_cell = match l.assign_advice(self.config.col_c, 0, sum) {
            Ok(c) => c,
            Err(_) => {
                proof {
                    assert(false);
                }
                return Err(Error::Synthesis);
            },
        };
        match l.enable_selector(self.config.selector, 0) {
            Ok(()) => {},
            Err(_) => {
                proof {
                    assert(false);
                }
                return Err(Error::Synthesis);
            },
        };
        l.end_region();
        Ok((a_cell, b_cell, c_cell))
    }

    /// Places one more region: the previous row's `b` and `c` are copied
    /// into this row's `a` and `b` (with copy constraints), and `c` is
    /// assigned their sum under the addition selector.
    pub fn assign_row(
        &self,
        l: &mut Layouter,
        cs: &ConstraintSystem,
        prev_b: &AssignedCell,
        prev_c: &AssignedCell,
    ) -> (r: Result<AssignedCell, Error>)
        requires
            old(l).wf(),
            !old(l).in_region,
            old(l).asn.wf(*cs),
            self.config.wf(*cs),
            old(l).asn.cell_wf(prev_b.cell),
            old(l).asn.cell_wf(prev_c.cell),
            cs.eq_enabled(prev_b.cell.column),
            cs.eq_enabled(prev_c.cell.column),
        ensures
            final(l).wf(),
            final(l).asn.wf(*cs),
            !final(l).in_region,
            final(l).asn.n == old(l).asn.n,
            final(l).asn.instance == old(l).asn.instance,
            match r {
                Ok(c_cell) => {
                    let base = old(l).offset as int;
                    &&& old(l).offset < old(l).asn.n
                    &&& final(l).offset == old(l).offset + 1
                    &&& c_cell.cell == (Cell { column: self.config.col_c, row: old(l).offset })
                    &&& c_cell.value@ == fadd(prev_b.value@, prev_c.value@)
                    &&& final(l).asn.val(self.config.col_a, base) == prev_b.value@
                    &&& final(l).asn.val(self.config.col_b, base) == prev_c.value@
                    &&& final(l).asn.val(self.config.col_c, base) == fadd(prev_b.value@, prev_c.value@)
                    &&& final(l).asn.sel(self.config.selector.index as int, base)
                    &&& forall|s: int, rr: int|
                        0 <= s < cs.num_selectors && 0 <= rr < final(l).asn.n && !(s
                            == self.config.selector.index && rr == base) ==> final(l).asn.sel(s, rr)
                            == old(l).asn.sel(s, rr)
                    &&& forall|c2: Column, rr: int|
                        (c2.kind == ColumnKind::Advice && c2.index < cs.num_advice || c2.kind
                            == ColumnKind::Instance && c2.index < cs.num_instance) && 0 <= rr
                            < final(l).asn.n && !(c2.kind == ColumnKind::Advice && rr == base && (c2.index
                            == self.config.col_a.index || c2.index == self.config.col_b.index
                            || c2.index == self.config.col_c.index)) ==> final(l).asn.val(c2, rr) == old(
                            l,
                        ).asn.val(c2, rr)
                    &&& final(l).asn.tables == old(l).asn.tables
                    &&& final(l).asn.copies@ == old(l).asn.copies@.push(
                        (prev_b.cell, Cell { column: self.config.col_a, row: old(l).offset }),
                    ).push((prev_c.cell, Cell { column: self.config.col_b, row: old(l).offset }))
                    &&& final(l).asn.fixed == old(l).asn.fixed
                    &&& forall|j: int|
                        0 <= j < final(l).asn.advice.len() && j != self.config.col_a.index && j
                            != self.config.col_b.index && j != self.config.col_c.index ==> (
                        #[trigger] final(l).asn.advice[j]) == old(l).asn.advice[j]
                    &&& forall|rr: int|
                        0 <= rr < final(l).asn.n && rr != base ==> (
                        #[trigger] final(l).asn.advice[self.config.col_a.index as int][rr]) == old(
                            l,
                        ).asn.advice[self.config.col_a.index as int][rr]
                            && final(l).asn.advice[self.config.col_b.index as int][rr]
                            == old(l).asn.advice[self.config.col_b.index as int][rr]
                            && final(l).asn.advice[self.config.col_c.index as int][rr]
                            == old(l).asn.advice[self.config.col_c.index as int][rr]
                    &&& forall|j: int|
                        0 <= j < final(l).asn.selectors.len() && j != self.config.selector.index
                            ==> (#[trigger] final(l).asn.selectors[j]) == old(l).asn.selectors[j]
                    &&& forall|rr: int|
                        0 <= rr < final(l).asn.n && rr != base ==> (
                        #[trigger] final(l).asn.selectors[self.config.selector.index as int][rr])
                            == old(l).asn.selectors[self.config.selector.index as int][rr]
                },
                Err(e) => {
                    &&& *final(l) == *old(l)
                    &&& e == Error::NotEnoughRows
                    &&& old(l).offset >= old(l).asn.n
                },
            },
    {
        if l.offset >= l.asn.n {
            return Err(Error::NotEnoughRows);
        }
        l.start_region();
        let a_cell = match l.copy_advice(cs, prev_b, self.config.col_a, 0) {
            Ok(c) => c,
            Err(_) => {
                proof {
                    assert(false);
                }
                return Err(Error::Synthesis);
            },
        };
        proof {
            assert(l.asn.advice[self.config.col_b.index as int] == old(
                l,
            ).asn.advice[self.config.col_b.index as int]);
            assert(l.region_base == old(l).offset);
            assert(old(l).asn.advice[self.config.col_b.index as int][l.region_base as int]
                is None);
        }
        let b_cell = match l.copy_advice(cs, prev_c, self.config.col_b, 0) {
            Ok(c) => c,
            Err(_) => {
                proof {
                    assert(false);
                }
                return Err(Error::Synthesis);
            },
        };
        let sum = a_cell.value.add(b_cell.value);
        proof {
            assert(l.asn.advice[self.config.col_c.index as int] == old(
                l,
            ).asn.advice[self.config.col_c.index as int]);
            assert(l.region_base == old(l).offset);
            assert(old(l).asn.advice[self.config.col_c.index as int][l.region_base as int]
                is None);
        }
        let c_cell = match l.assign_advice(self.config.col_c, 0, sum) {
            Ok(c) => c,
            Err(_) => {
                proof {
                    assert(false);
                }
                return Err(Error::Synthesis);
            },
        };
        match l.enable_selector(self.config.selector, 0) {
            Ok(()) => {},
            Err(_) => {
                proof {
                    assert(false);
                }
                return Err(Error::Synthesis);
            },
        };
        l.end_region();
        Ok(c_cell)
    }

    /// Binds an already-assigned cell to row `row` of the public-input
    /// column.
    pub fn expose_public(
        &self,
        l: &mut Layouter,
        cs: &ConstraintSystem,
        cell: &AssignedCell,
        row: usize,
    ) -> (r: Result<(), Error>)
        requires
            old(l).wf(),
            old(l).asn.wf(*cs),
            self.config.wf(*cs),
            old(l).asn.cell_wf(cell.cell),
            cs.eq_enabled(cell.cell.column),
        ensures
            final(l).wf(),
            final(l).asn.wf(*cs),
            final(l).in_region == old(l).in_region,
            final(l).offset == old(l).offset,
            final(l).asn.n == old(l).asn.n,
            final(l).asn.instance == old(l).asn.instance,
            match r {
                Ok(()) => {
                    &&& row < old(l).asn.instance[self.config.instance.index as int].len()
                    &&& crate::circuit::copies_pushed(
                        old(l).asn,
                        final(l).asn,
                        (cell.cell, instance_cell(self.config.instance.index, row)),
                    )
                },
                Err(e) => {
                    &&& *final(l) == *old(l)
                    &&& e == Error::InstanceOutOfBounds
                    &&& row >= old(l).asn.instance[self.config.instance.index as int].len()
                },
            },
    {
        l.constrain_instance(cs, cell.cell(), self.config.instance, row)
    }
}

/// End to end: on the grid `synthesize` fills into a fresh layouter, the
/// circuit is satisfied exactly when the third public input equals element
/// 9 of the recurrence seeded by the first two. The contracts of
/// `configure`, `Layouter::new` and `synthesize` supply every premise.
pub proof fn lemma_synthesized_satisfied(
    cs: ConstraintSystem,
    config: FibonacciConfig,
    a: Assignment,
)
    requires
        config.wf(cs),
        cs.gates.len() == 1,
        cs.gates[0].selector == config.selector,
        cs.gates[0].polys.len() == 1,
        cs.gates[0].polys[0].1 == add_gate_poly(config),
        cs.lookups.len() == 0,
        8 <= a.n,
        config.instance.index < a.instance.len(),
        a.instance[config.instance.index as int].len() >= 3,
        a.copies@ == Seq::new(17, |k: int| chain_copy(config, k)),
        forall|rr: int|
            0 <= rr < 8 ==> a.val(config.col_a, rr) == fib_spec(
                a.instance[config.instance.index as int][0]@,
                a.instance[config.instance.index as int][1]@,
                rr as nat,
            ),
        forall|rr: int|
            0 <= rr < 8 ==> a.val(config.col_b, rr) == fib_spec(
                a.instance[config.instance.index as int][0]@,
                a.instance[config.instance.index as int][1]@,
                (rr + 1) as nat,
            ),
        forall|rr: int|
            0 <= rr < 8 ==> a.val(config.col_c, rr) == fib_spec(
                a.instance[config.instance.index as int][0]@,
                a.instance[config.instance.index as int][1]@,
                (rr + 2) as nat,
            ),
        forall|rr: int| 0 <= rr < 8 ==> a.sel(config.selector.index as int, rr),
        forall|rr: int| 8 <= rr < a.n ==> !(#[trigger] a.sel(config.selector.index as int, rr)),
    ensures
        satisfied(cs, a) <==> a.instance[config.instance.index as int][2]@ == fib_spec(
            a.instance[config.instance.index as int][0]@,
            a.instance[config.instance.index as int][1]@,
            9,
        ),
{
    let idx = config.instance.index as int;
    let i0 = a.instance[idx][0]@;
    let i1 = a.instance[idx][1]@;
    let out = a.instance[idx][2]@;
    assert forall|gi: int, pi: int, row: int|
        0 <= gi < cs.gates.len() && 0 <= pi < cs.gates[gi].polys.len() && 0 <= row
            < a.n implies !gate_violated(cs, a, gi, pi, row) by {
        if row < 8 {
            let qa = Expr::Query(config.col_a, 0);
            let qb = Expr::Query(config.col_b, 0);
            let qc = Expr::Query(config.col_c, 0);
            let lhs = Expr::Sum(Box::new(qa), Box::new(qb));
            let negc = Expr::Negated(Box::new(qc));
            assert(add_gate_poly(config) == Expr::Sum(Box::new(lhs), Box::new(negc)));
            assert(eval(qa, a, row) == a.val(config.col_a, row));
            assert(eval(qb, a, row) == a.val(config.col_b, row));
            assert(eval(qc, a, row) == a.val(config.col_c, row));
            assert(eval(lhs, a, row) == fadd(eval(qa, a, row), eval(qb, a, row)));
            assert(eval(negc, a, row) == fneg(eval(qc, a, row)));
            assert(eval(add_gate_poly(config), a, row) == fadd(
                eval(lhs, a, row),
                eval(negc, a, row),
            ));
            let x = fadd(a.val(config.col_a, row), a.val(config.col_b, row));
            assert(fib_spec(i0, i1, (row + 2) as nat) == fadd(
                fib_spec(i0, i1, row as nat),
                fib_spec(i0, i1, (row + 1) as nat),
            ));
            assert(a.val(config.col_c, row) == x);
            vstd::arithmetic::div_mod::lemma_add_mod_noop_right(
                x,
                -x,
                crate::field::modulus(),
            );
            vstd::arithmetic::div_mod::lemma_small_mod(0nat, crate::field::MODULUS as nat);
            assert(fadd(x, fneg(x)) == 0);
        } else {
            assert(!a.sel(config.selector.index as int, row));
        }
    }
    assert(gates_ok(cs, a));
    assert(lookups_ok(cs, a));
    assert forall|ci: int| 0 <= ci < a.copies@.len() && ci != 16 implies !copy_violated(
        a,
        ci,
    ) by {
        assert(a.copies@[ci] == chain_copy(config, ci));
        if ci == 0 {
            assert(a.val(config.col_a, 0) == fib_spec(i0, i1, 0));
        } else if ci == 1 {
            assert(a.val(config.col_b, 0) == fib_spec(i0, i1, 1));
        } else if ci % 2 == 0 {
            let r = ci / 2;
            assert(1 <= r < 8);
            if r == 1 {
                assert(a.val(config.col_b, 0) == fib_spec(i0, i1, 1));
                assert(a.val(config.col_a, 1) == fib_spec(i0, i1, 1));
            } else {
                assert(a.val(config.col_c, r - 2) == fib_spec(i0, i1, r as nat));
                assert(a.val(config.col_a, r) == fib_spec(i0, i1, r as nat));
            }
        } else {
            let r = ci / 2;
            assert(1 <= r < 8);
            assert(a.val(config.col_c, r - 1) == fib_spec(i0, i1, (r + 1) as nat));
            assert(a.val(config.col_b, r) == fib_spec(i0, i1, (r + 1) as nat));
        }
    }
    assert(a.copies@[16] == chain_copy(config, 16));
    assert(a.val(config.col_c, 7) == fib_spec(i0, i1, 9));
    assert(copy_violated(a, 16) <==> fib_spec(i0, i1, 9) != out);
    if out == fib_spec(i0, i1, 9) {
        assert forall|ci: int| 0 <= ci < a.copies@.len() implies !copy_violated(a, ci) by {
            if ci != 16 {
                assert(!copy_violated(a, ci));
            }
        }
        assert(copies_ok(a));
    } else {
        assert(copy_violated(a, 16));
        assert(!copies_ok(a));
    }
}

/// The circuit itself: ten sequence elements, one region per step after the
/// first, with the last element exposed against public-input row 2.
pub struct MyCircuit {}

impl MyCircuit {
    /// Declares the chip's columns and gate.
    pub fn configure(cs: &mut ConstraintSystem) -> (config: FibonacciConfig)
        requires
            old(cs).wf(),
            old(cs).num_advice + 3 <= usize::MAX,
            old(cs).num_instance < usize::MAX,
            old(cs).num_selectors < usize::MAX,
        ensures
            final(cs).wf(),
            config.wf(*final(cs)),
            config.col_a == (Column { kind: ColumnKind::Advice, index: old(cs).num_advice }),
            config.col_b == (Column {
                kind: ColumnKind::Advice,
                index: (old(cs).num_advice + 1) as usize,
            }),
            config.col_c == (Column {
                kind: ColumnKind::Advice,
                index: (old(cs).num_advice + 2) as usize,
            }),
            config.selector == (Selector { index: old(cs).num_selectors, complex: false }),
            config.instance == (Column {
                kind: ColumnKind::Instance,
                index: old(cs).num_instance,
            }),
            final(cs).num_advice == old(cs).num_advice + 3,
            final(cs).num_fixed == old(cs).num_fixed,
            final(cs).num_instance == old(cs).num_instance + 1,
            final(cs).num_tables == old(cs).num_tables,
            final(cs).num_selectors == old(cs).num_selectors + 1,
            final(cs).advice_eq@ == old(cs).advice_eq@.push(true).push(true).push(true),
            final(cs).instance_eq@ == old(cs).instance_eq@.push(true),
            final(cs).lookups == old(cs).lookups,
            final(cs).gates@.len() == old(cs).gates@.len() + 1,
            forall|g: int|
                0 <= g < old(cs).gates@.len() ==> final(cs).gates@[g] == old(cs).gates@[g],
            final(cs).gates@.last().name == "add",
            final(cs).gates@.last().selector == config.selector,
            final(cs).gates@.last().polys@.len() == 1,
            final(cs).gates@.last().polys@[0].0 == "add",
            final(cs).gates@.last().polys@[0].1 == add_gate_poly(config),
    {
        FibonacciChip::configure(cs)
    }

    /// Fills the grid with the first ten sequence elements and binds the
    /// seeds to public-input rows 0 and 1 and the result to row 2.
    #[verifier::loop_isolation(false)]
    #[verifier::rlimit(50)]
    pub fn synthesize(&self, config: FibonacciConfig, l: &mut Layouter, cs: &ConstraintSystem) -> (r:
        Result<(), Error>)
        requires
            old(l).wf(),
            !old(l).in_region,
            old(l).offset == 0,
            old(l).asn.wf(*cs),
            config.wf(*cs),
        ensures
            final(l).wf(),
            final(l).asn.wf(*cs),
            !final(l).in_region,
            final(l).asn.n == old(l).asn.n,
            final(l).asn.instance == old(l).asn.instance,
            (r is Ok <==> old(l).asn.n >= 8 && old(
                l,
            ).asn.instance[config.instance.index as int].len() >= 3),
            r is Err ==> *final(l) == *old(l) && (r->Err_0 == Error::NotEnoughRows <==> old(
                l,
            ).asn.n < 8) && (r->Err_0 == Error::InstanceOutOfBounds <==> old(l).asn.n >= 8 && old(
                l,
            ).asn.instance[config.instance.index as int].len() < 3),
            r is Ok ==> ({
                let i0 = old(l).asn.instance[config.instance.index as int][0]@;
                let i1 = old(l).asn.instance[config.instance.index as int][1]@;
                &&& final(l).offset == 8
                &&& forall|rr: int|
                    0 <= rr < 8 ==> final(l).asn.val(config.col_a, rr) == fib_spec(i0, i1, rr as nat)
                &&& forall|rr: int|
                    0 <= rr < 8 ==> final(l).asn.val(config.col_b, rr) == fib_spec(i0, i1, (rr + 1) as nat)
                &&& forall|rr: int|
                    0 <= rr < 8 ==> final(l).asn.val(config.col_c, rr) == fib_spec(i0, i1, (rr + 2) as nat)
                &&& forall|rr: int| 0 <= rr < 8 ==> final(l).asn.sel(config.selector.index as int, rr)
                &&& final(l).asn.copies@ == old(l).asn.copies@ + Seq::new(
                    17,
                    |k: int| chain_copy(config, k),
                )
                &&& final(l).asn.fixed == old(l).asn.fixed
                &&& final(l).asn.tables == old(l).asn.tables
                &&& forall|j: int|
                    0 <= j < final(l).asn.advice.len() && j != config.col_a.index && j
                        != config.col_b.index && j != config.col_c.index ==> (
                    #[trigger] final(l).asn.advice[j]) == old(l).asn.advice[j]
                &&& forall|rr: int|
                    8 <= rr < final(l).asn.n ==> (
                    #[trigger] final(l).asn.advice[config.col_a.index as int][rr]) == old(
                        l,
                    ).asn.advice[config.col_a.index as int][rr]
                        && final(l).asn.advice[config.col_b.index as int][rr]
                        == old(l).asn.advice[config.col_b.index as int][rr]
                        && final(l).asn.advice[config.col_c.index as int][rr]
                        == old(l).asn.advice[config.col_c.index as int][rr]
                &&& forall|j: int|
                    0 <= j < final(l).asn.selectors.len() && j != config.selector.index ==> (
                    #[trigger] final(l).asn.selectors[j]) == old(l).asn.selectors[j]
                &&& forall|rr: int|
                    8 <= rr < final(l).asn.n ==> (
                    #[trigger] final(l).asn.selectors[config.selector.index as int][rr]) == old(
                        l,
                    ).asn.selectors[config.selector.index as int][rr]
            }),
    {
        if l.asn.n < 8 {
            return Err(Error::NotEnoughRows);
        }
        if l.asn.instance[config.instance.index].len() < 3 {
            return Err(Error::InstanceOutOfBounds);
        }
        let ghost i0 = l.asn.instance[config.instance.index as int][0]@;
        let ghost i1 = l.asn.instance[config.instance.index as int][1]@;
        let chip = FibonacciChip::construct(config);
        let first = match chip.assign_first_row(l, cs) {
            Ok(cells) => cells,
            Err(_) => {
                proof {
                    assert(false);
                }
                return Err(Error::Synthesis);
            },
        };
        let mut prev_b = first.1;
        let mut prev_c = first.2;
        proof {
            assert(fib_spec(i0, i1, 2) == fadd(fib_spec(i0, i1, 0), fib_spec(i0, i1, 1)));
            assert(fib_spec(i0, i1, 0) == i0);
            assert(fib_spec(i0, i1, 1) == i1);
            assert(l.asn.copies@ =~= old(l).asn.copies@ + Seq::new(
                2,
                |k: int| chain_copy(config, k),
            ));
        }
        let mut i: usize = 3;
        while i < 10
            invariant
                3 <= i <= 10,
                l.wf(),
                !l.in_region,
                l.asn.wf(*cs),
                config.wf(*cs),
                l.asn.n == old(l).asn.n,
                l.asn.n >= 8,
                l.asn.instance == old(l).asn.instance,
                i0 == old(l).asn.instance[config.instance.index as int][0]@,
                i1 == old(l).asn.instance[config.instance.index as int][1]@,
                l.offset == i - 2,
                prev_b.value@ == fib_spec(i0, i1, (i - 2) as nat),
                prev_c.value@ == fib_spec(i0, i1, (i - 1) as nat),
                prev_b.cell.column.kind == ColumnKind::Advice,
                prev_b.cell == (if i == 3 {
                    Cell { column: config.col_b, row: 0 }
                } else {
                    Cell { column: config.col_c, row: (i - 4) as usize }
                }),
                prev_c.cell == (Cell { column: config.col_c, row: (i - 3) as usize }),
                l.asn.cell_wf(prev_b.cell),
                l.asn.cell_wf(prev_c.cell),
                cs.eq_enabled(prev_b.cell.column),
                cs.eq_enabled(prev_c.cell.column),
                forall|rr: int|
                    0 <= rr < i - 2 ==> l.asn.val(config.col_a, rr) == fib_spec(i0, i1, rr as nat),
                forall|rr: int|
                    0 <= rr < i - 2 ==> l.asn.val(config.col_b, rr) == fib_spec(
                        i0,
                        i1,
                        (rr + 1) as nat,
                    ),
                forall|rr: int|
                    0 <= rr < i - 2 ==> l.asn.val(config.col_c, rr) == fib_spec(
                        i0,
                        i1,
                        (rr + 2) as nat,
                    ),
                forall|rr: int| 0 <= rr < i - 2 ==> l.asn.sel(config.selector.index as int, rr),
                l.asn.copies@ == old(l).asn.copies@ + Seq::new(
                    (2 * (i - 2)) as nat,
                    |k: int| chain_copy(config, k),
                ),
                l.asn.fixed == old(l).asn.fixed,
                l.asn.tables == old(l).asn.tables,
                forall|j: int|
                    0 <= j < l.asn.advice.len() && j != config.col_a.index && j
                        != config.col_b.index && j != config.col_c.index ==> (
                    #[trigger] l.asn.advice[j]) == old(l).asn.advice[j],
                forall|rr: int|
                    i - 2 <= rr < l.asn.n ==> (
                    #[trigger] l.asn.advice[config.col_a.index as int][rr]) == old(
                        l,
                    ).asn.advice[config.col_a.index as int][rr]
                        && l.asn.advice[config.col_b.index as int][rr]
                        == old(l).asn.advice[config.col_b.index as int][rr]
                        && l.asn.advice[config.col_c.index as int][rr]
                        == old(l).asn.advice[config.col_c.index as int][rr],
                forall|j: int|
                    0 <= j < l.asn.selectors.len() && j != config.selector.index ==> (
                    #[trigger] l.asn.selectors[j]) == old(l).asn.selectors[j],
                forall|rr: int|
                    i - 2 <= rr < l.asn.n ==> (
                    #[trigger] l.asn.selectors[config.selector.index as int][rr]) == old(
                        l,
                    ).asn.selectors[config.selector.index as int][rr],
            decreases 10 - i,
        {
            let ghost lprev = *l;
            let c_cell = match chip.assign_row(l, cs, &prev_b, &prev_c) {
                Ok(c) => c,
                Err(_) => {
                    proof {
                        assert(false);
                    }
                    return Err(Error::Synthesis);
                },
            };
            proof {
                assert(chain_copy(config, 2 * (i - 2)) == (
                    prev_b.cell,
                    Cell { column: config.col_a, row: (i - 2) as usize },
                ));
                assert(chain_copy(config, 2 * (i - 2) + 1) == (
                    prev_c.cell,
                    Cell { column: config.col_b, row: (i - 2) as usize },
                ));
                assert(l.asn.copies@ =~= old(l).asn.copies@ + Seq::new(
                    (2 * (i - 1)) as nat,
                    |k: int| chain_copy(config, k),
                ));
            }
            prev_b = prev_c;
            prev_c = c_cell;
            i = i + 1;
        }
        let ghost lpre = *l;
        match chip.expose_public(l, cs, &prev_c, 2) {
            Ok(()) => {},
            Err(_) => {
                proof {
                    assert(false);
                }
                return Err(Error::Synthesis);
            },
        };
        proof {
            assert(l.asn.advice == lpre.asn.advice);
            assert(l.asn.selectors == lpre.asn.selectors);
            assert forall|rr: int| 0 <= rr < 8 implies l.asn.val(config.col_a, rr) == fib_spec(
                i0,
                i1,
                rr as nat,
            ) by {
                assert(lpre.asn.val(config.col_a, rr) == fib_spec(i0, i1, rr as nat));
            }
            assert forall|rr: int| 0 <= rr < 8 implies l.asn.val(config.col_b, rr) == fib_spec(
                i0,
                i1,
                (rr + 1) as nat,
            ) by {
                assert(lpre.asn.val(config.col_b, rr) == fib_spec(i0, i1, (rr + 1) as nat));
            }
            assert forall|rr: int| 0 <= rr < 8 implies l.asn.val(config.col_c, rr) == fib_spec(
                i0,
                i1,
                (rr + 2) as nat,
            ) by {
                assert(lpre.asn.val(config.col_c, rr) == fib_spec(i0, i1, (rr + 2) as nat));
            }
            assert forall|rr: int| 0 <= rr < 8 implies l.asn.sel(
                config.selector.index as int,
                rr,
            ) by {
                assert(lpre.asn.sel(config.selector.index as int, rr));
            }
        }
        proof {
            assert(chain_copy(config, 16) == (
                Cell { column: config.col_c, row: 7 },
                instance_cell(config.instance.index, 2),
            ));
            assert(l.asn.copies@ =~= old(l).asn.copies@ + Seq::new(
                17,
                |k: int| chain_copy(config, k),
            ));
        }
        Ok(())
    }
}

} // verus!
