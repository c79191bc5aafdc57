//! The satisfiability checker: replays a finished assignment against every
//! declared constraint and reports all violations.
//!
//! The checker never stops at the first finding. Its result is either an
//! empty list (the witness satisfies the circuit) or the complete list of
//! gate, copy-constraint and lookup violations, so a caller can assert exact
//! violation sets. Faults in the circuit's own configuration (a rotation or
//! column query leaving the domain on an active row) are a fatal error, not
//! a violation.

use vstd::prelude::*;
use crate::circuit::{opt_val, Assignment};
use crate::column::{Cell, Column, ColumnKind, TableColumn};
use crate::error::Error;
use crate::expression::Expr;
use crate::field::{fadd, fmul, fneg, Fp};
use crate::plonk::ConstraintSystem;

verus! {

/// One finding of the checker.
#[derive(Clone, Copy, PartialEq, Eq, Structural, Debug)]
pub enum Violation {
    /// Sub-constraint `poly` of gate `gate` evaluates to a non-zero value at
    /// `row` although its guarding selector is active there.
    Gate { gate: usize, poly: usize, row: usize },
    /// The two cells of copy constraint `index` hold different values.
    CopyMismatch { index: usize, left: Cell, right: Cell },
    /// The input tuple of lookup `lookup` at an active `row` appears nowhere
    /// in its table.
    LookupMiss { lookup: usize, row: usize },
}

/// The value of an expression at `row`, over the resolved grid.
pub open spec fn eval(e: Expr, a: Assignment, row: int) -> int
    decreases e,
{
    match e {
        Expr::Constant(c) => c@,
        Expr::Query(c, rot) => a.val(c, row + rot),
        Expr::Sum(x, y) => fadd(eval(*x, a, row), eval(*y, a, row)),
        Expr::Product(x, y) => fmul(eval(*x, a, row), eval(*y, a, row)),
        Expr::Negated(x) => fneg(eval(*x, a, row)),
        Expr::Scaled(x, f) => fmul(eval(*x, a, row), f@),
    }
}

impl Expr {
    /// Exec check that every query lands inside the row domain.
    pub fn rows_ok(&self, n: usize, row: usize) -> (r: bool)
        requires
            row < n,
            n <= 0x8000_0000,
        ensures
            r == self.rows_in_domain(n as int, row as int),
        decreases *self,
    {
        match self {
            Expr::Constant(_) => true,
            Expr::Query(_, rot) => {
                let abs: i64 = row as i64 + *rot as i64;
                0 <= abs && abs < n as i64
            },
            Expr::Sum(x, y) => x.rows_ok(n, row) && y.rows_ok(n, row),
            Expr::Product(x, y) => x.rows_ok(n, row) && y.rows_ok(n, row),
            Expr::Negated(x) => x.rows_ok(n, row),
            Expr::Scaled(x, _) => x.rows_ok(n, row),
        }
    }

    /// Exec check that every query names a declared column.
    pub fn cols_ok(&self, num_advice: usize, num_fixed: usize, num_instance: usize) -> (r: bool)
        ensures
            r == self.cols_in_domain(num_advice as int, num_fixed as int, num_instance as int),
        decreases *self,
    {
        match self {
            Expr::Constant(_) => true,
            Expr::Query(c, _) => match c.kind {
                ColumnKind::Advice => c.index < num_advice,
                ColumnKind::Fixed => c.index < num_fixed,
                ColumnKind::Instance => c.index < num_instance,
            },
            Expr::Sum(x, y) => x.cols_ok(num_advice, num_fixed, num_instance) && y.cols_ok(
                num_advice,
                num_fixed,
                num_instance,
            ),
            Expr::Product(x, y) => x.cols_ok(num_advice, num_fixed, num_instance) && y.cols_ok(
                num_advice,
                num_fixed,
                num_instance,
            ),
            Expr::Negated(x) => x.cols_ok(num_advice, num_fixed, num_instance),
            Expr::Scaled(x, _) => x.cols_ok(num_advice, num_fixed, num_instance),
        }
    }
}

/// Exec evaluation of an expression at `row` of the grid.
pub fn eval_expr(a: &Assignment, e: &Expr, row: usize) -> (v: Fp)
    requires
        a.shape_ok(),
        row < a.n,
        a.n <= 0x8000_0000,
        e.rows_in_domain(a.n as int, row as int),
        e.cols_in_domain(a.advice.len() as int, a.fixed.len() as int, a.instance.len() as int),
    ensures
        v@ == eval(*e, *a, row as int),
    decreases *e,
{
    match e {
        Expr::Constant(c) => *c,
        Expr::Query(c, rot) => {
            let abs: i64 = row as i64 + *rot as i64;
            a.value_of(*c, abs as usize)
        },
        Expr::Sum(x, y) => {
            let xv = eval_expr(a, x, row);
            let yv = eval_expr(a, y, row);
            xv.add(yv)
        },
        Expr::Product(x, y) => {
            let xv = eval_expr(a, x, row);
            let yv = eval_expr(a, y, row);
            xv.mul(yv)
        },
        Expr::Negated(x) => {
            let xv = eval_expr(a, x, row);
            xv.neg()
        },
        Expr::Scaled(x, f) => {
            let xv = eval_expr(a, x, row);
            xv.mul(*f)
        },
    }
}

/// Sub-constraint `pi` of gate `gi` is violated at `row`: its guarding
/// selector is active there and the expression does not vanish.
pub open spec fn gate_violated(
    cs: ConstraintSystem,
    a: Assignment,
    gi: int,
    pi: int,
    row: int,
) -> bool {
    let g = cs.gates[gi];
    &&& a.sel(g.selector.index as int, row)
    &&& eval(g.polys[pi].1, a, row) != 0
}

/// Every gate holds on every row of the grid.
pub open spec fn gates_ok(cs: ConstraintSystem, a: Assignment) -> bool {
    forall|gi: int, pi: int, row: int|
        0 <= gi < cs.gates.len() && 0 <= pi < cs.gates[gi].polys.len() && 0 <= row < a.n
            ==> !gate_violated(cs, a, gi, pi, row)
}

/// Copy constraint `ci` relates two cells with different resolved values.
pub open spec fn copy_violated(a: Assignment, ci: int) -> bool {
    a.cell_val(a.copies[ci].0) != a.cell_val(a.copies[ci].1)
}

/// Every declared copy constraint holds, so every equivalence class of
/// cells it generates has a unique underlying value.
pub open spec fn copies_ok(a: Assignment) -> bool {
    forall|ci: int| 0 <= ci < a.copies.len() ==> !copy_violated(a, ci)
}

/// The input tuple of lookup `li` at `row` equals the table tuple at `trow`:
/// every table cell there is assigned and matches its input expression.
pub open spec fn lookup_row_matches(
    cs: ConstraintSystem,
    a: Assignment,
    li: int,
    row: int,
    trow: int,
) -> bool {
    let lk = cs.lookups[li];
    forall|j: int|
        0 <= j < lk.inputs.len() ==> {
            let t = (#[trigger] lk.tables[j]).index as int;
            &&& a.table_val(t, trow) is Some
            &&& opt_val(a.table_val(t, trow)) == eval(lk.inputs[j], a, row)
        }
}

/// Lookup `li` is violated at `row`: its selector is active there and no
/// table row carries the input tuple (membership is order-independent).
pub open spec fn lookup_violated(cs: ConstraintSystem, a: Assignment, li: int, row: int) -> bool {
    &&& a.sel(cs.lookups[li].selector.index as int, row)
    &&& !exists|trow: int| 0 <= trow < a.n && lookup_row_matches(cs, a, li, row, trow)
}

/// Every lookup argument holds on every row where its selector is active.
pub open spec fn lookups_ok(cs: ConstraintSystem, a: Assignment) -> bool {
    forall|li: int, row: int|
        0 <= li < cs.lookups.len() && 0 <= row < a.n ==> !lookup_violated(cs, a, li, row)
}

/// The assignment satisfies every declared constraint.
pub open spec fn satisfied(cs: ConstraintSystem, a: Assignment) -> bool {
    &&& gates_ok(cs, a)
    &&& copies_ok(a)
    &&& lookups_ok(cs, a)
}

/// Every query of the expression, evaluated at `row`, stays inside the grid.
pub open spec fn expr_domain_ok(e: Expr, a: Assignment, row: int) -> bool {
    &&& e.rows_in_domain(a.n as int, row)
    &&& e.cols_in_domain(a.advice.len() as int, a.fixed.len() as int, a.instance.len() as int)
}

/// If gate `gi` is active at `row`, sub-constraint `pi` stays inside the
/// grid there.
pub open spec fn gate_poly_domain_ok(
    cs: ConstraintSystem,
    a: Assignment,
    gi: int,
    pi: int,
    row: int,
) -> bool {
    a.sel(cs.gates[gi].selector.index as int, row) ==> expr_domain_ok(cs.gates[gi].polys[pi].1, a, row)
}

/// If lookup `li` is active at `row`, its input `j` stays inside the grid
/// there.
pub open spec fn lookup_input_domain_ok(
    cs: ConstraintSystem,
    a: Assignment,
    li: int,
    j: int,
    row: int,
) -> bool {
    a.sel(cs.lookups[li].selector.index as int, row) ==> expr_domain_ok(cs.lookups[li].inputs[j], a, row)
}

/// On every row where a gate's selector is active, all of its queries stay
/// inside the grid.
pub open spec fn gates_domain_ok(cs: ConstraintSystem, a: Assignment) -> bool {
    forall|gi: int, pi: int, row: int|
        0 <= gi < cs.gates.len() && 0 <= pi < cs.gates[gi].polys.len() && 0 <= row < a.n ==> (
        #[trigger] gate_poly_domain_ok(cs, a, gi, pi, row))
}

/// On every row where a lookup's selector is active, all queries of its
/// input expressions stay inside the grid.
pub open spec fn lookups_domain_ok(cs: ConstraintSystem, a: Assignment) -> bool {
    forall|li: int, j: int, row: int|
        0 <= li < cs.lookups.len() && 0 <= j < cs.lookups[li].inputs.len() && 0 <= row < a.n ==> (
        #[trigger] lookup_input_domain_ok(cs, a, li, j, row))
}

/// Every evaluation the checker performs stays inside the grid.
pub open spec fn domain_ok(cs: ConstraintSystem, a: Assignment) -> bool {
    gates_domain_ok(cs, a) && lookups_domain_ok(cs, a)
}

/// `x` is a gate violation that actually holds of the grid.
pub open spec fn is_gate_violation(cs: ConstraintSystem, a: Assignment, x: Violation) -> bool {
    match x {
        Violation::Gate { gate, poly, row } => {
            &&& gate < cs.gates.len()
            &&& poly < cs.gates[gate as int].polys.len()
            &&& row < a.n
            &&& gate_violated(cs, a, gate as int, poly as int, row as int)
        },
        _ => false,
    }
}

/// `x` is a copy-constraint violation that actually holds of the grid.
pub open spec fn is_copy_violation(a: Assignment, x: Violation) -> bool {
    match x {
        Violation::CopyMismatch { index, left, right } => {
            &&& index < a.copies.len()
            &&& left == a.copies[index as int].0
            &&& right == a.copies[index as int].1
            &&& copy_violated(a, index as int)
        },
        _ => false,
    }
}

/// `x` is a lookup violation that actually holds of the grid.
pub open spec fn is_lookup_violation(cs: ConstraintSystem, a: Assignment, x: Violation) -> bool {
    match x {
        Violation::LookupMiss { lookup, row } => {
            &&& lookup < cs.lookups.len()
            &&& row < a.n
            &&& lookup_violated(cs, a, lookup as int, row as int)
        },
        _ => false,
    }
}

/// `x` is a gate violation strictly before position `(gi, pi, row)` in the
/// order the checker visits them.
pub open spec fn gate_entry_before(x: Violation, gi: int, pi: int, row: int) -> bool {
    match x {
        Violation::Gate { gate, poly, row: rr } => gate < gi || (gate == gi && ((poly as int) < pi
            || (poly == pi && (rr as int) < row))),
        _ => false,
    }
}

/// `x` is a lookup violation strictly before position `(li, row)` in the
/// order the checker visits them.
pub open spec fn lookup_entry_before(x: Violation, li: int, row: int) -> bool {
    match x {
        Violation::LookupMiss { lookup, row: rr } => lookup < li || (lookup == li && (rr as int)
            < row),
        _ => false,
    }
}

/// No element of the list appears twice.
pub open spec fn all_distinct(v: Seq<Violation>) -> bool {
    forall|t1: int, t2: int| 0 <= t1 < t2 < v.len() ==> v[t1] != v[t2]
}

/// Replays every gate on every row. Returns the complete list of gate
/// violations, or the configuration error if a query of an active gate
/// leaves the grid.
#[verifier::loop_isolation(false)]
pub fn check_gates(cs: &ConstraintSystem, a: &Assignment) -> (r: Result<Vec<Violation>, Error>)
    requires
        cs.wf(),
        a.wf(*cs),
        a.n <= 0x8000_0000,
    ensures
        match r {
            Ok(v) => {
                &&& gates_domain_ok(*cs, *a)
                &&& forall|i: int|
                    0 <= i < v@.len() ==> is_gate_violation(*cs, *a, #[trigger] v@[i])
                &&& forall|g: int, p: int, rr: int|
                    0 <= g < cs.gates.len() && 0 <= p < cs.gates[g].polys.len() && 0 <= rr < a.n
                        && gate_violated(*cs, *a, g, p, rr) ==> v@.contains(
                        Violation::Gate { gate: g as usize, poly: p as usize, row: rr as usize },
                    )
                &&& all_distinct(v@)
            },
            Err(e) => {
                &&& !gates_domain_ok(*cs, *a)
                &&& (e == Error::RotationOutOfBounds || e == Error::ColumnOutOfBounds)
            },
        },
{
    let mut out: Vec<Violation> = Vec::new();
    let mut gi: usize = 0;
    while gi < cs.gates.len()
        invariant
            gi <= cs.gates.len(),
            all_distinct(out@),
            forall|t: int|
                0 <= t < out@.len() ==> gate_entry_before(#[trigger] out@[t], gi as int, 0, 0),
            forall|i: int| 0 <= i < out@.len() ==> is_gate_violation(*cs, *a, #[trigger] out@[i]),
            forall|g: int, p: int, rr: int|
                0 <= g < gi && 0 <= p < cs.gates[g].polys.len() && 0 <= rr < a.n && gate_violated(
                    *cs,
                    *a,
                    g,
                    p,
                    rr,
                ) ==> out@.contains(
                    Violation::Gate { gate: g as usize, poly: p as usize, row: rr as usize },
                ),
            forall|g: int, p: int, rr: int|
                0 <= g < gi && 0 <= p < cs.gates[g].polys.len() && 0 <= rr < a.n ==> (
                #[trigger] gate_poly_domain_ok(*cs, *a, g, p, rr)),
        decreases cs.gates.len() - gi,
    {
        let g = &cs.gates[gi];
        let mut pi: usize = 0;
        while pi < g.polys.len()
            invariant
                gi < cs.gates.len(),
                pi <= g.polys.len(),
                g == &cs.gates[gi as int],
                all_distinct(out@),
                forall|t: int|
                    0 <= t < out@.len() ==> gate_entry_before(
                        #[trigger] out@[t],
                        gi as int,
                        pi as int,
                        0,
                    ),
                forall|i: int|
                    0 <= i < out@.len() ==> is_gate_violation(*cs, *a, #[trigger] out@[i]),
                forall|g2: int, p: int, rr: int|
                    (0 <= g2 < gi && 0 <= p < cs.gates[g2].polys.len() || g2 == gi && 0 <= p < pi)
                        && 0 <= rr < a.n && gate_violated(*cs, *a, g2, p, rr) ==> out@.contains(
                        Violation::Gate { gate: g2 as usize, poly: p as usize, row: rr as usize },
                    ),
                forall|g2: int, p: int, rr: int|
                    (0 <= g2 < gi && 0 <= p < cs.gates[g2].polys.len() || g2 == gi && 0 <= p < pi)
                        && 0 <= rr < a.n ==> (#[trigger] gate_poly_domain_ok(*cs, *a, g2, p, rr)),
            decreases g.polys.len() - pi,
        {
            let e = &g.polys[pi].1;
            let mut row: usize = 0;
            while row < a.n
                invariant
                    gi < cs.gates.len(),
                    pi < g.polys.len(),
                    row <= a.n,
                    g == &cs.gates[gi as int],
                    e == &cs.gates[gi as int].polys[pi as int].1,
                    all_distinct(out@),
                    forall|t: int|
                        0 <= t < out@.len() ==> gate_entry_before(
                            #[trigger] out@[t],
                            gi as int,
                            pi as int,
                            row as int,
                        ),
                    forall|i: int|
                        0 <= i < out@.len() ==> is_gate_violation(*cs, *a, #[trigger] out@[i]),
                    forall|g2: int, p: int, rr: int|
                        (0 <= g2 < gi && 0 <= p < cs.gates[g2].polys.len() || g2 == gi && 0 <= p
                            < pi) && 0 <= rr < a.n && gate_violated(*cs, *a, g2, p, rr)
                            ==> out@.contains(
                            Violation::Gate {
                                gate: g2 as usize,
                                poly: p as usize,
                                row: rr as usize,
                            },
                        ),
                    forall|rr: int|
                        0 <= rr < row && gate_violated(*cs, *a, gi as int, pi as int, rr)
                            ==> out@.contains(
                            Violation::Gate { gate: gi, poly: pi, row: rr as usize },
                        ),
                    forall|g2: int, p: int, rr: int|
                        (0 <= g2 < gi && 0 <= p < cs.gates[g2].polys.len() || g2 == gi && 0 <= p
                            < pi) && 0 <= rr < a.n ==> (#[trigger] gate_poly_domain_ok(
                            *cs,
                            *a,
                            g2,
                            p,
                            rr,
                        )),
                    forall|rr: int|
                        0 <= rr < row ==> (#[trigger] gate_poly_domain_ok(
                            *cs,
                            *a,
                            gi as int,
                            pi as int,
                            rr,
                        )),
                decreases a.n - row,
            {
                let active = a.selectors[g.selector.index][row];
                if active {
                    if !e.rows_ok(a.n, row) {
                        proof {
                            assert(!gate_poly_domain_ok(
                                *cs,
                                *a,
                                gi as int,
                                pi as int,
                                row as int,
                            ));
                            assert(!gates_domain_ok(*cs, *a));
                        }
                        return Err(Error::RotationOutOfBounds);
                    }
                    if !e.cols_ok(a.advice.len(), a.fixed.len(), a.instance.len()) {
                        proof {
                            assert(!gate_poly_domain_ok(
                                *cs,
                                *a,
                                gi as int,
                                pi as int,
                                row as int,
                            ));
                            assert(!gates_domain_ok(*cs, *a));
                        }
                        return Err(Error::ColumnOutOfBounds);
                    }
                    proof {
                        assert(gate_poly_domain_ok(*cs, *a, gi as int, pi as int, row as int));
                    }
                    let val = eval_expr(a, e, row);
                    let z = Fp::zero();
                    proof {
                        Fp::lemma_view_injective(val, z);
                    }
                    if !(val == z) {
                        let ghost out_pre = out@;
                        out.push(Violation::Gate { gate: gi, poly: pi, row });
                        proof {
                            assert forall|y: Violation| out_pre.contains(y) implies out@.contains(
                                y,
                            ) by {
                                let idx = choose|idx: int|
                                    0 <= idx < out_pre.len() && out_pre[idx] == y;
                                assert(out@[idx] == y);
                            }
                            assert(out@[out@.len() - 1] == (Violation::Gate {
                                gate: gi,
                                poly: pi,
                                row,
                            }));
                            assert forall|t1: int, t2: int|
                                0 <= t1 < t2 < out@.len() implies out@[t1] != out@[t2] by {
                                if t2 < out@.len() - 1 {
                                    assert(out_pre[t1] != out_pre[t2]);
                                } else {
                                    assert(gate_entry_before(
                                        out_pre[t1],
                                        gi as int,
                                        pi as int,
                                        row as int,
                                    ));
                                }
                            }
                        }
                    }
                } else {
                    proof {
                        assert(gate_poly_domain_ok(*cs, *a, gi as int, pi as int, row as int));
                    }
                }
                row = row + 1;
            }
            proof {
                assert forall|t: int| 0 <= t < out@.len() implies gate_entry_before(
                    #[trigger] out@[t],
                    gi as int,
                    pi as int + 1,
                    0,
                ) by {
                    assert(gate_entry_before(out@[t], gi as int, pi as int, a.n as int));
                }
            }
            pi = pi + 1;
        }
        proof {
            assert forall|t: int| 0 <= t < out@.len() implies gate_entry_before(
                #[trigger] out@[t],
                gi as int + 1,
                0,
                0,
            ) by {
                assert(gate_entry_before(out@[t], gi as int, g.polys.len() as int, 0));
            }
        }
        gi = gi + 1;
    }
    Ok(out)
}

/// Checks every declared copy constraint: both cells of each pair must hold
/// the same resolved value.
#[verifier::loop_isolation(false)]
pub fn check_copies(a: &Assignment) -> (v: Vec<Violation>)
    requires
        a.shape_ok(),
        a.copies_wf(),
    ensures
        forall|i: int| 0 <= i < v@.len() ==> is_copy_violation(*a, #[trigger] v@[i]),
        forall|ci: int|
            0 <= ci < a.copies.len() && copy_violated(*a, ci) ==> v@.contains(
                Violation::CopyMismatch {
                    index: ci as usize,
                    left: a.copies[ci].0,
                    right: a.copies[ci].1,
                },
            ),
        all_distinct(v@),
{
    let mut out: Vec<Violation> = Vec::new();
    let mut ci: usize = 0;
    while ci < a.copies.len()
        invariant
            ci <= a.copies.len(),
            all_distinct(out@),
            forall|t: int|
                0 <= t < out@.len() ==> ((#[trigger] out@[t]) matches Violation::CopyMismatch {
                    index,
                    ..
                } && index < ci),
            forall|i: int| 0 <= i < out@.len() ==> is_copy_violation(*a, #[trigger] out@[i]),
            forall|c: int|
                0 <= c < ci && copy_violated(*a, c) ==> out@.contains(
                    Violation::CopyMismatch {
                        index: c as usize,
                        left: a.copies[c].0,
                        right: a.copies[c].1,
                    },
                ),
        decreases a.copies.len() - ci,
    {
        let pair = &a.copies[ci];
        let left = pair.0;
        let right = pair.1;
        let v1 = a.value_of(left.column, left.row);
        let v2 = a.value_of(right.column, right.row);
        proof {
            Fp::lemma_view_injective(v1, v2);
        }
        if !(v1 == v2) {
            let ghost out_pre = out@;
            out.push(Violation::CopyMismatch { index: ci, left, right });
            proof {
                assert forall|y: Violation| out_pre.contains(y) implies out@.contains(y) by {
                    let idx = choose|idx: int| 0 <= idx < out_pre.len() && out_pre[idx] == y;
                    assert(out@[idx] == y);
                }
                assert(out@[out@.len() - 1] == (Violation::CopyMismatch {
                    index: ci,
                    left,
                    right,
                }));
                assert forall|t1: int, t2: int|
                    0 <= t1 < t2 < out@.len() implies out@[t1] != out@[t2] by {
                    if t2 < out@.len() - 1 {
                        assert(out_pre[t1] != out_pre[t2]);
                    }
                }
            }
        }
        ci = ci + 1;
    }
    out
}

/// The tuple of already-evaluated input values equals the table tuple at
/// `trow`.
pub open spec fn tuple_matches(
    a: Assignment,
    tables: Seq<TableColumn>,
    vals: Seq<Fp>,
    trow: int,
) -> bool {
    forall|j: int|
        0 <= j < tables.len() ==> {
            &&& a.table_val((#[trigger] tables[j]).index as int, trow) is Some
            &&& opt_val(a.table_val(tables[j].index as int, trow)) == vals[j]@
        }
}

/// Exec comparison of one table row against the evaluated input tuple.
#[verifier::loop_isolation(false)]
fn row_tuple_matches(a: &Assignment, tables: &Vec<TableColumn>, vals: &Vec<Fp>, trow: usize) -> (r:
    bool)
    requires
        a.shape_ok(),
        trow < a.n,
        vals.len() == tables.len(),
        forall|j: int| 0 <= j < tables.len() ==> (#[trigger] tables[j]).index < a.tables.len(),
    ensures
        r == tuple_matches(*a, tables@, vals@, trow as int),
{
    let mut j: usize = 0;
    while j < tables.len()
        invariant
            j <= tables.len(),
            forall|i: int|
                0 <= i < j ==> {
                    &&& a.table_val((#[trigger] tables@[i]).index as int, trow as int) is Some
                    &&& opt_val(a.table_val(tables@[i].index as int, trow as int)) == vals@[i]@
                },
        decreases tables.len() - j,
    {
        let t = tables[j].index;
        match a.tables[t][trow] {
            Some(w) => {
                let vj = vals[j];
                proof {
                    Fp::lemma_view_injective(w, vj);
                }
                if !(w == vj) {
                    return false;
                }
            },
            None => {
                return false;
            },
        }
        j = j + 1;
    }
    true
}

/// Exec scan of the whole table for a row carrying the input tuple.
#[verifier::loop_isolation(false)]
fn find_table_row(a: &Assignment, tables: &Vec<TableColumn>, vals: &Vec<Fp>) -> (r: bool)
    requires
        a.shape_ok(),
        vals.len() == tables.len(),
        forall|j: int| 0 <= j < tables.len() ==> (#[trigger] tables[j]).index < a.tables.len(),
    ensures
        r == exists|trow: int| 0 <= trow < a.n && tuple_matches(*a, tables@, vals@, trow),
{
    let mut trow: usize = 0;
    while trow < a.n
        invariant
            trow <= a.n,
            forall|t: int| 0 <= t < trow ==> !tuple_matches(*a, tables@, vals@, t),
        decreases a.n - trow,
    {
        if row_tuple_matches(a, tables, vals, trow) {
            return true;
        }
        trow = trow + 1;
    }
    false
}

/// Evaluates the input expressions of lookup `li` at `row`, or reports the
/// configuration error of a query leaving the grid.
#[verifier::loop_isolation(false)]
fn eval_lookup_inputs(cs: &ConstraintSystem, a: &Assignment, li: usize, row: usize) -> (r: Result<
    Vec<Fp>,
    Error,
>)
    requires
        cs.wf(),
        a.wf(*cs),
        a.n <= 0x8000_0000,
        li < cs.lookups.len(),
        row < a.n,
    ensures
        match r {
            Ok(vals) => {
                &&& vals.len() == cs.lookups[li as int].inputs.len()
                &&& forall|j: int|
                    0 <= j < vals.len() ==> vals[j]@ == eval(
                        cs.lookups[li as int].inputs[j],
                        *a,
                        row as int,
                    )
                &&& forall|j: int|
                    0 <= j < vals.len() ==> (#[trigger] expr_domain_ok(
                        cs.lookups[li as int].inputs[j],
                        *a,
                        row as int,
                    ))
            },
            Err(e) => {
                &&& (e == Error::RotationOutOfBounds || e == Error::ColumnOutOfBounds)
                &&& exists|j: int|
                    0 <= j < cs.lookups[li as int].inputs.len() && !(#[trigger] expr_domain_ok(
                        cs.lookups[li as int].inputs[j],
                        *a,
                        row as int,
                    ))
            },
        },
{
    let lk = &cs.lookups[li];
    let mut vals: Vec<Fp> = Vec::new();
    let mut j: usize = 0;
    while j < lk.inputs.len()
        invariant
            j <= lk.inputs.len(),
            lk == &cs.lookups[li as int],
            vals.len() == j,
            forall|i: int|
                0 <= i < j ==> vals[i]@ == eval(cs.lookups[li as int].inputs[i], *a, row as int),
            forall|i: int|
                0 <= i < j ==> (#[trigger] expr_domain_ok(
                    cs.lookups[li as int].inputs[i],
                    *a,
                    row as int,
                )),
        decreases lk.inputs.len() - j,
    {
        let e = &lk.inputs[j];
        if !e.rows_ok(a.n, row) {
            proof {
                assert(!expr_domain_ok(cs.lookups[li as int].inputs[j as int], *a, row as int));
            }
            return Err(Error::RotationOutOfBounds);
        }
        if !e.cols_ok(a.advice.len(), a.fixed.len(), a.instance.len()) {
            proof {
                assert(!expr_domain_ok(cs.lookups[li as int].inputs[j as int], *a, row as int));
            }
            return Err(Error::ColumnOutOfBounds);
        }
        let v = eval_expr(a, e, row);
        vals.push(v);
        proof {
            assert(expr_domain_ok(cs.lookups[li as int].inputs[j as int], *a, row as int));
            assert(vals[j as int]@ == eval(cs.lookups[li as int].inputs[j as int], *a, row as int));
        }
        j = j + 1;
    }
    Ok(vals)
}

/// Replays every lookup argument on every row where its selector is active.
#[verifier::loop_isolation(false)]
pub fn check_lookups(cs: &ConstraintSystem, a: &Assignment) -> (r: Result<Vec<Violation>, Error>)
    requires
        cs.wf(),
        a.wf(*cs),
        a.n <= 0x8000_0000,
    ensures
        match r {
            Ok(v) => {
                &&& lookups_domain_ok(*cs, *a)
                &&& forall|i: int|
                    0 <= i < v@.len() ==> is_lookup_violation(*cs, *a, #[trigger] v@[i])
                &&& forall|li: int, rr: int|
                    0 <= li < cs.lookups.len() && 0 <= rr < a.n && lookup_violated(*cs, *a, li, rr)
                        ==> v@.contains(
                        Violation::LookupMiss { lookup: li as usize, row: rr as usize },
                    )
                &&& all_distinct(v@)
            },
            Err(e) => {
                &&& !lookups_domain_ok(*cs, *a)
                &&& (e == Error::RotationOutOfBounds || e == Error::ColumnOutOfBounds)
            },
        },
{
    let mut out: Vec<Violation> = Vec::new();
    let mut li: usize = 0;
    while li < cs.lookups.len()
        invariant
            li <= cs.lookups.len(),
            all_distinct(out@),
            forall|t: int|
                0 <= t < out@.len() ==> lookup_entry_before(#[trigger] out@[t], li as int, 0),
            forall|i: int| 0 <= i < out@.len() ==> is_lookup_violation(*cs, *a, #[trigger] out@[i]),
            forall|l: int, rr: int|
                0 <= l < li && 0 <= rr < a.n && lookup_violated(*cs, *a, l, rr) ==> out@.contains(
                    Violation::LookupMiss { lookup: l as usize, row: rr as usize },
                ),
            forall|l: int, j: int, rr: int|
                0 <= l < li && 0 <= j < cs.lookups[l].inputs.len() && 0 <= rr < a.n ==> (
                #[trigger] lookup_input_domain_ok(*cs, *a, l, j, rr)),
        decreases cs.lookups.len() - li,
    {
        let lk = &cs.lookups[li];
        let mut row: usize = 0;
        while row < a.n
            invariant
                li < cs.lookups.len(),
                row <= a.n,
                lk == &cs.lookups[li as int],
                all_distinct(out@),
                forall|t: int|
                    0 <= t < out@.len() ==> lookup_entry_before(
                        #[trigger] out@[t],
                        li as int,
                        row as int,
                    ),
                forall|i: int|
                    0 <= i < out@.len() ==> is_lookup_violation(*cs, *a, #[trigger] out@[i]),
                forall|l: int, rr: int|
                    0 <= l < li && 0 <= rr < a.n && lookup_violated(*cs, *a, l, rr)
                        ==> out@.contains(
                        Violation::LookupMiss { lookup: l as usize, row: rr as usize },
                    ),
                forall|rr: int|
                    0 <= rr < row && lookup_violated(*cs, *a, li as int, rr) ==> out@.contains(
                        Violation::LookupMiss { lookup: li, row: rr as usize },
                    ),
                forall|l: int, j: int, rr: int|
                    0 <= l < li && 0 <= j < cs.lookups[l].inputs.len() && 0 <= rr < a.n ==> (
                    #[trigger] lookup_input_domain_ok(*cs, *a, l, j, rr)),
                forall|j: int, rr: int|
                    0 <= j < cs.lookups[li as int].inputs.len() && 0 <= rr < row ==> (
                    #[trigger] lookup_input_domain_ok(*cs, *a, li as int, j, rr)),
            decreases a.n - row,
        {
            let active = a.selectors[lk.selector.index][row];
            if active {
                let vals = match eval_lookup_inputs(cs, a, li, row) {
                    Ok(vals) => vals,
                    Err(e) => {
                        proof {
                            let j = choose|j: int|
                                0 <= j < cs.lookups[li as int].inputs.len() && !expr_domain_ok(
                                    cs.lookups[li as int].inputs[j],
                                    *a,
                                    row as int,
                                );
                            assert(!lookup_input_domain_ok(*cs, *a, li as int, j, row as int));
                            assert(!lookups_domain_ok(*cs, *a));
                        }
                        return Err(e);
                    },
                };
                proof {
                    assert forall|j: int|
                        0 <= j < cs.lookups[li as int].inputs.len() implies lookup_input_domain_ok(
                        *cs,
                        *a,
                        li as int,
                        j,
                        row as int,
                    ) by {
                        assert(expr_domain_ok(cs.lookups[li as int].inputs[j], *a, row as int));
                    }
                }
                let found = find_table_row(a, &lk.tables, &vals);
                proof {
                    assert forall|trow: int| 0 <= trow < a.n implies (tuple_matches(
                        *a,
                        lk.tables@,
                        vals@,
                        trow,
                    ) == lookup_row_matches(*cs, *a, li as int, row as int, trow)) by {
                        assert(cs.lookups[li as int].inputs.len()
                            == cs.lookups[li as int].tables.len());
                    }
                }
                if !found {
                    proof {
                        assert forall|trow: int| 0 <= trow < a.n implies !lookup_row_matches(
                            *cs,
                            *a,
                            li as int,
                            row as int,
                            trow,
                        ) by {
                            assert(!tuple_matches(*a, lk.tables@, vals@, trow));
                        }
                        assert(lookup_violated(*cs, *a, li as int, row as int));
                    }
                    let ghost out_pre = out@;
                    out.push(Violation::LookupMiss { lookup: li, row });
                    proof {
                        assert forall|y: Violation| out_pre.contains(y) implies out@.contains(
                            y,
                        ) by {
                            let idx = choose|idx: int|
                                0 <= idx < out_pre.len() && out_pre[idx] == y;
                            assert(out@[idx] == y);
                        }
                        assert(out@[out@.len() - 1] == (Violation::LookupMiss {
                            lookup: li,
                            row,
                        }));
                        assert forall|t1: int, t2: int|
                            0 <= t1 < t2 < out@.len() implies out@[t1] != out@[t2] by {
                            if t2 < out@.len() - 1 {
                                assert(out_pre[t1] != out_pre[t2]);
                            } else {
                                assert(lookup_entry_before(out_pre[t1], li as int, row as int));
                            }
                        }
                    }
                } else {
                    proof {
                        let trow = choose|trow: int|
                            0 <= trow < a.n && tuple_matches(*a, lk.tables@, vals@, trow);
                        assert(lookup_row_matches(*cs, *a, li as int, row as int, trow));
                        assert(!lookup_violated(*cs, *a, li as int, row as int));
                    }
                }
            } else {
                proof {
                    assert forall|j: int|
                        0 <= j < cs.lookups[li as int].inputs.len() implies lookup_input_domain_ok(
                        *cs,
                        *a,
                        li as int,
                        j,
                        row as int,
                    ) by {}
                }
            }
            row = row + 1;
        }
        proof {
            assert forall|t: int| 0 <= t < out@.len() implies lookup_entry_before(
                #[trigger] out@[t],
                li as int + 1,
                0,
            ) by {
                assert(lookup_entry_before(out@[t], li as int, a.n as int));
            }
        }
        li = li + 1;
    }
    Ok(out)
}

/// `x` is some violation that actually holds of the grid.
pub open spec fn is_violation(cs: ConstraintSystem, a: Assignment, x: Violation) -> bool {
    ||| is_gate_violation(cs, a, x)
    ||| is_copy_violation(a, x)
    ||| is_lookup_violation(cs, a, x)
}

/// Replays the whole assignment against the constraint system: every gate on
/// every row, every copy constraint, every lookup argument.
///
/// The result is the complete list of violations — gate findings first, then
/// copy findings, then lookup findings — and it is empty exactly when the
/// assignment satisfies the circuit. A query leaving the grid on an active
/// row is a configuration error instead.
pub fn check(cs: &ConstraintSystem, a: &Assignment) -> (r: Result<Vec<Violation>, Error>)
    requires
        cs.wf(),
        a.wf(*cs),
        a.copies_wf(),
        a.n <= 0x8000_0000,
    ensures
        match r {
            Ok(v) => {
                &&& domain_ok(*cs, *a)
                &&& forall|i: int| 0 <= i < v@.len() ==> is_violation(*cs, *a, #[trigger] v@[i])
                &&& forall|g: int, p: int, rr: int|
                    0 <= g < cs.gates.len() && 0 <= p < cs.gates[g].polys.len() && 0 <= rr < a.n
                        && gate_violated(*cs, *a, g, p, rr) ==> v@.contains(
                        Violation::Gate { gate: g as usize, poly: p as usize, row: rr as usize },
                    )
                &&& forall|ci: int|
                    0 <= ci < a.copies.len() && copy_violated(*a, ci) ==> v@.contains(
                        Violation::CopyMismatch {
                            index: ci as usize,
                            left: a.copies[ci].0,
                            right: a.copies[ci].1,
                        },
                    )
                &&& forall|li: int, rr: int|
                    0 <= li < cs.lookups.len() && 0 <= rr < a.n && lookup_violated(*cs, *a, li, rr)
                        ==> v@.contains(
                        Violation::LookupMiss { lookup: li as usize, row: rr as usize },
                    )
                &&& (v@.len() == 0 <==> satisfied(*cs, *a))
                &&& all_distinct(v@)
            },
            Err(e) => {
                &&& !domain_ok(*cs, *a)
                &&& (e == Error::RotationOutOfBounds || e == Error::ColumnOutOfBounds)
            },
        },
{
    let mut out = match check_gates(cs, a) {
        Ok(v) => v,
        Err(e) => {
            return Err(e);
        },
    };
    let mut copies_v = check_copies(a);
    let mut lookups_v = match check_lookups(cs, a) {
        Ok(v) => v,
        Err(e) => {
            return Err(e);
        },
    };
    let ghost gates_seq = out@;
    let ghost copies_seq = copies_v@;
    let ghost lookups_seq = lookups_v@;
    out.append(&mut copies_v);
    out.append(&mut lookups_v);
    proof {
        assert(out@ == gates_seq + copies_seq + lookups_seq);
        assert forall|x: Violation|
            gates_seq.contains(x) || copies_seq.contains(x) || lookups_seq.contains(
                x,
            ) implies out@.contains(x) by {
            if gates_seq.contains(x) {
                let i = choose|i: int| 0 <= i < gates_seq.len() && gates_seq[i] == x;
                assert(out@[i] == x);
            } else if copies_seq.contains(x) {
                let i = choose|i: int| 0 <= i < copies_seq.len() && copies_seq[i] == x;
                assert(out@[gates_seq.len() + i] == x);
            } else {
                let i = choose|i: int| 0 <= i < lookups_seq.len() && lookups_seq[i] == x;
                assert(out@[gates_seq.len() + copies_seq.len() + i] == x);
            }
        }
        assert forall|i: int| 0 <= i < out@.len() implies is_violation(*cs, *a, out@[i]) by {
            if i < gates_seq.len() {
                assert(out@[i] == gates_seq[i]);
            } else if i < gates_seq.len() + copies_seq.len() {
                assert(out@[i] == copies_seq[i - gates_seq.len()]);
            } else {
                assert(out@[i] == lookups_seq[i - gates_seq.len() - copies_seq.len()]);
            }
        }
        assert forall|t1: int, t2: int| 0 <= t1 < t2 < out@.len() implies out@[t1] != out@[t2] by {
            let gl = gates_seq.len() as int;
            let cl = copies_seq.len() as int;
            if t2 < gl {
                assert(out@[t1] == gates_seq[t1] && out@[t2] == gates_seq[t2]);
            } else if gl <= t1 && t2 < gl + cl {
                assert(out@[t1] == copies_seq[t1 - gl] && out@[t2] == copies_seq[t2 - gl]);
            } else if gl + cl <= t1 {
                assert(out@[t1] == lookups_seq[t1 - gl - cl] && out@[t2] == lookups_seq[t2 - gl
                    - cl]);
            } else if t1 < gl {
                assert(is_gate_violation(*cs, *a, gates_seq[t1]));
                if t2 < gl + cl {
                    assert(is_copy_violation(*a, copies_seq[t2 - gl]));
                } else {
                    assert(is_lookup_violation(*cs, *a, lookups_seq[t2 - gl - cl]));
                }
            } else {
                assert(is_copy_violation(*a, copies_seq[t1 - gl]));
                assert(is_lookup_violation(*cs, *a, lookups_seq[t2 - gl - cl]));
            }
        }
        if satisfied(*cs, *a) {
            assert(gates_seq.len() == 0) by {
                if gates_seq.len() > 0 {
                    assert(is_gate_violation(*cs, *a, gates_seq[0]));
                }
            }
            assert(copies_seq.len() == 0) by {
                if copies_seq.len() > 0 {
                    assert(is_copy_violation(*a, copies_seq[0]));
                }
            }
            assert(lookups_seq.len() == 0) by {
                if lookups_seq.len() > 0 {
                    assert(is_lookup_violation(*cs, *a, lookups_seq[0]));
                }
            }
        }
        if out@.len() == 0 {
            assert(gates_ok(*cs, *a)) by {
                assert forall|g: int, p: int, rr: int|
                    0 <= g < cs.gates.len() && 0 <= p < cs.gates[g].polys.len() && 0 <= rr
                        < a.n implies !gate_violated(*cs, *a, g, p, rr) by {
                    if gate_violated(*cs, *a, g, p, rr) {
                        assert(gates_seq.contains(
                            Violation::Gate {
                                gate: g as usize,
                                poly: p as usize,
                                row: rr as usize,
                            },
                        ));
                    }
                }
            }
            assert(copies_ok(*a)) by {
                assert forall|ci: int| 0 <= ci < a.copies.len() implies !copy_violated(
                    *a,
                    ci,
                ) by {
                    if copy_violated(*a, ci) {
                        assert(copies_seq.contains(
                            Violation::CopyMismatch {
                                index: ci as usize,
                                left: a.copies[ci].0,
                                right: a.copies[ci].1,
                            },
                        ));
                    }
                }
            }
            assert(lookups_ok(*cs, *a)) by {
                assert forall|li: int, rr: int|
                    0 <= li < cs.lookups.len() && 0 <= rr < a.n implies !lookup_violated(
                    *cs,
                    *a,
                    li,
                    rr,
                ) by {
                    if lookup_violated(*cs, *a, li, rr) {
                        assert(lookups_seq.contains(
                            Violation::LookupMiss { lookup: li as usize, row: rr as usize },
                        ));
                    }
                }
            }
        }
    }
    Ok(out)
}

/// The cell at row `row` of instance column `col`.
pub open spec fn instance_cell(col: usize, row: usize) -> Cell {
    Cell { column: Column { kind: ColumnKind::Instance, index: col }, row }
}

/// Some copy constraint references the cell.
pub open spec fn cell_bound(a: Assignment, target: Cell) -> bool {
    exists|ci: int|
        0 <= ci < a.copies.len() && ((#[trigger] a.copies[ci]).0 == target || a.copies[ci].1
            == target)
}

/// The public-input cell `(col, row)` was bound by at least one copy
/// constraint during synthesis.
pub open spec fn instance_bound(a: Assignment, col: usize, row: usize) -> bool {
    cell_bound(a, instance_cell(col, row))
}

/// Exec scan for a copy constraint referencing `target`.
#[verifier::loop_isolation(false)]
fn cell_referenced(a: &Assignment, target: Cell) -> (r: bool)
    ensures
        r == cell_bound(*a, target),
{
    let mut ci: usize = 0;
    while ci < a.copies.len()
        invariant
            ci <= a.copies.len(),
            forall|c: int|
                0 <= c < ci ==> !((#[trigger] a.copies[c]).0 == target || a.copies[c].1 == target),
        decreases a.copies.len() - ci,
    {
        let pair = &a.copies[ci];
        if pair.0 == target || pair.1 == target {
            return true;
        }
        ci = ci + 1;
    }
    false
}

/// Lists every declared public-input cell that no copy constraint
/// references.
///
/// An unbound instance row is a configuration warning, not a violation: its
/// declared value cannot influence the verdict, which may or may not be what
/// the circuit's author intended.
#[verifier::loop_isolation(false)]
pub fn unbound_instance_rows(a: &Assignment) -> (v: Vec<(usize, usize)>)
    requires
        a.shape_ok(),
    ensures
        forall|i: int|
            0 <= i < v@.len() ==> {
                let p = #[trigger] v@[i];
                &&& p.0 < a.instance.len()
                &&& p.1 < a.instance[p.0 as int].len()
                &&& !instance_bound(*a, p.0, p.1)
            },
        forall|col: usize, row: usize|
            col < a.instance.len() && row < a.instance[col as int].len() && !instance_bound(
                *a,
                col,
                row,
            ) ==> v@.contains((col, row)),
{
    let mut out: Vec<(usize, usize)> = Vec::new();
    let mut col: usize = 0;
    while col < a.instance.len()
        invariant
            col <= a.instance.len(),
            forall|i: int|
                0 <= i < out@.len() ==> {
                    let p = #[trigger] out@[i];
                    &&& p.0 < a.instance.len()
                    &&& p.1 < a.instance[p.0 as int].len()
                    &&& !instance_bound(*a, p.0, p.1)
                },
            forall|c: usize, rr: usize|
                c < col && rr < a.instance[c as int].len() && !instance_bound(*a, c, rr)
                    ==> out@.contains((c, rr)),
        decreases a.instance.len() - col,
    {
        let mut row: usize = 0;
        while row < a.instance[col].len()
            invariant
                col < a.instance.len(),
                row <= a.instance[col as int].len(),
                forall|i: int|
                    0 <= i < out@.len() ==> {
                        let p = #[trigger] out@[i];
                        &&& p.0 < a.instance.len()
                        &&& p.1 < a.instance[p.0 as int].len()
                        &&& !instance_bound(*a, p.0, p.1)
                    },
                forall|c: usize, rr: usize|
                    c < col && rr < a.instance[c as int].len() && !instance_bound(*a, c, rr)
                        ==> out@.contains((c, rr)),
                forall|rr: usize|
                    rr < row && !instance_bound(*a, col, rr) ==> out@.contains((col, rr)),
            decreases a.instance[col as int].len() - row,
        {
            let target = Cell { column: Column { kind: ColumnKind::Instance, index: col }, row };
            if !cell_referenced(a, target) {
                let ghost out_pre = out@;
                out.push((col, row));
                proof {
                    assert forall|y: (usize, usize)| out_pre.contains(y) implies out@.contains(
                        y,
                    ) by {
                        let idx = choose|idx: int| 0 <= idx < out_pre.len() && out_pre[idx] == y;
                        assert(out@[idx] == y);
                    }
                    assert(out@[out@.len() - 1] == (col, row));
                }
            }
            row = row + 1;
        }
        col = col + 1;
    }
    out
}

/// Vacuous truth: on a row where a gate's selector is inactive, that gate
/// contributes no violation, whatever the cell values are.
pub proof fn lemma_vacuous_truth(cs: ConstraintSystem, a: Assignment, gi: int, pi: int, row: int)
    requires
        !a.sel(cs.gates[gi].selector.index as int, row),
    ensures
        !gate_violated(cs, a, gi, pi, row),
{
}

/// Evaluation reads only the advice, fixed and instance cells: two grids
/// that agree there evaluate every expression the same way.
pub proof fn lemma_eval_same_grid(e: Expr, a1: Assignment, a2: Assignment, row: int)
    requires
        a1.advice == a2.advice,
        a1.fixed == a2.fixed,
        a1.instance == a2.instance,
    ensures
        eval(e, a1, row) == eval(e, a2, row),
    decreases e,
{
    match e {
        Expr::Constant(_) => {},
        Expr::Query(_, _) => {},
        Expr::Sum(x, y) => {
            lemma_eval_same_grid(*x, a1, a2, row);
            lemma_eval_same_grid(*y, a1, a2, row);
        },
        Expr::Product(x, y) => {
            lemma_eval_same_grid(*x, a1, a2, row);
            lemma_eval_same_grid(*y, a1, a2, row);
        },
        Expr::Negated(x) => {
            lemma_eval_same_grid(*x, a1, a2, row);
        },
        Expr::Scaled(x, _) => {
            lemma_eval_same_grid(*x, a1, a2, row);
        },
    }
}

/// Instance binding idempotence: declaring a copy constraint that is
/// already declared changes no verdict. A grid with the duplicated pair is
/// satisfied exactly when the original grid is.
pub proof fn lemma_copy_idempotent(
    cs: ConstraintSystem,
    pre: Assignment,
    post: Assignment,
    pair: (Cell, Cell),
)
    requires
        crate::circuit::copies_pushed(pre, post, pair),
        pre.copies@.contains(pair),
    ensures
        satisfied(cs, post) == satisfied(cs, pre),
{
    assert forall|gi: int, pi: int, row: int|
        0 <= gi < cs.gates.len() && 0 <= pi < cs.gates[gi].polys.len() && 0 <= row
            < post.n implies (gate_violated(cs, post, gi, pi, row) == gate_violated(
        cs,
        pre,
        gi,
        pi,
        row,
    )) by {
        lemma_eval_same_grid(cs.gates[gi].polys[pi].1, pre, post, row);
    }
    assert(gates_ok(cs, post) == gates_ok(cs, pre));
    assert forall|li: int, row: int|
        0 <= li < cs.lookups.len() && 0 <= row < post.n implies (lookup_violated(
        cs,
        post,
        li,
        row,
    ) == lookup_violated(cs, pre, li, row)) by {
        assert forall|trow: int| 0 <= trow < post.n implies (lookup_row_matches(
            cs,
            post,
            li,
            row,
            trow,
        ) == lookup_row_matches(cs, pre, li, row, trow)) by {
            assert forall|j: int| 0 <= j < cs.lookups[li].inputs.len() implies (eval(
                cs.lookups[li].inputs[j],
                post,
                row,
            ) == eval(cs.lookups[li].inputs[j], pre, row)) by {
                lemma_eval_same_grid(cs.lookups[li].inputs[j], pre, post, row);
            }
        }
    }
    assert(lookups_ok(cs, post) == lookups_ok(cs, pre));
    if copies_ok(pre) {
        assert forall|ci: int| 0 <= ci < post.copies.len() implies !copy_violated(post, ci) by {
            if ci < pre.copies.len() {
                assert(!copy_violated(pre, ci));
            } else {
                let cj = choose|cj: int| 0 <= cj < pre.copies.len() && pre.copies[cj] == pair;
                assert(!copy_violated(pre, cj));
                assert(post.copies[ci] == pair);
            }
        }
    }
    if copies_ok(post) {
        assert forall|ci: int| 0 <= ci < pre.copies.len() implies !copy_violated(pre, ci) by {
            assert(!copy_violated(post, ci));
            assert(post.copies[ci] == pre.copies[ci]);
        }
    }
    assert(copies_ok(post) == copies_ok(pre));
}

/// Evaluation reads only the cells the expression queries: two grids that
/// agree on every cell but one the expression never reads evaluate it the
/// same way.
pub proof fn lemma_eval_unqueried(
    e: Expr,
    a1: Assignment,
    a2: Assignment,
    row: int,
    c: Column,
    r: int,
)
    requires
        forall|c2: Column, r2: int|
            !(c2 == c && r2 == r) ==> a1.val(c2, r2) == a2.val(c2, r2),
        !e.queries(c, r, row),
    ensures
        eval(e, a1, row) == eval(e, a2, row),
    decreases e,
{
    match e {
        Expr::Constant(_) => {},
        Expr::Query(qc, rot) => {
            assert(!(qc == c && row + rot == r));
        },
        Expr::Sum(x, y) => {
            lemma_eval_unqueried(*x, a1, a2, row, c, r);
            lemma_eval_unqueried(*y, a1, a2, row, c, r);
        },
        Expr::Product(x, y) => {
            lemma_eval_unqueried(*x, a1, a2, row, c, r);
            lemma_eval_unqueried(*y, a1, a2, row, c, r);
        },
        Expr::Negated(x) => {
            lemma_eval_unqueried(*x, a1, a2, row, c, r);
        },
        Expr::Scaled(x, _) => {
            lemma_eval_unqueried(*x, a1, a2, row, c, r);
        },
    }
}

/// A vanished sum `x - c` pins `c` among reduced values: no other value
/// makes it vanish too.
pub proof fn lemma_linear_pin(x: int, c1: int, c2: int)
    requires
        0 <= c1 < crate::field::modulus(),
        0 <= c2 < crate::field::modulus(),
        c1 != c2,
        fadd(x, fneg(c1)) == 0,
    ensures
        fadd(x, fneg(c2)) != 0,
{
    let m = crate::field::modulus();
    vstd::arithmetic::div_mod::lemma_add_mod_noop_right(x, -c1, m);
    vstd::arithmetic::div_mod::lemma_add_mod_noop_right(x, -c2, m);
    if fadd(x, fneg(c2)) == 0 {
        let k1 = (x - c1) / m;
        let k2 = (x - c2) / m;
        vstd::arithmetic::div_mod::lemma_fundamental_div_mod(x - c1, m);
        vstd::arithmetic::div_mod::lemma_fundamental_div_mod(x - c2, m);
        assert(c2 - c1 == m * (k1 - k2)) by (nonlinear_arith)
            requires
                x - c1 == m * k1,
                x - c2 == m * k2,
        ;
        assert(k1 != k2);
        assert(m * (k1 - k2) >= m || m * (k1 - k2) <= -m) by (nonlinear_arith)
            requires
                k1 != k2,
                m > 0,
        ;
    }
}

/// Sensitivity of addition-shaped gates: a sub-constraint of the shape
/// `x - out` that vanishes pins the queried output cell. Perturbing that
/// cell to any other reduced value, while the cells `x` reads keep theirs,
/// makes the sub-constraint non-zero, so on an active row the checker
/// reports it. (A multiplicative gate does not pin every cell it reads:
/// in a product `a * b` with `b = 0`, the cell `a` can change invisibly.)
pub proof fn lemma_add_gate_sensitivity(
    inner: Expr,
    out: Column,
    rot: i32,
    a1: Assignment,
    a2: Assignment,
    row: int,
)
    requires
        !inner.queries(out, row + rot, row),
        forall|c2: Column, r2: int|
            !(c2 == out && r2 == row + rot) ==> a1.val(c2, r2) == a2.val(c2, r2),
        0 <= a1.val(out, row + rot) < crate::field::modulus(),
        0 <= a2.val(out, row + rot) < crate::field::modulus(),
        a1.val(out, row + rot) != a2.val(out, row + rot),
        eval(
            Expr::Sum(Box::new(inner), Box::new(Expr::Negated(Box::new(Expr::Query(out, rot))))),
            a1,
            row,
        ) == 0,
    ensures
        eval(
            Expr::Sum(Box::new(inner), Box::new(Expr::Negated(Box::new(Expr::Query(out, rot))))),
            a2,
            row,
        ) != 0,
{
    lemma_eval_unqueried(inner, a1, a2, row, out, row + rot);
    let e = Expr::Sum(
        Box::new(inner),
        Box::new(Expr::Negated(Box::new(Expr::Query(out, rot)))),
    );
    let q = Expr::Query(out, rot);
    let negq = Expr::Negated(Box::new(q));
    assert(eval(q, a1, row) == a1.val(out, row + rot));
    assert(eval(q, a2, row) == a2.val(out, row + rot));
    assert(eval(negq, a1, row) == fneg(eval(q, a1, row)));
    assert(eval(negq, a2, row) == fneg(eval(q, a2, row)));
    assert(eval(e, a1, row) == fadd(eval(inner, a1, row), eval(negq, a1, row)));
    assert(eval(e, a2, row) == fadd(eval(inner, a2, row), eval(negq, a2, row)));
    lemma_linear_pin(
        eval(inner, a1, row),
        a1.val(out, row + rot),
        a2.val(out, row + rot),
    );
}

/// Binding a cell to a public-input row decides the verdict. On a grid that
/// satisfies every declared constraint, registering one more copy constraint
/// keeps it satisfied exactly when the two cells agree; and on a mismatch
/// the new binding is the one and only violation, so a witness that fails
/// only its public binding fails on exactly that.
pub proof fn lemma_binding_decides(
    cs: ConstraintSystem,
    pre: Assignment,
    post: Assignment,
    cell: Cell,
    icell: Cell,
)
    requires
        cs.wf(),
        crate::circuit::copies_pushed(pre, post, (cell, icell)),
        satisfied(cs, pre),
    ensures
        satisfied(cs, post) <==> pre.cell_val(cell) == pre.cell_val(icell),
        pre.cell_val(cell) != pre.cell_val(icell) ==> forall|x: Violation|
            is_violation(cs, post, x) <==> x == (Violation::CopyMismatch {
                index: (post.copies@.len() - 1) as usize,
                left: cell,
                right: icell,
            }),
{
    let new_ci = pre.copies@.len() as int;
    assert forall|gi: int, pi: int, row: int|
        0 <= gi < cs.gates.len() && 0 <= pi < cs.gates[gi].polys.len() && 0 <= row
            < post.n implies !gate_violated(cs, post, gi, pi, row) by {
        lemma_eval_same_grid(cs.gates[gi].polys[pi].1, pre, post, row);
        assert(!gate_violated(cs, pre, gi, pi, row));
    }
    assert(gates_ok(cs, post));
    assert forall|li: int, row: int|
        0 <= li < cs.lookups.len() && 0 <= row < post.n implies !lookup_violated(
        cs,
        post,
        li,
        row,
    ) by {
        assert(!lookup_violated(cs, pre, li, row));
        if post.sel(cs.lookups[li].selector.index as int, row) {
            let trow = choose|trow: int|
                0 <= trow < pre.n && lookup_row_matches(cs, pre, li, row, trow);
            assert forall|j: int| 0 <= j < cs.lookups[li].inputs.len() implies {
                let t = (#[trigger] cs.lookups[li].tables[j]).index as int;
                &&& post.table_val(t, trow) is Some
                &&& opt_val(post.table_val(t, trow)) == eval(cs.lookups[li].inputs[j], post, row)
            } by {
                assert(cs.lookups[li].inputs.len() == cs.lookups[li].tables.len());
                let t = cs.lookups[li].tables[j].index as int;
                assert(pre.table_val(t, trow) is Some && opt_val(pre.table_val(t, trow)) == eval(
                    cs.lookups[li].inputs[j],
                    pre,
                    row,
                ));
                lemma_eval_same_grid(cs.lookups[li].inputs[j], pre, post, row);
            }
            assert(lookup_row_matches(cs, post, li, row, trow));
        }
    }
    assert(lookups_ok(cs, post));
    assert forall|ci: int| 0 <= ci < new_ci implies !copy_violated(post, ci) by {
        assert(!copy_violated(pre, ci));
        assert(post.copies[ci] == pre.copies[ci]);
    }
    assert(post.copies[new_ci] == (cell, icell));
    assert(copy_violated(post, new_ci) <==> pre.cell_val(cell) != pre.cell_val(icell));
    if pre.cell_val(cell) == pre.cell_val(icell) {
        assert forall|ci: int| 0 <= ci < post.copies.len() implies !copy_violated(post, ci) by {
            if ci < new_ci {
                assert(!copy_violated(post, ci));
            }
        }
        assert(copies_ok(post));
    } else {
        assert(copy_violated(post, new_ci));
        assert(!copies_ok(post));
        let only = Violation::CopyMismatch {
            index: (post.copies@.len() - 1) as usize,
            left: cell,
            right: icell,
        };
        assert forall|x: Violation| is_violation(cs, post, x) <==> x == only by {
            if is_violation(cs, post, x) {
                if is_copy_violation(post, x) {
                    match x {
                        Violation::CopyMismatch { index, left, right } => {
                            if (index as int) < new_ci {
                                assert(!copy_violated(post, index as int));
                            }
                            assert(index as int == new_ci);
                        },
                        _ => {},
                    }
                }
            }
            if x == only {
                assert(is_copy_violation(post, x));
            }
        }
    }
}

/// Sensitivity of copy constraints: perturbing one cell of a satisfied copy
/// pair, while the cell it is tied to keeps its value, always surfaces as a
/// violation of that pair. No cell referenced by a copy constraint can be
/// changed invisibly.
pub proof fn lemma_copy_sensitivity(
    a1: Assignment,
    a2: Assignment,
    ci: int,
    target: Cell,
    other: Cell,
)
    requires
        0 <= ci < a1.copies.len(),
        a1.copies[ci] == (target, other) || a1.copies[ci] == (other, target),
        copies_ok(a1),
        a2.copies == a1.copies,
        a2.cell_val(target) != a1.cell_val(target),
        a2.cell_val(other) == a1.cell_val(other),
    ensures
        !copies_ok(a2),
        copy_violated(a2, ci),
{
    assert(!copy_violated(a1, ci));
    if a1.copies[ci] == (target, other) {
        assert(a2.copies[ci].0 == target && a2.copies[ci].1 == other);
        assert(a1.cell_val(target) == a1.cell_val(other));
        assert(a2.cell_val(target) != a2.cell_val(other));
    } else {
        assert(a2.copies[ci].0 == other && a2.copies[ci].1 == target);
        assert(a1.cell_val(other) == a1.cell_val(target));
        assert(a2.cell_val(other) != a2.cell_val(target));
    }
    assert(copy_violated(a2, ci));
    if copies_ok(a2) {
        assert(a2.copies@ == a1.copies@);
        assert(!copy_violated(a2, ci));
    }
}

} // verus!
