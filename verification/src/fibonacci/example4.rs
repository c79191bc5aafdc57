//! Conditional selection: one row holds `a`, `b`, `c` and an output cell
//! constrained to `c` when `a = b` and to `a - b` otherwise. The branch is
//! picked multiplicatively through an is-zero indicator over `a - b`, so the
//! two sub-constraints are mutually exclusive by construction.

use vstd::prelude::*;
use crate::circuit::{advice_set, Assignment, Layouter};
use crate::dev::{copies_ok, eval, gate_violated, gates_ok, lookups_ok, satisfied};
use crate::column::{Column, ColumnKind, Selector};
use crate::error::Error;
use crate::expression::Expr;
use crate::field::{fadd, fmul, fneg, fp_of, fsub, lemma_fp_of, modulus, Fp, MODULUS};
use crate::is_zero::{guard_poly, indicator_expr, IsZeroChip, IsZeroConfig};
use crate::plonk::ConstraintSystem;

verus! {

/// The columns, selector and is-zero helper the chip works with.
pub struct FunctionConfig {
    pub col_a: Column,
    pub col_b: Column,
    pub col_c: Column,
    pub selector: Selector,
    pub a_equal_b: IsZeroConfig,
    pub output: Column,
}

impl FunctionConfig {
    /// Five pairwise distinct advice columns and a selector, all declared in
    /// `cs`, with the indicator expression built over `a - b`.
    pub open spec fn wf(self, cs: ConstraintSystem) -> bool {
        &&& self.col_a.kind == ColumnKind::Advice && self.col_a.index < cs.num_advice
        &&& self.col_b.kind == ColumnKind::Advice && self.col_b.index < cs.num_advice
        &&& self.col_c.kind == ColumnKind::Advice && self.col_c.index < cs.num_advice
        &&& self.output.kind == ColumnKind::Advice && self.output.index < cs.num_advice
        &&& self.a_equal_b.wf(cs)
        &&& self.col_a.index != self.col_b.index
        &&& self.col_a.index != self.col_c.index
        &&& self.col_a.index != self.output.index
        &&& self.col_a.index != self.a_equal_b.value_inv.index
        &&& self.col_b.index != self.col_c.index
        &&& self.col_b.index != self.output.index
        &&& self.col_b.index != self.a_equal_b.value_inv.index
        &&& self.col_c.index != self.output.index
        &&& self.col_c.index != self.a_equal_b.value_inv.index
        &&& self.output.index != self.a_equal_b.value_inv.index
        &&& self.selector.index < cs.num_selectors
        &&& self.a_equal_b.is_zero_expr == indicator_expr(diff_expr(self), self.a_equal_b.value_inv)
    }
}

/// The expression `a - b` at the current row.
pub open spec fn diff_expr(config: FunctionConfig) -> Expr {
    Expr::Sum(
        Box::new(Expr::Query(config.col_a, 0)),
        Box::new(Expr::Negated(Box::new(Expr::Query(config.col_b, 0)))),
    )
}

/// The first selection polynomial: `indicator * (output - c)`.
pub open spec fn select_c_poly(config: FunctionConfig) -> Expr {
    Expr::Product(
        Box::new(indicator_expr(diff_expr(config), config.a_equal_b.value_inv)),
        Box::new(
            Expr::Sum(
                Box::new(Expr::Query(config.output, 0)),
                Box::new(Expr::Negated(Box::new(Expr::Query(config.col_c, 0)))),
            ),
        ),
    )
}

/// The second selection polynomial: `(1 - indicator) * (output - (a - b))`.
pub open spec fn select_diff_poly(config: FunctionConfig) -> Expr {
    Expr::Product(
        Box::new(
            Expr::Sum(
                Box::new(Expr::Constant(fp_of(1))),
                Box::new(
                    Expr::Negated(
                        Box::new(indicator_expr(diff_expr(config), config.a_equal_b.value_inv)),
                    ),
                ),
            ),
        ),
        Box::new(
            Expr::Sum(
                Box::new(Expr::Query(config.output, 0)),
                Box::new(Expr::Negated(Box::new(diff_expr(config)))),
            ),
        ),
    )
}

pub struct FunctionChip {
    pub config: FunctionConfig,
}

impl FunctionChip {
    pub fn construct(config: FunctionConfig) -> (chip: FunctionChip)
        ensures
            chip.config == config,
    {
        FunctionChip { config }
    }

    /// Declares the chip's columns, the is-zero helper over `a - b`, and the
    /// two selection sub-constraints.
    pub fn configure(cs: &mut ConstraintSystem) -> (config: FunctionConfig)
        requires
            old(cs).wf(),
            old(cs).num_advice + 5 <= usize::MAX,
            old(cs).num_selectors < usize::MAX,
        ensures
            final(cs).wf(),
            config.wf(*final(cs)),
            config.col_a == (Column { kind: ColumnKind::Advice, index: old(cs).num_advice }),
            config.col_b == (Column {
                kind: ColumnKind::Advice,
                index: (old(cs).num_advice + 1) as usize,
            }),
            config.col_c == (Column {
                kind: ColumnKind::Advice,
                index: (old(cs).num_advice + 2) as usize,
            }),
            config.a_equal_b.value_inv == (Column {
                kind: ColumnKind::Advice,
                index: (old(cs).num_advice + 3) as usize,
            }),
            config.output == (Column {
                kind: ColumnKind::Advice,
                index: (old(cs).num_advice + 4) as usize,
            }),
            config.selector == (Selector { index: old(cs).num_selectors, complex: false }),
            final(cs).num_advice == old(cs).num_advice + 5,
            final(cs).num_fixed == old(cs).num_fixed,
            final(cs).num_instance == old(cs).num_instance,
            final(cs).num_tables == old(cs).num_tables,
            final(cs).num_selectors == old(cs).num_selectors + 1,
            final(cs).advice_eq@ == old(cs).advice_eq@.push(false).push(false).push(false).push(
                false,
            ).push(false),
            final(cs).instance_eq == old(cs).instance_eq,
            final(cs).lookups == old(cs).lookups,
            final(cs).gates@.len() == old(cs).gates@.len() + 2,
            forall|g: int|
                0 <= g < old(cs).gates@.len() ==> final(cs).gates@[g] == old(cs).gates@[g],
            final(cs).gates@[final(cs).gates@.len() - 2].name == "is_zero",
            final(cs).gates@[final(cs).gates@.len() - 2].selector == config.selector,
            final(cs).gates@[final(cs).gates@.len() - 2].polys@.len() == 1,
            final(cs).gates@[final(cs).gates@.len() - 2].polys@[0].0 == "is_zero",
            final(cs).gates@[final(cs).gates@.len() - 2].polys@[0].1 == guard_poly(
                diff_expr(config),
                config.a_equal_b.value_inv,
            ),
            final(cs).gates@.last().name == "conditional selection",
            final(cs).gates@.last().selector == config.selector,
            final(cs).gates@.last().polys@.len() == 2,
            final(cs).gates@.last().polys@[0].0 == "select c",
            final(cs).gates@.last().polys@[0].1 == select_c_poly(config),
            final(cs).gates@.last().polys@[1].0 == "select a - b",
            final(cs).gates@.last().polys@[1].1 == select_diff_poly(config),
    {
        let col_a = cs.advice_column();
        let col_b = cs.advice_column();
        let col_c = cs.advice_column();
        let selector = cs.selector();
        let is_zero_advice_col = cs.advice_column();
        let output = cs.advice_column();
        let value = Expr::query(col_a, 0).sub(Expr::query(col_b, 0));
        let a_equal_b = IsZeroChip::configure(cs, selector, &value, is_zero_advice_col);
        let poly_c = a_equal_b.expr().mul(Expr::query(output, 0).sub(Expr::query(col_c, 0)));
        let poly_diff = Expr::constant(Fp::one()).sub(a_equal_b.expr()).mul(
            Expr::query(output, 0).sub(value.duplicate()),
        );
        let mut polys: Vec<(&'static str, Expr)> = Vec::new();
        polys.push(("select c", poly_c));
        polys.push(("select a - b", poly_diff));
        cs.create_gate("conditional selection", selector, polys);
        proof {
            assert(cs.advice_eq@ =~= old(cs).advice_eq@.push(false).push(false).push(false).push(
                false,
            ).push(false));
        }
        FunctionConfig { col_a, col_b, col_c, selector, a_equal_b, output }
    }

    /// Places one region holding `a`, `b`, `c`, the inverse witness of
    /// `a - b`, and the selected output.
    pub fn assign(&self, l: &mut Layouter, cs: &ConstraintSystem, a: Fp, b: Fp, c: Fp) -> (r:
        Result<(), Error>)
        requires
            old(l).wf(),
            !old(l).in_region,
            old(l).asn.wf(*cs),
            self.config.wf(*cs),
        ensures
            final(l).wf(),
            final(l).asn.wf(*cs),
            !final(l).in_region,
            final(l).asn.n == old(l).asn.n,
            final(l).asn.instance == old(l).asn.instance,
            match r {
                Ok(()) => {
                    let base = old(l).offset as int;
                    &&& old(l).offset < old(l).asn.n
                    &&& final(l).offset == old(l).offset + 1
                    &&& final(l).asn.val(self.config.col_a, base) == a@
                    &&& final(l).asn.val(self.config.col_b, base) == b@
                    &&& final(l).asn.val(self.config.col_c, base) == c@
                    &&& final(l).asn.val(self.config.output, base) == (if a@ == b@ {
                        c@
                    } else {
                        fsub(a@, b@)
                    })
                    &&& (fsub(a@, b@) != 0 ==> fmul(
                        fsub(a@, b@),
                        final(l).asn.val(self.config.a_equal_b.value_inv, base),
                    ) == 1)
                    &&& (fsub(a@, b@) == 0 ==> final(l).asn.val(
                        self.config.a_equal_b.value_inv,
                        base,
                    ) == 0)
                    &&& final(l).asn.sel(self.config.selector.index as int, base)
                    &&& final(l).asn.copies == old(l).asn.copies
                    &&& final(l).asn.tables == old(l).asn.tables
                    &&& final(l).asn.fixed == old(l).asn.fixed
                    &&& forall|j: int|
                        0 <= j < final(l).asn.advice.len() && j != self.config.col_a.index && j
                            != self.config.col_b.index && j != self.config.col_c.index && j
                            != self.config.a_equal_b.value_inv.index && j
                            != self.config.output.index ==> (#[trigger] final(l).asn.advice[j])
                            == old(l).asn.advice[j]
                    &&& forall|rr: int|
                        0 <= rr < final(l).asn.n && rr != base ==> (
                        #[trigger] final(l).asn.advice[self.config.col_a.index as int][rr])
                            == old(l).asn.advice[self.config.col_a.index as int][rr]
                    &&& forall|rr: int|
                        0 <= rr < final(l).asn.n && rr != base ==> (
                        #[trigger] final(l).asn.advice[self.config.col_b.index as int][rr])
                            == old(l).asn.advice[self.config.col_b.index as int][rr]
                    &&& forall|rr: int|
                        0 <= rr < final(l).asn.n && rr != base ==> (
                        #[trigger] final(l).asn.advice[self.config.col_c.index as int][rr])
                            == old(l).asn.advice[self.config.col_c.index as int][rr]
                    &&& forall|rr: int|
                        0 <= rr < final(l).asn.n && rr != base ==> (
                        #[trigger] final(l).asn.advice[self.config.a_equal_b.value_inv.index as int][rr])
                            == old(l).asn.advice[self.config.a_equal_b.value_inv.index as int][rr]
                    &&& forall|rr: int|
                        0 <= rr < final(l).asn.n && rr != base ==> (
                        #[trigger] final(l).asn.advice[self.config.output.index as int][rr])
                            == old(l).asn.advice[self.config.output.index as int][rr]
                    &&& forall|j: int|
                        0 <= j < final(l).asn.selectors.len() && j != self.config.selector.index
                            ==> (#[trigger] final(l).asn.selectors[j]) == old(l).asn.selectors[j]
                    &&& forall|rr: int|
                        0 <= rr < final(l).asn.n && rr != base ==> (
                        #[trigger] final(l).asn.selectors[self.config.selector.index as int][rr])
                            == old(l).asn.selectors[self.config.selector.index as int][rr]
                },
                Err(e) => {
                    &&& *final(l) == *old(l)
                    &&& e == Error::NotEnoughRows
                    &&& old(l).offset >= old(l).asn.n
                },
            },
    {
        if l.offset >= l.asn.n {
            return Err(Error::NotEnoughRows);
        }
        let is_zero_chip = IsZeroChip::construct(
            IsZeroConfig {
                value_inv: self.config.a_equal_b.value_inv,
                is_zero_expr: self.config.a_equal_b.expr(),
            },
        );
        l.start_region();
        match l.enable_selector(self.config.selector, 0) {
            Ok(()) => {},
            Err(_) => {
                proof {
                    assert(false);
                }
                return Err(Error::Synthesis);
            },
        };
        let ghost l0 = *l;
        match l.assign_advice(self.config.col_a, 0, a) {
            Ok(_) => {},
            Err(_) => {
                proof {
                    assert(l.asn.advice[self.config.col_a.index as int]
                        == old(l).asn.advice[self.config.col_a.index as int]);
                    assert(old(l).asn.advice[self.config.col_a.index as int][l.region_base as int]
                        is None);
                    assert(false);
                }
                return Err(Error::Synthesis);
            },
        };
        let ghost l1 = *l;
        match l.assign_advice(self.config.col_b, 0, b) {
            Ok(_) => {},
            Err(_) => {
                proof {
                    assert(l.asn.advice[self.config.col_b.index as int]
                        == old(l).asn.advice[self.config.col_b.index as int]);
                    assert(old(l).asn.advice[self.config.col_b.index as int][l.region_base as int]
                        is None);
                    assert(false);
                }
                return Err(Error::Synthesis);
            },
        };
        let ghost l2 = *l;
        match l.assign_advice(self.config.col_c, 0, c) {
            Ok(_) => {},
            Err(_) => {
                proof {
                    assert(l.asn.advice[self.config.col_c.index as int]
                        == old(l).asn.advice[self.config.col_c.index as int]);
                    assert(old(l).asn.advice[self.config.col_c.index as int][l.region_base as int]
                        is None);
                    assert(false);
                }
                return Err(Error::Synthesis);
            },
        };
        let ghost l3 = *l;
        let diff = a.sub(b);
        match is_zero_chip.assign(l, 0, diff) {
            Ok(()) => {},
            Err(_) => {
                proof {
                    assert(l.asn.advice[self.config.a_equal_b.value_inv.index as int]
                        == old(l).asn.advice[self.config.a_equal_b.value_inv.index as int]);
                    assert(old(
                        l,
                    ).asn.advice[self.config.a_equal_b.value_inv.index as int][l.region_base as int]
                        is None);
                    assert(false);
                }
                return Err(Error::NotEnoughRows);
            },
        };
        let ghost l4 = *l;
        proof {
            let w = choose|w: Fp|
                advice_set(
                    l3.asn,
                    l4.asn,
                    self.config.a_equal_b.value_inv.index as int,
                    l.region_base as int,
                    w,
                ) && (diff@ == 0 ==> w@ == 0) && (diff@ != 0 ==> fmul(diff@, w@) == 1);
            assert(advice_set(
                l3.asn,
                l4.asn,
                self.config.a_equal_b.value_inv.index as int,
                l.region_base as int,
                w,
            ));
        }
        let zero = Fp::zero();
        proof {
            Fp::lemma_view_injective(a, b);
            Fp::lemma_view_injective(diff, zero);
        }
        let output = if a == b {
            c
        } else {
            diff
        };
        match l.assign_advice(self.config.output, 0, output) {
            Ok(_) => {},
            Err(_) => {
                proof {
                    assert(l.asn.advice[self.config.output.index as int]
                        == old(l).asn.advice[self.config.output.index as int]);
                    assert(old(l).asn.advice[self.config.output.index as int][l.region_base as int]
                        is None);
                    assert(false);
                }
                return Err(Error::Synthesis);
            },
        };
        l.end_region();
        Ok(())
    }
}

/// End to end: the one-row grid `assign` fills into a fresh layouter
/// satisfies the is-zero guard and both selection sub-constraints for every
/// witness triple — the selected output and the inverse witness make all
/// three polynomials vanish. The contracts of `configure`, `Layouter::new`
/// and `assign` supply every premise.
pub proof fn lemma_synthesized_satisfied(
    cs: ConstraintSystem,
    config: FunctionConfig,
    a: Assignment,
    x: Fp,
    y: Fp,
    z: Fp,
)
    requires
        config.wf(cs),
        cs.gates.len() == 2,
        cs.gates[0].selector == config.selector,
        cs.gates[0].polys.len() == 1,
        cs.gates[0].polys[0].1 == guard_poly(diff_expr(config), config.a_equal_b.value_inv),
        cs.gates[1].selector == config.selector,
        cs.gates[1].polys.len() == 2,
        cs.gates[1].polys[0].1 == select_c_poly(config),
        cs.gates[1].polys[1].1 == select_diff_poly(config),
        cs.lookups.len() == 0,
        1 <= a.n,
        a.copies@.len() == 0,
        a.val(config.col_a, 0) == x@,
        a.val(config.col_b, 0) == y@,
        a.val(config.col_c, 0) == z@,
        a.val(config.output, 0) == (if x@ == y@ {
            z@
        } else {
            fsub(x@, y@)
        }),
        fsub(x@, y@) != 0 ==> fmul(fsub(x@, y@), a.val(config.a_equal_b.value_inv, 0)) == 1,
        fsub(x@, y@) == 0 ==> a.val(config.a_equal_b.value_inv, 0) == 0,
        0 <= x@ < modulus(),
        0 <= y@ < modulus(),
        a.sel(config.selector.index as int, 0),
        forall|rr: int| 1 <= rr < a.n ==> !(#[trigger] a.sel(config.selector.index as int, rr)),
    ensures
        satisfied(cs, a),
{
    let m = modulus();
    let d = fsub(x@, y@);
    let w = a.val(config.a_equal_b.value_inv, 0);
    let out = a.val(config.output, 0);
    assert(x@ == y@ <==> d == 0) by {
        if x@ == y@ {
            vstd::arithmetic::div_mod::lemma_small_mod(0nat, MODULUS as nat);
        } else if x@ > y@ {
            vstd::arithmetic::div_mod::lemma_small_mod((x@ - y@) as nat, MODULUS as nat);
        } else {
            vstd::arithmetic::div_mod::lemma_mod_add_multiples_vanish(x@ - y@, m);
            vstd::arithmetic::div_mod::lemma_small_mod((m + x@ - y@) as nat, MODULUS as nat);
        }
    }
    let qa = Expr::Query(config.col_a, 0);
    let qb = Expr::Query(config.col_b, 0);
    let qc = Expr::Query(config.col_c, 0);
    let qinv = Expr::Query(config.a_equal_b.value_inv, 0);
    let qout = Expr::Query(config.output, 0);
    let diff = diff_expr(config);
    let prod = Expr::Product(Box::new(diff), Box::new(qinv));
    let ind = indicator_expr(diff, config.a_equal_b.value_inv);
    assert forall|gi: int, pi: int, row: int|
        0 <= gi < cs.gates.len() && 0 <= pi < cs.gates[gi].polys.len() && 0 <= row
            < a.n implies !gate_violated(cs, a, gi, pi, row) by {
        if row == 0 {
            assert(eval(qa, a, 0) == x@);
            assert(eval(qb, a, 0) == y@);
            assert(eval(qc, a, 0) == z@);
            assert(eval(qinv, a, 0) == w);
            assert(eval(qout, a, 0) == out);
            assert(diff == Expr::Sum(Box::new(qa), Box::new(Expr::Negated(Box::new(qb)))));
            assert(eval(Expr::Negated(Box::new(qb)), a, 0) == fneg(y@));
            assert(eval(diff, a, 0) == fadd(x@, fneg(y@)));
            vstd::arithmetic::div_mod::lemma_add_mod_noop_right(x@, -y@, m);
            assert(eval(diff, a, 0) == d);
            assert(eval(prod, a, 0) == fmul(d, w));
            assert(ind == Expr::Sum(
                Box::new(Expr::Constant(fp_of(1))),
                Box::new(Expr::Negated(Box::new(prod))),
            ));
            lemma_fp_of(1);
            vstd::arithmetic::div_mod::lemma_small_mod(1nat, MODULUS as nat);
            assert(eval(Expr::Constant(fp_of(1)), a, 0) == 1);
            assert(eval(Expr::Negated(Box::new(prod)), a, 0) == fneg(eval(prod, a, 0)));
            assert(eval(ind, a, 0) == fadd(
                eval(Expr::Constant(fp_of(1)), a, 0),
                eval(Expr::Negated(Box::new(prod)), a, 0),
            ));
            assert(eval(ind, a, 0) == fadd(1, fneg(fmul(d, w))));
            vstd::arithmetic::div_mod::lemma_mod_add_multiples_vanish(-1, m);
            vstd::arithmetic::div_mod::lemma_small_mod((m - 1) as nat, MODULUS as nat);
            vstd::arithmetic::div_mod::lemma_mod_self_0(m);
            let iv = eval(ind, a, 0);
            if d == 0 {
                assert(fmul(0, w) == 0);
                assert(fneg(0) == 0) by {
                    vstd::arithmetic::div_mod::lemma_small_mod(0nat, MODULUS as nat);
                }
                assert(iv == fadd(1, 0));
                assert(iv == 1);
            } else {
                assert(fmul(d, w) == 1);
                assert(fneg(1) == m - 1);
                assert(iv == fadd(1, m - 1));
                assert(iv == 0);
            }
            if gi == 0 {
                assert(eval(guard_poly(diff, config.a_equal_b.value_inv), a, 0) == fmul(d, iv));
                if d == 0 {
                    assert(fmul(0, iv) == 0);
                } else {
                    assert(fmul(d, 0) == 0) by {
                        assert(d * 0 == 0) by (nonlinear_arith);
                        vstd::arithmetic::div_mod::lemma_small_mod(0nat, MODULUS as nat);
                    }
                }
            } else {
                let outc = Expr::Sum(Box::new(qout), Box::new(Expr::Negated(Box::new(qc))));
                let outd = Expr::Sum(Box::new(qout), Box::new(Expr::Negated(Box::new(diff))));
                assert(eval(Expr::Negated(Box::new(qc)), a, 0) == fneg(eval(qc, a, 0)));
                assert(eval(Expr::Negated(Box::new(diff)), a, 0) == fneg(eval(diff, a, 0)));
                assert(eval(outc, a, 0) == fadd(
                    eval(qout, a, 0),
                    eval(Expr::Negated(Box::new(qc)), a, 0),
                ));
                assert(eval(outd, a, 0) == fadd(
                    eval(qout, a, 0),
                    eval(Expr::Negated(Box::new(diff)), a, 0),
                ));
                assert(eval(outc, a, 0) == fadd(out, fneg(z@)));
                assert(eval(outd, a, 0) == fadd(out, fneg(d)));
                if pi == 0 {
                    assert(select_c_poly(config) == Expr::Product(Box::new(ind), Box::new(outc)));
                    assert(eval(select_c_poly(config), a, 0) == fmul(iv, eval(outc, a, 0)));
                    if d == 0 {
                        assert(out == z@);
                        vstd::arithmetic::div_mod::lemma_add_mod_noop_right(out, -z@, m);
                        vstd::arithmetic::div_mod::lemma_small_mod(0nat, MODULUS as nat);
                        assert(eval(outc, a, 0) == 0);
                        assert(fmul(iv, 0) == 0) by {
                            assert(iv * 0 == 0) by (nonlinear_arith);
                            vstd::arithmetic::div_mod::lemma_small_mod(0nat, MODULUS as nat);
                        }
                    } else {
                        assert(fmul(0, eval(outc, a, 0)) == 0);
                    }
                } else {
                    let lhs = Expr::Sum(
                        Box::new(Expr::Constant(fp_of(1))),
                        Box::new(Expr::Negated(Box::new(ind))),
                    );
                    assert(select_diff_poly(config) == Expr::Product(
                        Box::new(lhs),
                        Box::new(outd),
                    ));
                    assert(eval(Expr::Negated(Box::new(ind)), a, 0) == fneg(eval(ind, a, 0)));
                    assert(eval(lhs, a, 0) == fadd(
                        eval(Expr::Constant(fp_of(1)), a, 0),
                        eval(Expr::Negated(Box::new(ind)), a, 0),
                    ));
                    assert(eval(lhs, a, 0) == fadd(1, fneg(iv)));
                    assert(eval(select_diff_poly(config), a, 0) == fmul(
                        eval(lhs, a, 0),
                        eval(outd, a, 0),
                    ));
                    if d == 0 {
                        assert(fneg(1) == m - 1);
                        assert(fadd(1, m - 1) == 0);
                        assert(eval(lhs, a, 0) == 0);
                        assert(fmul(0, eval(outd, a, 0)) == 0) by {
                            assert(0 * eval(outd, a, 0) == 0) by (nonlinear_arith);
                            vstd::arithmetic::div_mod::lemma_small_mod(0nat, MODULUS as nat);
                        }
                    } else {
                        assert(fneg(0) == 0) by {
                            vstd::arithmetic::div_mod::lemma_small_mod(0nat, MODULUS as nat);
                        }
                        assert(eval(lhs, a, 0) == fadd(1, 0));
                        assert(eval(lhs, a, 0) == 1);
                        assert(out == d);
                        vstd::arithmetic::div_mod::lemma_add_mod_noop_right(out, -d, m);
                        vstd::arithmetic::div_mod::lemma_small_mod(0nat, MODULUS as nat);
                        assert(eval(outd, a, 0) == 0);
                        assert(fmul(1, 0) == 0);
                    }
                }
            }
        } else {
            assert(!a.sel(config.selector.index as int, row));
        }
    }
    assert(gates_ok(cs, a));
    assert(copies_ok(a));
    assert(lookups_ok(cs, a));
}

/// The circuit itself: one conditional-selection row over the witness
/// triple.
pub struct MyCircuit {
    pub a: Fp,
    pub b: Fp,
    pub c: Fp,
}

impl MyCircuit {
    /// Declares the chip's columns and gates.
    pub fn configure(cs: &mut ConstraintSystem) -> (config: FunctionConfig)
        requires
            old(cs).wf(),
            old(cs).num_advice + 5 <= usize::MAX,
            old(cs).num_selectors < usize::MAX,
        ensures
            final(cs).wf(),
            config.wf(*final(cs)),
            config.col_a == (Column { kind: ColumnKind::Advice, index: old(cs).num_advice }),
            config.col_b == (Column {
                kind: ColumnKind::Advice,
                index: (old(cs).num_advice + 1) as usize,
            }),
            config.col_c == (Column {
                kind: ColumnKind::Advice,
                index: (old(cs).num_advice + 2) as usize,
            }),
            config.a_equal_b.value_inv == (Column {
                kind: ColumnKind::Advice,
                index: (old(cs).num_advice + 3) as usize,
            }),
            config.output == (Column {
                kind: ColumnKind::Advice,
                index: (old(cs).num_advice + 4) as usize,
            }),
            config.selector == (Selector { index: old(cs).num_selectors, complex: false }),
            final(cs).num_advice == old(cs).num_advice + 5,
            final(cs).num_fixed == old(cs).num_fixed,
            final(cs).num_instance == old(cs).num_instance,
            final(cs).num_tables == old(cs).num_tables,
            final(cs).num_selectors == old(cs).num_selectors + 1,
            final(cs).advice_eq@ == old(cs).advice_eq@.push(false).push(false).push(false).push(
                false,
            ).push(false),
            final(cs).instance_eq == old(cs).instance_eq,
            final(cs).lookups == old(cs).lookups,
            final(cs).gates@.len() == old(cs).gates@.len() + 2,
            forall|g: int|
                0 <= g < old(cs).gates@.len() ==> final(cs).gates@[g] == old(cs).gates@[g],
            final(cs).gates@[final(cs).gates@.len() - 2].name == "is_zero",
            final(cs).gates@[final(cs).gates@.len() - 2].selector == config.selector,
            final(cs).gates@[final(cs).gates@.len() - 2].polys@.len() == 1,
            final(cs).gates@[final(cs).gates@.len() - 2].polys@[0].0 == "is_zero",
            final(cs).gates@[final(cs).gates@.len() - 2].polys@[0].1 == guard_poly(
                diff_expr(config),
                config.a_equal_b.value_inv,
            ),
            final(cs).gates@.last().name == "conditional selection",
            final(cs).gates@.last().selector == config.selector,
            final(cs).gates@.last().polys@.len() == 2,
            final(cs).gates@.last().polys@[0].0 == "select c",
            final(cs).gates@.last().polys@[0].1 == select_c_poly(config),
            final(cs).gates@.last().polys@[1].0 == "select a - b",
            final(cs).gates@.last().polys@[1].1 == select_diff_poly(config),
    {
        FunctionChip::configure(cs)
    }

    /// Assigns the one selection row for this circuit's witness triple.
    /// Succeeds whenever a row is still free; a full row domain comes back
    /// as the configuration error it is.
    pub fn synthesize(&self, config: FunctionConfig, l: &mut Layouter, cs: &ConstraintSystem) -> (r:
        Result<(), Error>)
        requires
            old(l).wf(),
            !old(l).in_region,
            old(l).asn.wf(*cs),
            config.wf(*cs),
        ensures
            final(l).wf(),
            final(l).asn.wf(*cs),
            !final(l).in_region,
            r is Ok <==> old(l).offset < old(l).asn.n,
            match r {
                Ok(()) => {
                    let base = old(l).offset as int;
                    &&& final(l).offset == old(l).offset + 1
                    &&& final(l).asn.val(config.col_a, base) == self.a@
                    &&& final(l).asn.val(config.col_b, base) == self.b@
                    &&& final(l).asn.val(config.col_c, base) == self.c@
                    &&& final(l).asn.val(config.output, base) == (if self.a@ == self.b@ {
                        self.c@
                    } else {
                        fsub(self.a@, self.b@)
                    })
                    &&& (fsub(self.a@, self.b@) != 0 ==> fmul(
                        fsub(self.a@, self.b@),
                        final(l).asn.val(config.a_equal_b.value_inv, base),
                    ) == 1)
                    &&& (fsub(self.a@, self.b@) == 0 ==> final(l).asn.val(
                        config.a_equal_b.value_inv,
                        base,
                    ) == 0)
                    &&& final(l).asn.sel(config.selector.index as int, base)
                    &&& final(l).asn.copies == old(l).asn.copies
                    &&& final(l).asn.tables == old(l).asn.tables
                    &&& final(l).asn.fixed == old(l).asn.fixed
                    &&& forall|j: int|
                        0 <= j < final(l).asn.advice.len() && j != config.col_a.index && j
                            != config.col_b.index && j != config.col_c.index && j
                            != config.a_equal_b.value_inv.index && j != config.output.index ==> (
                        #[trigger] final(l).asn.advice[j]) == old(l).asn.advice[j]
                    &&& forall|rr: int|
                        0 <= rr < final(l).asn.n && rr != base ==> (
                        #[trigger] final(l).asn.advice[config.col_a.index as int][rr])
                            == old(l).asn.advice[config.col_a.index as int][rr]
                    &&& forall|rr: int|
                        0 <= rr < final(l).asn.n && rr != base ==> (
                        #[trigger] final(l).asn.advice[config.col_b.index as int][rr])
                            == old(l).asn.advice[config.col_b.index as int][rr]
                    &&& forall|rr: int|
                        0 <= rr < final(l).asn.n && rr != base ==> (
                        #[trigger] final(l).asn.advice[config.col_c.index as int][rr])
                            == old(l).asn.advice[config.col_c.index as int][rr]
                    &&& forall|rr: int|
                        0 <= rr < final(l).asn.n && rr != base ==> (
                        #[trigger] final(l).asn.advice[config.a_equal_b.value_inv.index as int][rr])
                            == old(l).asn.advice[config.a_equal_b.value_inv.index as int][rr]
                    &&& forall|rr: int|
                        0 <= rr < final(l).asn.n && rr != base ==> (
                        #[trigger] final(l).asn.advice[config.output.index as int][rr])
                            == old(l).asn.advice[config.output.index as int][rr]
                    &&& forall|j: int|
                        0 <= j < final(l).asn.selectors.len() && j != config.selector.index ==> (
                        #[trigger] final(l).asn.selectors[j]) == old(l).asn.selectors[j]
                    &&& forall|rr: int|
                        0 <= rr < final(l).asn.n && rr != base ==> (
                        #[trigger] final(l).asn.selectors[config.selector.index as int][rr])
                            == old(l).asn.selectors[config.selector.index as int][rr]
                },
                Err(e) => {
                    &&& *final(l) == *old(l)
                    &&& e == Error::NotEnoughRows
                },
            },
    {
        let chip = FunctionChip::construct(config);
        chip.assign(l, cs, self.a, self.b, self.c)
    }
}

} // verus!
