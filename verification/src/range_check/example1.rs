//! The polynomial form of the range check: a single gate
//! `v * (1 - v) * ... * (RANGE - 1 - v)` vanishes exactly when `v` lies in
//! `{0, ..., RANGE - 1}`. Its degree grows with the range, which is
//! why large ranges switch to the lookup form.

use vstd::prelude::*;
use crate::circuit::Layouter;
use crate::column::{Column, ColumnKind, Selector};
use crate::error::Error;
use crate::expression::Expr;
use crate::field::{Fp, MODULUS};
use crate::plonk::ConstraintSystem;
use crate::circuit::Assignment;
use crate::dev::{copies_ok, gate_violated, gates_ok, lookups_ok, satisfied};
use crate::field::modulus;
use crate::range_check::{build_range_poly, lemma_eval_range_poly, lemma_range_product_zero_iff, range_poly};

verus! {

/// The column and selector the range check works with.
#[derive(Clone, Copy, PartialEq, Eq, Structural, Debug)]
pub struct RangeCheckConfig {
    pub value: Column,
    pub q_range_check: Selector,
    pub range: usize,
}

impl RangeCheckConfig {
    /// The column and selector are declared in `cs`.
    pub open spec fn wf(self, cs: ConstraintSystem) -> bool {
        &&& self.value.kind == ColumnKind::Advice && self.value.index < cs.num_advice
        &&& self.q_range_check.index < cs.num_selectors
    }
}

pub struct RangeCheckChip {
    pub config: RangeCheckConfig,
}

impl RangeCheckChip {
    pub fn construct(config: RangeCheckConfig) -> (chip: RangeCheckChip)
        ensures
            chip.config == config,
    {
        RangeCheckChip { config }
    }

    /// Declares the value column and the selector-gated range-check gate over
    /// `{0, ..., range - 1}`.
    pub fn configure(cs: &mut ConstraintSystem, range: usize) -> (config: RangeCheckConfig)
        requires
            old(cs).wf(),
            old(cs).num_advice < usize::MAX,
            old(cs).num_selectors < usize::MAX,
            1 <= range <= MODULUS,
        ensures
            final(cs).wf(),
            config.wf(*final(cs)),
            config.value == (Column { kind: ColumnKind::Advice, index: old(cs).num_advice }),
            config.q_range_check == (Selector { index: old(cs).num_selectors, complex: false }),
            final(cs).num_advice == old(cs).num_advice + 1,
            final(cs).num_fixed == old(cs).num_fixed,
            final(cs).num_instance == old(cs).num_instance,
            final(cs).num_tables == old(cs).num_tables,
            final(cs).num_selectors == old(cs).num_selectors + 1,
            final(cs).advice_eq@ == old(cs).advice_eq@.push(false),
            final(cs).instance_eq == old(cs).instance_eq,
            final(cs).lookups == old(cs).lookups,
            final(cs).gates@.len() == old(cs).gates@.len() + 1,
            forall|g: int|
                0 <= g < old(cs).gates@.len() ==> final(cs).gates@[g] == old(cs).gates@[g],
            final(cs).gates@.last().name == "range check",
            final(cs).gates@.last().selector == config.q_range_check,
            final(cs).gates@.last().polys@.len() == 1,
            final(cs).gates@.last().polys@[0].0 == "range check",
            config.range == range,
            final(cs).gates@.last().polys@[0].1 == range_poly(config.value, range as nat),
    {
        let value = cs.advice_column();
        let q_range_check = cs.selector();
        let poly = build_range_poly(value, range);
        let mut polys: Vec<(&'static str, Expr)> = Vec::new();
        polys.push(("range check", poly));
        cs.create_gate("range check", q_range_check, polys);
        RangeCheckConfig { value, q_range_check, range }
    }

    /// Places one region with the selector on and the checked value
    /// witnessed.
    pub fn assign(&self, l: &mut Layouter, cs: &ConstraintSystem, value: Fp) -> (r: Result<
        (),
        Error,
    >)
        requires
            old(l).wf(),
            !old(l).in_region,
            old(l).asn.wf(*cs),
            self.config.wf(*cs),
        ensures
            final(l).wf(),
            final(l).asn.wf(*cs),
            !final(l).in_region,
            final(l).asn.n == old(l).asn.n,
            final(l).asn.instance == old(l).asn.instance,
            match r {
                Ok(()) => {
                    let base = old(l).offset as int;
                    &&& old(l).offset < old(l).asn.n
                    &&& final(l).offset == old(l).offset + 1
                    &&& final(l).asn.val(self.config.value, base) == value@
                    &&& final(l).asn.sel(self.config.q_range_check.index as int, base)
                    &&& final(l).asn.copies == old(l).asn.copies
                    &&& final(l).asn.tables == old(l).asn.tables
                    &&& final(l).asn.fixed == old(l).asn.fixed
                    &&& forall|j: int|
                        0 <= j < final(l).asn.advice.len() && j != self.config.value.index ==> (
                        #[trigger] final(l).asn.advice[j]) == old(l).asn.advice[j]
                    &&& forall|rr: int|
                        0 <= rr < final(l).asn.n && rr != base ==> (
                        #[trigger] final(l).asn.advice[self.config.value.index as int][rr]) == old(
                            l,
                        ).asn.advice[self.config.value.index as int][rr]
                    &&& forall|j: int|
                        0 <= j < final(l).asn.selectors.len() && j
                            != self.config.q_range_check.index ==> (
                        #[trigger] final(l).asn.selectors[j]) == old(l).asn.selectors[j]
                    &&& forall|rr: int|
                        0 <= rr < final(l).asn.n && rr != base ==> (
                        #[trigger] final(l).asn.selectors[self.config.q_range_check.index as int][rr])
                            == old(l).asn.selectors[self.config.q_range_check.index as int][rr]
                },
                Err(e) => {
                    &&& *final(l) == *old(l)
                    &&& e == Error::NotEnoughRows
                    &&& old(l).offset >= old(l).asn.n
                },
            },
    {
        if l.offset >= l.asn.n {
            return Err(Error::NotEnoughRows);
        }
        l.start_region();
        match l.enable_selector(self.config.q_range_check, 0) {
            Ok(()) => {},
            Err(_) => {
                proof {
                    assert(false);
                }
                return Err(Error::Synthesis);
            },
        };
        match l.assign_advice(self.config.value, 0, value) {
            Ok(_) => {},
            Err(_) => {
                proof {
                    assert(false);
                }
                return Err(Error::Synthesis);
            },
        };
        l.end_region();
        Ok(())
    }
}

/// End to end: on a grid whose only active constraint is this range gate at
/// row 0 over a reduced witnessed value, the circuit is satisfied exactly
/// when the value lies in the range. The contracts of `configure`,
/// `Layouter::new` and `synthesize` supply every premise.
pub proof fn lemma_synthesized_satisfied(
    cs: ConstraintSystem,
    config: RangeCheckConfig,
    a: Assignment,
    v: Fp,
)
    requires
        config.wf(cs),
        cs.gates.len() == 1,
        cs.gates[0].selector == config.q_range_check,
        cs.gates[0].polys.len() == 1,
        cs.gates[0].polys[0].1 == range_poly(config.value, config.range as nat),
        cs.lookups.len() == 0,
        1 <= config.range <= MODULUS,
        a.n >= 1,
        a.copies@.len() == 0,
        a.val(config.value, 0) == v@,
        0 <= v@ < modulus(),
        a.sel(config.q_range_check.index as int, 0),
        forall|rr: int|
            1 <= rr < a.n ==> !(#[trigger] a.sel(config.q_range_check.index as int, rr)),
    ensures
        satisfied(cs, a) <==> v@ < config.range,
{
    lemma_eval_range_poly(config.value, config.range as nat, a, 0);
    lemma_range_product_zero_iff(config.range as nat, v@);
    if v@ < config.range {
        assert forall|gi: int, pi: int, row: int|
            0 <= gi < cs.gates.len() && 0 <= pi < cs.gates[gi].polys.len() && 0 <= row
                < a.n implies !gate_violated(cs, a, gi, pi, row) by {
            if row != 0 {
                assert(!a.sel(config.q_range_check.index as int, row));
            }
        }
        assert(gates_ok(cs, a));
        assert(copies_ok(a));
        assert(lookups_ok(cs, a));
    } else {
        assert(gate_violated(cs, a, 0, 0, 0));
        assert(!gates_ok(cs, a));
    }
}

/// The circuit itself: one witnessed value under the range-check gate.
pub struct MyCircuit {
    pub v: Fp,
}

impl MyCircuit {
    /// Declares the range-check column and gate for `RANGE = 8`.
    pub fn configure(cs: &mut ConstraintSystem) -> (config: RangeCheckConfig)
        requires
            old(cs).wf(),
            old(cs).num_advice < usize::MAX,
            old(cs).num_selectors < usize::MAX,
        ensures
            config.range == 8,
            final(cs).wf(),
            config.wf(*final(cs)),
            config.value == (Column { kind: ColumnKind::Advice, index: old(cs).num_advice }),
            config.q_range_check == (Selector { index: old(cs).num_selectors, complex: false }),
            final(cs).num_advice == old(cs).num_advice + 1,
            final(cs).num_fixed == old(cs).num_fixed,
            final(cs).num_instance == old(cs).num_instance,
            final(cs).num_tables == old(cs).num_tables,
            final(cs).num_selectors == old(cs).num_selectors + 1,
            final(cs).advice_eq@ == old(cs).advice_eq@.push(false),
            final(cs).instance_eq == old(cs).instance_eq,
            final(cs).lookups == old(cs).lookups,
            final(cs).gates@.len() == old(cs).gates@.len() + 1,
            forall|g: int|
                0 <= g < old(cs).gates@.len() ==> final(cs).gates@[g] == old(cs).gates@[g],
            final(cs).gates@.last().name == "range check",
            final(cs).gates@.last().selector == config.q_range_check,
            final(cs).gates@.last().polys@.len() == 1,
            final(cs).gates@.last().polys@[0].0 == "range check",
            final(cs).gates@.last().polys@[0].1 == range_poly(config.value, 8),
    {
        RangeCheckChip::configure(cs, 8)
    }

    /// Witnesses this circuit's value under its range gate. Succeeds
    /// whenever a row is still free; a full row domain comes back as the
    /// configuration error it is.
    pub fn synthesize(&self, config: RangeCheckConfig, l: &mut Layouter, cs: &ConstraintSystem) -> (r:
        Result<(), Error>)
        requires
            old(l).wf(),
            !old(l).in_region,
            old(l).asn.wf(*cs),
            config.wf(*cs),
        ensures
            final(l).wf(),
            final(l).asn.wf(*cs),
            !final(l).in_region,
            (r is Ok <==> old(l).offset < old(l).asn.n),
            r is Err ==> *final(l) == *old(l) && r->Err_0 == Error::NotEnoughRows,
            r is Ok ==> final(l).offset == old(l).offset + 1 && final(l).asn.val(
                config.value,
                old(l).offset as int,
            ) == self.v@ && final(l).asn.sel(
                config.q_range_check.index as int,
                old(l).offset as int,
            ),
    {
        let chip = RangeCheckChip::construct(config);
        chip.assign(l, cs, self.v)
    }
}

} // verus!
