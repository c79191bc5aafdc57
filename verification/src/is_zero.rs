//! An is-zero gadget: for a configured expression `value`, a helper advice
//! column carries a claimed inverse, and the indicator expression
//! `1 - value * value_inv` evaluates to 1 exactly when `value` is 0. The
//! gadget's own gate, `value * (1 - value * value_inv)`, forces the
//! indicator to 0 on rows where `value` is non-zero.

use vstd::prelude::*;
use crate::circuit::{advice_set, max2, Layouter};
use crate::column::{Column, ColumnKind, Selector};
use crate::error::Error;
use crate::expression::Expr;
use crate::field::{fmul, fp_of, Fp};
use crate::plonk::ConstraintSystem;

verus! {

/// The indicator expression `1 - value * value_inv`.
pub open spec fn indicator_expr(value: Expr, value_inv: Column) -> Expr {
    Expr::Sum(
        Box::new(Expr::Constant(fp_of(1))),
        Box::new(
            Expr::Negated(
                Box::new(
                    Expr::Product(Box::new(value), Box::new(Expr::Query(value_inv, 0))),
                ),
            ),
        ),
    )
}

/// The gadget's own gate polynomial `value * (1 - value * value_inv)`.
pub open spec fn guard_poly(value: Expr, value_inv: Column) -> Expr {
    Expr::Product(Box::new(value), Box::new(indicator_expr(value, value_inv)))
}

/// The helper column and the indicator expression built over it.
pub struct IsZeroConfig {
    pub value_inv: Column,
    pub is_zero_expr: Expr,
}

impl IsZeroConfig {
    /// The helper column is a declared advice column.
    pub open spec fn wf(self, cs: ConstraintSystem) -> bool {
        &&& self.value_inv.kind == ColumnKind::Advice
        &&& self.value_inv.index < cs.num_advice
    }

    /// A copy of the indicator expression, for use inside a caller's gate.
    pub fn expr(&self) -> (e: Expr)
        ensures
            e == self.is_zero_expr,
    {
        self.is_zero_expr.duplicate()
    }
}

pub struct IsZeroChip {
    pub config: IsZeroConfig,
}

impl IsZeroChip {
    pub fn construct(config: IsZeroConfig) -> (chip: IsZeroChip)
        ensures
            chip.config == config,
    {
        IsZeroChip { config }
    }

    /// Registers the guard gate under `selector` and hands back the
    /// indicator expression for the caller's own gates.
    pub fn configure(
        cs: &mut ConstraintSystem,
        selector: Selector,
        value: &Expr,
        value_inv: Column,
    ) -> (config: IsZeroConfig)
        requires
            old(cs).wf(),
            selector.index < old(cs).num_selectors,
            value_inv.kind == ColumnKind::Advice,
            value_inv.index < old(cs).num_advice,
        ensures
            final(cs).wf(),
            config.value_inv == value_inv,
            config.wf(*final(cs)),
            config.is_zero_expr == indicator_expr(*value, value_inv),
            final(cs).num_advice == old(cs).num_advice,
            final(cs).num_fixed == old(cs).num_fixed,
            final(cs).num_instance == old(cs).num_instance,
            final(cs).num_tables == old(cs).num_tables,
            final(cs).num_selectors == old(cs).num_selectors,
            final(cs).advice_eq == old(cs).advice_eq,
            final(cs).instance_eq == old(cs).instance_eq,
            final(cs).lookups == old(cs).lookups,
            final(cs).gates@.len() == old(cs).gates@.len() + 1,
            forall|g: int|
                0 <= g < old(cs).gates@.len() ==> final(cs).gates@[g] == old(cs).gates@[g],
            final(cs).gates@.last().name == "is_zero",
            final(cs).gates@.last().selector == selector,
            final(cs).gates@.last().polys@.len() == 1,
            final(cs).gates@.last().polys@[0].0 == "is_zero",
            final(cs).gates@.last().polys@[0].1 == guard_poly(*value, value_inv),
    {
        let is_zero_expr = Expr::constant(Fp::one()).sub(
            value.duplicate().mul(Expr::query(value_inv, 0)),
        );
        let poly = value.duplicate().mul(is_zero_expr.duplicate());
        let mut polys: Vec<(&'static str, Expr)> = Vec::new();
        polys.push(("is_zero", poly));
        cs.create_gate("is_zero", selector, polys);
        IsZeroConfig { value_inv, is_zero_expr }
    }

    /// Witnesses the inverse of `value` (or zero, when `value` is zero) into
    /// the helper column at the region-relative row `rel`. The witness always
    /// exists, so the only failures are a full row domain or a conflicting
    /// earlier assignment.
    pub fn assign(&self, l: &mut Layouter, rel: usize, value: Fp) -> (r: Result<(), Error>)
        requires
            old(l).wf(),
            old(l).in_region,
            self.config.value_inv.kind == ColumnKind::Advice,
            self.config.value_inv.index < old(l).asn.advice.len(),
        ensures
            final(l).wf(),
            final(l).in_region,
            final(l).region_base == old(l).region_base,
            final(l).offset == old(l).offset,
            match r {
                Ok(()) => {
                    let abs = old(l).region_base + rel;
                    &&& abs < old(l).asn.n
                    &&& final(l).region_used == max2(old(l).region_used as int, rel + 1)
                    &&& exists|w: Fp|
                        advice_set(
                            old(l).asn,
                            final(l).asn,
                            self.config.value_inv.index as int,
                            abs as int,
                            w,
                        ) && (value@ == 0 ==> w@ == 0) && (value@ != 0 ==> fmul(value@, w@) == 1)
                },
                Err(e) => {
                    &&& *final(l) == *old(l)
                    &&& (e == Error::NotEnoughRows <==> old(l).region_base + rel >= old(l).asn.n)
                    &&& (e == Error::AlreadyAssigned ==> old(
                        l,
                    ).asn.advice[self.config.value_inv.index as int][(old(l).region_base
                        + rel) as int] is Some)
                    &&& (e == Error::NotEnoughRows || e == Error::AlreadyAssigned)
                },
            },
    {
        let zero = Fp::zero();
        proof {
            Fp::lemma_view_injective(value, zero);
        }
        let w = if value == zero {
            zero
        } else {
            match value.invert() {
                Some(x) => x,
                None => {
                    proof {
                        assert(false);
                    }
                    return Err(Error::NotEnoughRows);
                },
            }
        };
        match l.assign_advice(self.config.value_inv, rel, w) {
            Ok(_) => {
                proof {
                    assert(advice_set(
                        old(l).asn,
                        l.asn,
                        self.config.value_inv.index as int,
                        (old(l).region_base + rel) as int,
                        w,
                    ));
                }
                Ok(())
            },
            Err(e) => Err(e),
        }
    }
}

} // verus!
