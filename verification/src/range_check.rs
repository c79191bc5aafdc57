//! Range checks: two circuits that constrain a witnessed value to a range
//! `{0, ..., N - 1}`, one with a degree-`N` polynomial gate and one with a
//! lookup argument against a precomputed table. For the same logical range
//! the two forms accept exactly the same values; the polynomial's degree
//! grows with the range, the lookup's does not.

use vstd::prelude::*;
use vstd::arithmetic::div_mod::lemma_add_mod_noop;
use crate::circuit::{opt_val, Assignment};
use crate::column::Column;
use crate::dev::{eval, gate_violated, lookup_row_matches, lookup_violated};
use crate::expression::Expr;
use crate::field::{fadd, fmul, fneg, fp_of, fsub, lemma_fp_of, modulus, MODULUS};
use crate::plonk::ConstraintSystem;

pub mod example1;
pub mod example2;

verus! {

/// The range-check polynomial over a column query `v`:
/// `v * (1 - v) * (2 - v) * ... * (r - 1 - v)`.
pub open spec fn range_poly(col: Column, r: nat) -> Expr
    decreases r,
{
    if r <= 1 {
        Expr::Query(col, 0)
    } else {
        Expr::Product(
            Box::new(range_poly(col, (r - 1) as nat)),
            Box::new(
                Expr::Sum(
                    Box::new(Expr::Constant(fp_of(r - 1))),
                    Box::new(Expr::Negated(Box::new(Expr::Query(col, 0)))),
                ),
            ),
        )
    }
}

/// The value of the range-check polynomial on a concrete `v`:
/// `v * (1 - v) * ... * (r - 1 - v)` over the field.
pub open spec fn range_product(r: nat, v: int) -> int
    decreases r,
{
    if r <= 1 {
        v
    } else {
        fmul(range_product((r - 1) as nat, v), fsub(r - 1, v))
    }
}

/// The range-check polynomial evaluates, on any grid and row, to the
/// range product of the queried value.
pub proof fn lemma_eval_range_poly(col: Column, r: nat, a: Assignment, row: int)
    requires
        1 <= r,
    ensures
        eval(range_poly(col, r), a, row) == range_product(r, a.val(col, row)),
    decreases r,
{
    let v = a.val(col, row);
    if r <= 1 {
    } else {
        lemma_eval_range_poly(col, (r - 1) as nat, a, row);
        lemma_fp_of(r - 1);
        lemma_add_mod_noop(r - 1, -v, modulus());
        let sub = range_poly(col, (r - 1) as nat);
        let factor = Expr::Sum(
            Box::new(Expr::Constant(fp_of(r - 1))),
            Box::new(Expr::Negated(Box::new(Expr::Query(col, 0)))),
        );
        assert(range_poly(col, r) == Expr::Product(Box::new(sub), Box::new(factor)));
        assert(eval(range_poly(col, r), a, row) == fmul(eval(sub, a, row), eval(factor, a, row)));
        let q = Expr::Query(col, 0);
        let negq = Expr::Negated(Box::new(q));
        assert(eval(q, a, row) == v);
        assert(eval(negq, a, row) == fneg(eval(q, a, row)));
        assert(eval(Expr::Constant(fp_of(r - 1)), a, row) == fp_of(r - 1)@);
        assert(eval(factor, a, row) == fadd(eval(Expr::Constant(fp_of(r - 1)), a, row), eval(negq, a, row)));
        assert(eval(factor, a, row) == fadd(fp_of(r - 1)@, fneg(v)));
        assert(fadd(fp_of(r - 1)@, fneg(v)) == fsub(r - 1, v));
        assert(range_product(r, v) == fmul(range_product((r - 1) as nat, v), fsub(r - 1, v)));
    }
}

/// A value inside the range makes the range product vanish: one of its
/// factors is zero.
pub proof fn lemma_range_product_vanishes(r: nat, v: int)
    requires
        0 <= v < r,
        r <= modulus(),
    ensures
        range_product(r, v) == 0,
    decreases r,
{
    if r <= 1 {
    } else {
        if v == r - 1 {
            vstd::arithmetic::div_mod::lemma_small_mod(0nat, MODULUS as nat);
            assert(fsub(r - 1, v) == 0);
            assert(range_product(r, v) == fmul(range_product((r - 1) as nat, v), 0));
        } else {
            lemma_range_product_vanishes((r - 1) as nat, v);
        }
    }
}

/// A reduced value outside the range keeps every factor of the range
/// product non-zero, so the product itself is non-zero: the field has no
/// zero divisors.
pub proof fn lemma_range_product_nonzero(r: nat, v: int)
    requires
        1 <= r <= modulus(),
        r <= v < modulus(),
    ensures
        0 < range_product(r, v) < modulus(),
    decreases r,
{
    if r <= 1 {
    } else {
        lemma_range_product_nonzero((r - 1) as nat, v);
        let i = r - 1;
        vstd::arithmetic::div_mod::lemma_mod_add_multiples_vanish(i - v, modulus());
        vstd::arithmetic::div_mod::lemma_small_mod((modulus() + i - v) as nat, MODULUS as nat);
        assert(fsub(i, v) == modulus() + i - v);
        crate::field::lemma_fmul_nonzero(range_product((r - 1) as nat, v), fsub(i, v));
        vstd::arithmetic::div_mod::lemma_mod_bound(
            range_product((r - 1) as nat, v) * fsub(i, v),
            modulus(),
        );
    }
}

/// The range product vanishes exactly on the values of the range.
pub proof fn lemma_range_product_zero_iff(r: nat, v: int)
    requires
        1 <= r <= modulus(),
        0 <= v < modulus(),
    ensures
        (range_product(r, v) == 0) <==> (v < r),
{
    if v < r {
        lemma_range_product_vanishes(r, v);
    } else {
        lemma_range_product_nonzero(r, v);
    }
}

/// Degree/table trade-off: the polynomial form and the lookup form of the
/// range check accept and reject exactly the same values. On a row where
/// both selectors are active and the checked value is reduced, the range
/// gate is violated exactly when the lookup is — both exactly when the value
/// lies outside the range.
pub proof fn lemma_range_forms_agree(
    cs: ConstraintSystem,
    a: Assignment,
    gi: int,
    pi: int,
    li: int,
    col: Column,
    count: int,
    row: int,
)
    requires
        cs.gates[gi].polys[pi].1 == range_poly(col, count as nat),
        1 <= count <= modulus(),
        0 <= li < cs.lookups.len(),
        cs.lookups[li].inputs.len() == 1,
        cs.lookups[li].tables.len() == 1,
        cs.lookups[li].inputs[0] == Expr::Query(col, 0),
        count <= a.n,
        forall|rr: int|
            0 <= rr < count ==> (#[trigger] a.table_val(
                cs.lookups[li].tables[0].index as int,
                rr,
            )) == Some(fp_of(rr)),
        forall|rr: int|
            count <= rr < a.n ==> (#[trigger] a.table_val(
                cs.lookups[li].tables[0].index as int,
                rr,
            )) is None,
        0 <= a.val(col, row) < modulus(),
        a.sel(cs.gates[gi].selector.index as int, row),
        a.sel(cs.lookups[li].selector.index as int, row),
    ensures
        gate_violated(cs, a, gi, pi, row) <==> lookup_violated(cs, a, li, row),
        gate_violated(cs, a, gi, pi, row) <==> !(a.val(col, row) < count),
{
    let v = a.val(col, row);
    lemma_eval_range_poly(col, count as nat, a, row);
    lemma_range_product_zero_iff(count as nat, v);
    assert(eval(cs.lookups[li].inputs[0], a, row) == v);
    lemma_lookup_range_exact(cs, a, li, row, count);
}

/// A value inside the range never violates a gate whose polynomial is the
/// range-check polynomial, whatever the selector does.
pub proof fn lemma_range_poly_accepts(
    cs: ConstraintSystem,
    a: Assignment,
    gi: int,
    pi: int,
    col: Column,
    r: nat,
    row: int,
)
    requires
        cs.gates[gi].polys[pi].1 == range_poly(col, r),
        1 <= r <= modulus(),
        0 <= a.val(col, row) < r,
    ensures
        !gate_violated(cs, a, gi, pi, row),
{
    lemma_eval_range_poly(col, r, a, row);
    lemma_range_product_vanishes(r, a.val(col, row));
}

/// For a table holding exactly the values `0 ... count - 1` and a lookup of
/// one reduced input value against it, the membership check fails exactly
/// when the value lies outside the range. Together with
/// `lemma_range_poly_accepts` this says the lookup form and the polynomial
/// form of the range check agree wherever both are settled.
pub proof fn lemma_lookup_range_exact(
    cs: ConstraintSystem,
    a: Assignment,
    li: int,
    row: int,
    count: int,
)
    requires
        0 <= li < cs.lookups.len(),
        cs.lookups[li].inputs.len() == 1,
        cs.lookups[li].tables.len() == 1,
        0 <= count <= a.n,
        count <= modulus(),
        forall|rr: int|
            0 <= rr < count ==> (#[trigger] a.table_val(
                cs.lookups[li].tables[0].index as int,
                rr,
            )) == Some(fp_of(rr)),
        forall|rr: int|
            count <= rr < a.n ==> (#[trigger] a.table_val(
                cs.lookups[li].tables[0].index as int,
                rr,
            )) is None,
        0 <= eval(cs.lookups[li].inputs[0], a, row) < modulus(),
        a.sel(cs.lookups[li].selector.index as int, row),
    ensures
        lookup_violated(cs, a, li, row) <==> !(eval(cs.lookups[li].inputs[0], a, row) < count),
{
    let v = eval(cs.lookups[li].inputs[0], a, row);
    let ti = cs.lookups[li].tables[0].index as int;
    if v < count {
        lemma_fp_of(v);
        vstd::arithmetic::div_mod::lemma_small_mod(v as nat, MODULUS as nat);
        assert(opt_val(a.table_val(ti, v)) == v);
        assert(lookup_row_matches(cs, a, li, row, v)) by {
            assert forall|j: int| 0 <= j < cs.lookups[li].inputs.len() implies {
                let t = (#[trigger] cs.lookups[li].tables[j]).index as int;
                &&& a.table_val(t, v) is Some
                &&& opt_val(a.table_val(t, v)) == eval(cs.lookups[li].inputs[j], a, row)
            } by {
                assert(j == 0);
            }
        }
        assert(!lookup_violated(cs, a, li, row));
    } else {
        assert forall|trow: int| 0 <= trow < a.n implies !lookup_row_matches(
            cs,
            a,
            li,
            row,
            trow,
        ) by {
            if trow < count {
                lemma_fp_of(trow);
                vstd::arithmetic::div_mod::lemma_small_mod(trow as nat, MODULUS as nat);
                assert(opt_val(a.table_val(ti, trow)) == trow);
                assert(trow != v);
                assert(!lookup_row_matches(cs, a, li, row, trow)) by {
                    if lookup_row_matches(cs, a, li, row, trow) {
                        assert(opt_val(a.table_val(cs.lookups[li].tables[0].index as int, trow))
                            == eval(cs.lookups[li].inputs[0], a, row));
                    }
                }
            } else {
                if lookup_row_matches(cs, a, li, row, trow) {
                    assert(a.table_val(cs.lookups[li].tables[0].index as int, trow) is Some);
                }
            }
        }
        assert(lookup_violated(cs, a, li, row));
    }
}

/// Exec construction of the range-check polynomial.
pub fn build_range_poly(col: Column, range: usize) -> (e: Expr)
    requires
        1 <= range <= crate::field::MODULUS,
    ensures
        e == range_poly(col, range as nat),
{
    let mut e = Expr::query(col, 0);
    let mut i: usize = 1;
    while i < range
        invariant
            1 <= i <= range,
            range <= crate::field::MODULUS,
            e == range_poly(col, i as nat),
        decreases range - i,
    {
        e = e.mul(Expr::constant(crate::field::Fp::new(i as u64)).sub(Expr::query(col, 0)));
        proof {
            vstd::arithmetic::div_mod::lemma_small_mod(i as nat, crate::field::MODULUS as nat);
        }
        i = i + 1;
    }
    e
}

} // verus!
