//! The combined range check: small ranges use the polynomial gate, large
//! ranges use a lookup argument against a table holding
//! `0 ... 2^NUM_BITS - 1`, giving constant degree however large the range.

use vstd::prelude::*;
use crate::circuit::Layouter;
use crate::column::{AssignedCell, Cell, Column, ColumnKind, Selector, TableColumn};
use crate::error::Error;
use crate::expression::Expr;
use crate::field::{Fp, MODULUS};
use crate::plonk::ConstraintSystem;
use crate::range_check::{build_range_poly, range_poly};

pub mod table;

use table::RangeCheckTable;

verus! {

/// How many bits a value may have before the check switches from the
/// polynomial gate to the lookup argument.
pub const RANGE_CHECK_BITS: usize = 3;

/// The columns, selectors and table the combined check works with.
#[derive(Clone, Copy, PartialEq, Eq, Structural, Debug)]
pub struct RangeCheckConfig {
    pub value: Column,
    pub q_range_check: Selector,
    pub q_lookup: Selector,
    pub table: RangeCheckTable,
    pub num_bits: usize,
}

impl RangeCheckConfig {
    /// Everything is declared in `cs` and the lookup selector is complex.
    pub open spec fn wf(self, cs: ConstraintSystem) -> bool {
        &&& self.value.kind == ColumnKind::Advice && self.value.index < cs.num_advice
        &&& self.q_range_check.index < cs.num_selectors
        &&& self.q_lookup.index < cs.num_selectors
        &&& self.q_lookup.complex
        &&& self.q_range_check.index != self.q_lookup.index
        &&& self.table.wf(cs)
    }

    /// Declares both selectors, the table, the polynomial gate over the full
    /// range `2^NUM_BITS`, and the lookup argument of the value against the
    /// table.
    pub fn configure(cs: &mut ConstraintSystem, value: Column, num_bits: usize) -> (config:
        RangeCheckConfig)
        requires
            old(cs).wf(),
            old(cs).num_selectors + 2 <= usize::MAX,
            old(cs).num_tables < usize::MAX,
            value.kind == ColumnKind::Advice,
            value.index < old(cs).num_advice,
            num_bits < 16,
        ensures
            final(cs).wf(),
            config.wf(*final(cs)),
            config.value == value,
            config.num_bits == num_bits,
            config.q_range_check == (Selector { index: old(cs).num_selectors, complex: false }),
            config.q_lookup == (Selector {
                index: (old(cs).num_selectors + 1) as usize,
                complex: true,
            }),
            config.table.value == (TableColumn { index: old(cs).num_tables }),
            final(cs).num_advice == old(cs).num_advice,
            final(cs).num_fixed == old(cs).num_fixed,
            final(cs).num_instance == old(cs).num_instance,
            final(cs).num_tables == old(cs).num_tables + 1,
            final(cs).num_selectors == old(cs).num_selectors + 2,
            final(cs).advice_eq == old(cs).advice_eq,
            final(cs).instance_eq == old(cs).instance_eq,
            final(cs).gates@.len() == old(cs).gates@.len() + 1,
            forall|g: int|
                0 <= g < old(cs).gates@.len() ==> final(cs).gates@[g] == old(cs).gates@[g],
            final(cs).gates@.last().name == "range check",
            final(cs).gates@.last().selector == config.q_range_check,
            final(cs).gates@.last().polys@.len() == 1,
            final(cs).gates@.last().polys@[0].0 == "range check",
            final(cs).gates@.last().polys@[0].1 == range_poly(value, (1usize << num_bits) as nat),
            final(cs).lookups@.len() == old(cs).lookups@.len() + 1,
            forall|g: int|
                0 <= g < old(cs).lookups@.len() ==> final(cs).lookups@[g] == old(cs).lookups@[g],
            final(cs).lookups@.last().name == "range check lookup",
            final(cs).lookups@.last().selector == config.q_lookup,
            final(cs).lookups@.last().inputs@.len() == 1,
            final(cs).lookups@.last().inputs@[0] == Expr::Query(value, 0),
            final(cs).lookups@.last().tables@.len() == 1,
            final(cs).lookups@.last().tables@[0] == config.table.value,
    {
        proof {
            assert(1usize << num_bits >= 1 && 1usize << num_bits <= 0x8000) by (bit_vector)
                requires
                    num_bits < 16,
            ;
        }
        let q_range_check = cs.selector();
        let q_lookup = cs.complex_selector();
        let table = RangeCheckTable::configure(cs);
        let range: usize = 1usize << num_bits;
        let poly = build_range_poly(value, range);
        let mut polys: Vec<(&'static str, Expr)> = Vec::new();
        polys.push(("range check", poly));
        cs.create_gate("range check", q_range_check, polys);
        let mut inputs: Vec<Expr> = Vec::new();
        inputs.push(Expr::query(value, 0));
        let mut tables: Vec<TableColumn> = Vec::new();
        tables.push(table.value);
        cs.lookup("range check lookup", q_lookup, inputs, tables);
        RangeCheckConfig { value, q_range_check, q_lookup, table, num_bits }
    }

    /// Witnesses the checked value in one region, under the polynomial
    /// selector when it fits in `RANGE_CHECK_BITS` bits and under the lookup
    /// selector otherwise.
    pub fn assign(&self, l: &mut Layouter, cs: &ConstraintSystem, value: Fp, num_bits: usize) -> (r:
        Result<AssignedCell, Error>)
        requires
            old(l).wf(),
            !old(l).in_region,
            old(l).asn.wf(*cs),
            self.wf(*cs),
            num_bits <= self.num_bits,
        ensures
            final(l).wf(),
            final(l).asn.wf(*cs),
            !final(l).in_region,
            final(l).asn.n == old(l).asn.n,
            final(l).asn.instance == old(l).asn.instance,
            match r {
                Ok(cell) => {
                    let base = old(l).offset as int;
                    &&& old(l).offset < old(l).asn.n
                    &&& final(l).offset == old(l).offset + 1
                    &&& cell == (AssignedCell {
                        cell: Cell { column: self.value, row: old(l).offset },
                        value,
                    })
                    &&& final(l).asn.val(self.value, base) == value@
                    &&& (num_bits <= RANGE_CHECK_BITS ==> final(l).asn.sel(
                        self.q_range_check.index as int,
                        base,
                    ) && final(l).asn.sel(self.q_lookup.index as int, base) == old(l).asn.sel(
                        self.q_lookup.index as int,
                        base,
                    ))
                    &&& (num_bits > RANGE_CHECK_BITS ==> final(l).asn.sel(
                        self.q_lookup.index as int,
                        base,
                    ) && final(l).asn.sel(self.q_range_check.index as int, base) == old(
                        l,
                    ).asn.sel(self.q_range_check.index as int, base))
                    &&& final(l).asn.copies == old(l).asn.copies
                    &&& final(l).asn.tables == old(l).asn.tables
                    &&& final(l).asn.fixed == old(l).asn.fixed
                    &&& forall|j: int|
                        0 <= j < final(l).asn.advice.len() && j != self.value.index ==> (
                        #[trigger] final(l).asn.advice[j]) == old(l).asn.advice[j]
                    &&& forall|rr: int|
                        0 <= rr < final(l).asn.n && rr != base ==> (
                        #[trigger] final(l).asn.advice[self.value.index as int][rr])
                            == old(l).asn.advice[self.value.index as int][rr]
                    &&& forall|j: int|
                        0 <= j < final(l).asn.selectors.len() && j != self.q_range_check.index && j
                            != self.q_lookup.index ==> (#[trigger] final(l).asn.selectors[j])
                            == old(l).asn.selectors[j]
                    &&& forall|rr: int|
                        0 <= rr < final(l).asn.n && rr != base ==> (
                        #[trigger] final(l).asn.selectors[self.q_range_check.index as int][rr])
                            == old(l).asn.selectors[self.q_range_check.index as int][rr]
                            && final(l).asn.selectors[self.q_lookup.index as int][rr]
                            == old(l).asn.selectors[self.q_lookup.index as int][rr]
                },
                Err(e) => {
                    &&& *final(l) == *old(l)
                    &&& e == Error::NotEnoughRows
                    &&& old(l).offset >= old(l).asn.n
                },
            },
    {
        if l.offset >= l.asn.n {
            return Err(Error::NotEnoughRows);
        }
        l.start_region();
        if num_bits <= RANGE_CHECK_BITS {
            match l.enable_selector(self.q_range_check, 0) {
                Ok(()) => {},
                Err(_) => {
                    proof {
                        assert(false);
                    }
                    return Err(Error::Synthesis);
                },
            };
        } else {
            match l.enable_selector(self.q_lookup, 0) {
                Ok(()) => {},
                Err(_) => {
                    proof {
                        assert(false);
                    }
                    return Err(Error::Synthesis);
                },
            };
        }
        let cell = match l.assign_advice(self.value, 0, value) {
            Ok(c) => c,
            Err(_) => {
                proof {
                    assert(false);
                }
                return Err(Error::Synthesis);
            },
        };
        l.end_region();
        Ok(cell)
    }
}

/// The circuit itself: the table loaded, then one witnessed value checked
/// with the full `NUM_BITS = 8` range through the lookup.
pub struct MyCircuit {
    pub v: Fp,
}

impl MyCircuit {
    /// Declares the value column and the combined check for `NUM_BITS = 8`.
    pub fn configure(cs: &mut ConstraintSystem) -> (config: RangeCheckConfig)
        requires
            old(cs).wf(),
            old(cs).num_advice < usize::MAX,
            old(cs).num_selectors + 2 <= usize::MAX,
            old(cs).num_tables < usize::MAX,
        ensures
            final(cs).wf(),
            config.wf(*final(cs)),
            config.num_bits == 8,
            config.value == (Column { kind: ColumnKind::Advice, index: old(cs).num_advice }),
            config.q_range_check == (Selector { index: old(cs).num_selectors, complex: false }),
            config.q_lookup == (Selector {
                index: (old(cs).num_selectors + 1) as usize,
                complex: true,
            }),
            config.table.value == (TableColumn { index: old(cs).num_tables }),
            final(cs).num_advice == old(cs).num_advice + 1,
            final(cs).num_fixed == old(cs).num_fixed,
            final(cs).num_instance == old(cs).num_instance,
            final(cs).num_tables == old(cs).num_tables + 1,
            final(cs).num_selectors == old(cs).num_selectors + 2,
            final(cs).advice_eq@ == old(cs).advice_eq@.push(false),
            final(cs).instance_eq == old(cs).instance_eq,
            final(cs).gates@.len() == old(cs).gates@.len() + 1,
            forall|g: int|
                0 <= g < old(cs).gates@.len() ==> final(cs).gates@[g] == old(cs).gates@[g],
            final(cs).gates@.last().name == "range check",
            final(cs).gates@.last().selector == config.q_range_check,
            final(cs).gates@.last().polys@.len() == 1,
            final(cs).gates@.last().polys@[0].0 == "range check",
            final(cs).gates@.last().polys@[0].1 == range_poly(config.value, (1usize << 8) as nat),
            final(cs).lookups@.len() == old(cs).lookups@.len() + 1,
            forall|g: int|
                0 <= g < old(cs).lookups@.len() ==> final(cs).lookups@[g] == old(cs).lookups@[g],
            final(cs).lookups@.last().name == "range check lookup",
            final(cs).lookups@.last().selector == config.q_lookup,
            final(cs).lookups@.last().inputs@.len() == 1,
            final(cs).lookups@.last().inputs@[0] == Expr::Query(config.value, 0),
            final(cs).lookups@.last().tables@.len() == 1,
            final(cs).lookups@.last().tables@[0] == config.table.value,
    {
        let v = cs.advice_column();
        RangeCheckConfig::configure(cs, v, 8)
    }

    /// Loads the table and witnesses this circuit's value under the lookup.
    /// Succeeds exactly when the table's 256 rows fit the domain; otherwise
    /// the configuration error comes back untouched.
    pub fn synthesize(&self, config: RangeCheckConfig, l: &mut Layouter, cs: &ConstraintSystem) -> (r:
        Result<(), Error>)
        requires
            old(l).wf(),
            !old(l).in_region,
            old(l).offset == 0,
            old(l).asn.wf(*cs),
            config.wf(*cs),
            config.num_bits == 8,
            forall|rr: int|
                0 <= rr < old(l).asn.n ==> (#[trigger] old(l).asn.table_val(
                    config.table.value.index as int,
                    rr,
                )) is None,
        ensures
            final(l).wf(),
            final(l).asn.wf(*cs),
            !final(l).in_region,
            (r is Ok <==> old(l).asn.n >= 256),
            r is Err ==> *final(l) == *old(l) && r->Err_0 == Error::NotEnoughRows,
            r is Ok ==> final(l).offset == 1 && final(l).asn.val(config.value, 0) == self.v@
                && final(l).asn.sel(config.q_lookup.index as int, 0) && (forall|rr: int|
                0 <= rr < 256 ==> (#[trigger] final(l).asn.table_val(
                    config.table.value.index as int,
                    rr,
                )) == Some(crate::field::fp_of(rr))) && (forall|rr: int|
                256 <= rr < final(l).asn.n ==> (#[trigger] final(l).asn.table_val(
                    config.table.value.index as int,
                    rr,
                )) is None),
    {
        if l.asn.n < 256 {
            return Err(Error::NotEnoughRows);
        }
        match config.table.assign(l, 8) {
            Ok(()) => {},
            Err(_) => {
                proof {
                    assert(1usize << 8 == 256usize) by (bit_vector);
                    assert(false);
                }
                return Err(Error::Synthesis);
            },
        };
        proof {
            assert(1usize << 8 == 256usize) by (bit_vector);
        }
        let ghost ltab = *l;
        match config.assign(l, cs, self.v, 8) {
            Ok(_) => {},
            Err(_) => {
                proof {
                    assert(false);
                }
                return Err(Error::Synthesis);
            },
        };
        proof {
            assert(l.asn.tables == ltab.asn.tables);
            assert forall|rr: int| 0 <= rr < 256 implies (#[trigger] l.asn.table_val(
                config.table.value.index as int,
                rr,
            )) == Some(crate::field::fp_of(rr)) by {
                assert(ltab.asn.table_val(config.table.value.index as int, rr) == Some(
                    crate::field::fp_of(rr),
                ));
            }
            assert forall|rr: int| 256 <= rr < l.asn.n implies (#[trigger] l.asn.table_val(
                config.table.value.index as int,
                rr,
            )) is None by {
                assert(ltab.asn.table_val(config.table.value.index as int, rr) is None);
            }
        }
        Ok(())
    }
}

} // verus!
