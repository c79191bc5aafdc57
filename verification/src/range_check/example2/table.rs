//! A lookup table holding exactly the values `0 ... 2^num_bits - 1`, one per
//! row, in its own table column.

use vstd::prelude::*;
use crate::circuit::Layouter;
use crate::column::TableColumn;
use crate::error::Error;
use crate::field::{fp_of, Fp, MODULUS};
use crate::plonk::ConstraintSystem;

verus! {

/// The table column the range values are loaded into.
#[derive(Clone, Copy, PartialEq, Eq, Structural, Debug)]
pub struct RangeCheckTable {
    pub value: TableColumn,
}

impl RangeCheckTable {
    /// The column is declared in `cs`.
    pub open spec fn wf(self, cs: ConstraintSystem) -> bool {
        self.value.index < cs.num_tables
    }

    /// Allocates the table column.
    pub fn configure(cs: &mut ConstraintSystem) -> (t: RangeCheckTable)
        requires
            old(cs).wf(),
            old(cs).num_tables < usize::MAX,
        ensures
            final(cs).wf(),
            t.wf(*final(cs)),
            t.value == (TableColumn { index: old(cs).num_tables }),
            *final(cs) == (ConstraintSystem {
                num_tables: (old(cs).num_tables + 1) as usize,
                ..*old(cs)
            }),
    {
        let value = cs.lookup_table_column();
        RangeCheckTable { value }
    }

    /// Loads the values `0 ... 2^num_bits - 1` into rows `0 ...
    /// 2^num_bits - 1` of the column, which must still be unassigned.
    pub fn assign(&self, l: &mut Layouter, num_bits: usize) -> (r: Result<(), Error>)
        requires
            old(l).wf(),
            num_bits < 16,
            self.value.index < old(l).asn.tables.len(),
            forall|rr: int|
                0 <= rr < old(l).asn.n ==> (#[trigger] old(l).asn.table_val(
                    self.value.index as int,
                    rr,
                )) is None,
        ensures
            final(l).wf(),
            final(l).in_region == old(l).in_region,
            final(l).offset == old(l).offset,
            final(l).region_base == old(l).region_base,
            final(l).region_used == old(l).region_used,
            final(l).asn.n == old(l).asn.n,
            final(l).asn.instance == old(l).asn.instance,
            final(l).asn.advice == old(l).asn.advice,
            final(l).asn.fixed == old(l).asn.fixed,
            final(l).asn.selectors == old(l).asn.selectors,
            final(l).asn.copies == old(l).asn.copies,
            match r {
                Ok(()) => {
                    let ti = self.value.index as int;
                    &&& (1usize << num_bits) <= old(l).asn.n
                    &&& final(l).asn.tables.len() == old(l).asn.tables.len()
                    &&& forall|j: int|
                        0 <= j < old(l).asn.tables.len() && j != ti ==> final(l).asn.tables[j]
                            == old(l).asn.tables[j]
                    &&& forall|rr: int|
                        0 <= rr < (1usize << num_bits) ==> (#[trigger] final(l).asn.table_val(
                            ti,
                            rr,
                        )) == Some(fp_of(rr))
                    &&& forall|rr: int|
                        (1usize << num_bits) <= rr < final(l).asn.n ==> (
                        #[trigger] final(l).asn.table_val(ti, rr)) is None
                },
                Err(e) => {
                    &&& *final(l) == *old(l)
                    &&& e == Error::NotEnoughRows
                    &&& (1usize << num_bits) > old(l).asn.n
                },
            },
    {
        let count: usize = 1usize << num_bits;
        proof {
            assert(1usize << num_bits >= 1 && 1usize << num_bits <= 0x8000) by (bit_vector)
                requires
                    num_bits < 16,
            ;
        }
        if count > l.asn.n {
            return Err(Error::NotEnoughRows);
        }
        let mut values: Vec<Fp> = Vec::new();
        let mut i: usize = 0;
        while i < count
            invariant
                i <= count,
                count <= 0x8000,
                values.len() == i,
                forall|j: int| 0 <= j < i ==> (#[trigger] values[j]) == fp_of(j),
            decreases count - i,
        {
            let f = Fp::new(i as u64);
            proof {
                vstd::arithmetic::div_mod::lemma_small_mod(i as nat, MODULUS as nat);
            }
            values.push(f);
            i = i + 1;
        }
        match l.assign_table(self.value, &values) {
            Ok(()) => {
                proof {
                    assert forall|rr: int| 0 <= rr < count implies (#[trigger] l.asn.table_val(
                        self.value.index as int,
                        rr,
                    )) == Some(fp_of(rr)) by {
                        assert(l.asn.table_val(self.value.index as int, rr) == Some(
                            values[rr],
                        ));
                    }
                }
                Ok(())
            },
            Err(_) => {
                proof {
                    assert(false);
                }
                Err(Error::Synthesis)
            },
        }
    }
}

} // verus!
