//! Region-based sequential witness assignment.
//!
//! An [`Assignment`] is the concrete grid one synthesis run fills in: witness
//! values per advice column, constants per fixed column, the supplied public
//! inputs, lookup tables, selector activity, and the copy constraints that
//! were declared along the way.
//!
//! A [`Layouter`] allocates fresh, non-overlapping row windows (regions) for
//! the logical steps of a circuit. Rows inside a region are numbered from
//! zero and translated by the region's base row; the base offset only ever
//! grows, so no region reuses rows of an earlier one.

use vstd::prelude::*;
use crate::column::{AssignedCell, Cell, Column, ColumnKind, Selector, TableColumn};
use crate::error::Error;
use crate::field::Fp;
use crate::plonk::ConstraintSystem;

verus! {

/// The value of an optionally assigned cell: unassigned cells read as zero.
pub open spec fn opt_val(o: Option<Fp>) -> int {
    match o {
        Some(f) => f@,
        None => 0,
    }
}

/// The fully resolved grid of one synthesis run.
pub struct Assignment {
    /// Number of rows, `2^k`.
    pub n: usize,
    /// Witness cells, indexed `[column][row]`.
    pub advice: Vec<Vec<Option<Fp>>>,
    /// Constant cells, indexed `[column][row]`.
    pub fixed: Vec<Vec<Option<Fp>>>,
    /// Public inputs, indexed `[column][row]`; columns may be shorter than `n`.
    pub instance: Vec<Vec<Fp>>,
    /// Lookup-table cells, indexed `[column][row]`.
    pub tables: Vec<Vec<Option<Fp>>>,
    /// Selector activity, indexed `[selector][row]`.
    pub selectors: Vec<Vec<bool>>,
    /// Declared copy constraints: each pair of cells must hold equal values.
    pub copies: Vec<(Cell, Cell)>,
}

impl Assignment {
    /// Internal consistency: every column has the declared number of rows.
    pub open spec fn shape_ok(self) -> bool {
        &&& 1 <= self.n
        &&& forall|i: int| 0 <= i < self.advice.len() ==> (#[trigger] self.advice[i]).len() == self.n
        &&& forall|i: int| 0 <= i < self.fixed.len() ==> (#[trigger] self.fixed[i]).len() == self.n
        &&& forall|i: int|
            0 <= i < self.instance.len() ==> (#[trigger] self.instance[i]).len() <= self.n
        &&& forall|i: int| 0 <= i < self.tables.len() ==> (#[trigger] self.tables[i]).len() == self.n
        &&& forall|i: int|
            0 <= i < self.selectors.len() ==> (#[trigger] self.selectors[i]).len() == self.n
    }

    /// The grid matches the shape the constraint system declared.
    pub open spec fn wf(self, cs: ConstraintSystem) -> bool {
        &&& self.shape_ok()
        &&& self.advice.len() == cs.num_advice
        &&& self.fixed.len() == cs.num_fixed
        &&& self.instance.len() == cs.num_instance
        &&& self.tables.len() == cs.num_tables
        &&& self.selectors.len() == cs.num_selectors
    }

    /// The resolved value of a column at a row: assigned witness or constant
    /// cells give their value, unassigned ones give zero, instance cells give
    /// the supplied public input (zero beyond its length).
    pub open spec fn val(self, c: Column, r: int) -> int {
        match c.kind {
            ColumnKind::Advice => opt_val(self.advice[c.index as int][r]),
            ColumnKind::Fixed => opt_val(self.fixed[c.index as int][r]),
            ColumnKind::Instance => if 0 <= r < self.instance[c.index as int].len() {
                self.instance[c.index as int][r]@
            } else {
                0
            },
        }
    }

    /// The resolved value of a cell.
    pub open spec fn cell_val(self, cell: Cell) -> int {
        self.val(cell.column, cell.row as int)
    }

    /// Whether an advice or fixed cell has been assigned.
    pub open spec fn assigned(self, c: Column, r: int) -> bool {
        match c.kind {
            ColumnKind::Advice => self.advice[c.index as int][r] is Some,
            ColumnKind::Fixed => self.fixed[c.index as int][r] is Some,
            ColumnKind::Instance => true,
        }
    }

    /// Selector activity at a row.
    pub open spec fn sel(self, s: int, r: int) -> bool {
        self.selectors[s][r]
    }

    /// The cell lies inside the grid (for instance cells: inside the
    /// supplied public-input vector).
    pub open spec fn cell_wf(self, c: Cell) -> bool {
        match c.column.kind {
            ColumnKind::Advice => c.column.index < self.advice.len() && c.row < self.n,
            ColumnKind::Fixed => c.column.index < self.fixed.len() && c.row < self.n,
            ColumnKind::Instance => c.column.index < self.instance.len() && c.row
                < self.instance[c.column.index as int].len(),
        }
    }

    /// Every declared copy constraint names two cells inside the grid.
    pub open spec fn copies_wf(self) -> bool {
        forall|ci: int|
            0 <= ci < self.copies.len() ==> self.cell_wf((#[trigger] self.copies[ci]).0)
                && self.cell_wf(self.copies[ci].1)
    }

    /// The content of a lookup-table cell; `None` while unassigned.
    pub open spec fn table_val(self, t: int, r: int) -> Option<Fp> {
        self.tables[t][r]
    }

    /// Exec read of a resolved cell value.
    pub fn value_of(&self, c: Column, row: usize) -> (v: Fp)
        requires
            self.shape_ok(),
            row < self.n,
            c.kind == ColumnKind::Advice ==> c.index < self.advice.len(),
            c.kind == ColumnKind::Fixed ==> c.index < self.fixed.len(),
            c.kind == ColumnKind::Instance ==> c.index < self.instance.len(),
        ensures
            v@ == self.val(c, row as int),
    {
        match c.kind {
            ColumnKind::Advice => {
                match self.advice[c.index][row] {
                    Some(f) => f,
                    None => Fp::zero(),
                }
            },
            ColumnKind::Fixed => {
                match self.fixed[c.index][row] {
                    Some(f) => f,
                    None => Fp::zero(),
                }
            },
            ColumnKind::Instance => {
                if row < self.instance[c.index].len() {
                    self.instance[c.index][row]
                } else {
                    Fp::zero()
                }
            },
        }
    }
}

/// Fields of the grid other than the advice columns are the same.
pub open spec fn same_but_advice(pre: Assignment, post: Assignment) -> bool {
    &&& post.n == pre.n
    &&& post.fixed == pre.fixed
    &&& post.instance == pre.instance
    &&& post.tables == pre.tables
    &&& post.selectors == pre.selectors
}

/// The grid `post` is `pre` with one advice cell set (copies untouched).
pub open spec fn advice_set(pre: Assignment, post: Assignment, ci: int, r: int, v: Fp) -> bool {
    &&& same_but_advice(pre, post)
    &&& post.copies == pre.copies
    &&& post.advice.len() == pre.advice.len()
    &&& forall|j: int|
        0 <= j < post.advice.len() && j != ci ==> (#[trigger] post.advice[j]) == pre.advice[j]
    &&& post.advice[ci]@ == pre.advice[ci]@.update(r, Some(v))
}

/// The sequential allocator that places regions onto absolute rows.
pub struct Layouter {
    /// The grid being filled in.
    pub asn: Assignment,
    /// First row available to the next region.
    pub offset: usize,
    /// Whether a region is currently open.
    pub in_region: bool,
    /// Base row of the open region.
    pub region_base: usize,
    /// Rows of the open region used so far.
    pub region_used: usize,
}

impl Layouter {
    /// First row that no region has touched yet.
    pub open spec fn frontier(self) -> int {
        if self.in_region {
            self.region_base + self.region_used
        } else {
            self.offset as int
        }
    }

    /// The allocator's invariant: shapes are consistent, the offset only
    /// moves forward, and every advice or fixed cell at or beyond the
    /// frontier is still unassigned.
    pub open spec fn wf(self) -> bool {
        &&& self.asn.shape_ok()
        &&& self.asn.copies_wf()
        &&& self.offset <= self.asn.n
        &&& self.in_region ==> {
            &&& self.region_base == self.offset
            &&& self.region_base + self.region_used <= self.asn.n
        }
        &&& forall|i: int, r: int|
            0 <= i < self.asn.advice.len() && self.frontier() <= r < self.asn.n ==> (
            #[trigger] self.asn.advice[i][r]) is None
        &&& forall|i: int, r: int|
            0 <= i < self.asn.fixed.len() && self.frontier() <= r < self.asn.n ==> (
            #[trigger] self.asn.fixed[i][r]) is None
    }

    /// A fresh layouter over an all-unassigned grid of `2^k` rows, holding
    /// the supplied public inputs.
    ///
    /// Fails with `NotEnoughRows` when a public-input column is longer than
    /// the row domain.
    pub fn new(k: usize, cs: &ConstraintSystem, instance: Vec<Vec<Fp>>) -> (r: Result<
        Layouter,
        Error,
    >)
        requires
            cs.wf(),
            1 <= k < 32,
            instance.len() == cs.num_instance,
        ensures
            match r {
                Ok(l) => {
                    &&& l.wf()
                    &&& l.asn.wf(*cs)
                    &&& l.asn.n == (1usize << k)
                    &&& l.offset == 0
                    &&& !l.in_region
                    &&& l.asn.instance == instance
                    &&& l.asn.copies@.len() == 0
                    &&& forall|i: int, rr: int|
                        0 <= i < cs.num_advice && 0 <= rr < l.asn.n ==> l.asn.advice[i][rr]
                            is None
                    &&& forall|i: int, rr: int|
                        0 <= i < cs.num_fixed && 0 <= rr < l.asn.n ==> l.asn.fixed[i][rr] is None
                    &&& forall|i: int, rr: int|
                        0 <= i < cs.num_tables && 0 <= rr < l.asn.n ==> l.asn.tables[i][rr]
                            is None
                    &&& forall|i: int, rr: int|
                        0 <= i < cs.num_selectors && 0 <= rr < l.asn.n ==> !l.asn.sel(i, rr)
                },
                Err(e) => {
                    &&& e == Error::NotEnoughRows
                    &&& exists|i: int|
                        0 <= i < instance.len() && (#[trigger] instance[i]).len() > (1usize << k)
                },
            },
    {
        let n: usize = 1usize << k;
        assert(n >= 1) by (bit_vector)
            requires
                n == 1usize << k && 1 <= k < 32,
        ;
        let mut i: usize = 0;
        while i < instance.len()
            invariant
                0 <= i <= instance.len(),
                n == 1usize << k,
                forall|j: int| 0 <= j < i ==> (#[trigger] instance[j]).len() <= n,
            decreases instance.len() - i,
        {
            if instance[i].len() > n {
                proof {
                    assert((#[trigger] instance[i as int]).len() > (1usize << k));
                }
                return Err(Error::NotEnoughRows);
            }
            i = i + 1;
        }
        let advice = empty_grid(cs.num_advice, n);
        let fixed = empty_grid(cs.num_fixed, n);
        let tables = empty_grid(cs.num_tables, n);
        let mut selectors: Vec<Vec<bool>> = Vec::new();
        let mut s: usize = 0;
        while s < cs.num_selectors
            invariant
                0 <= s <= cs.num_selectors,
                selectors.len() == s,
                forall|j: int| 0 <= j < s ==> (#[trigger] selectors[j]).len() == n,
                forall|j: int, rr: int|
                    0 <= j < s && 0 <= rr < n ==> !(#[trigger] selectors[j][rr]),
            decreases cs.num_selectors - s,
        {
            let col: Vec<bool> = vec![false; n];
            selectors.push(col);
            s = s + 1;
        }
        Ok(
            Layouter {
                asn: Assignment {
                    n,
                    advice,
                    fixed,
                    instance,
                    tables,
                    selectors,
                    copies: Vec::new(),
                },
                offset: 0,
                in_region: false,
                region_base: 0,
                region_used: 0,
            },
        )
    }

    /// Opens the next region at the current offset.
    pub fn start_region(&mut self)
        requires
            old(self).wf(),
            !old(self).in_region,
        ensures
            final(self).wf(),
            final(self).asn == old(self).asn,
            final(self).offset == old(self).offset,
            final(self).in_region,
            final(self).region_base == old(self).offset,
            final(self).region_used == 0,
    {
        self.in_region = true;
        self.region_base = self.offset;
        self.region_used = 0;
    }

    /// Closes the open region, advancing the offset past every row it used.
    pub fn end_region(&mut self)
        requires
            old(self).wf(),
            old(self).in_region,
        ensures
            final(self).wf(),
            final(self).asn == old(self).asn,
            final(self).offset == old(self).region_base + old(self).region_used,
            !final(self).in_region,
    {
        self.offset = self.region_base + self.region_used;
        self.in_region = false;
    }

    /// Marks `s` active at the region-relative row `rel`.
    pub fn enable_selector(&mut self, s: Selector, rel: usize) -> (r: Result<(), Error>)
        requires
            old(self).wf(),
            old(self).in_region,
            s.index < old(self).asn.selectors.len(),
        ensures
            final(self).wf(),
            final(self).in_region,
            final(self).region_base == old(self).region_base,
            final(self).offset == old(self).offset,
            match r {
                Ok(()) => {
                    let abs = old(self).region_base + rel;
                    &&& abs < old(self).asn.n
                    &&& final(self).region_used == max2(old(self).region_used as int, rel + 1)
                    &&& same_but_selectors(old(self).asn, final(self).asn)
                    &&& final(self).asn.copies == old(self).asn.copies
                    &&& final(self).asn.selectors.len() == old(self).asn.selectors.len()
                    &&& forall|j: int|
                        0 <= j < old(self).asn.selectors.len() && j != s.index
                            ==> final(self).asn.selectors[j] == old(self).asn.selectors[j]
                    &&& final(self).asn.selectors[s.index as int]@ == old(
                        self,
                    ).asn.selectors[s.index as int]@.update(abs as int, true)
                },
                Err(e) => {
                    &&& e == Error::NotEnoughRows
                    &&& old(self).region_base + rel >= old(self).asn.n
                    &&& *final(self) == *old(self)
                },
            },
    {
        if rel >= self.asn.n - self.region_base {
            return Err(Error::NotEnoughRows);
        }
        let abs = self.region_base + rel;
        self.asn.selectors[s.index][abs] = true;
        if rel + 1 > self.region_used {
            self.region_used = rel + 1;
        }
        Ok(())
    }

    /// Creates one witness cell at the region-relative row `rel` of `col`.
    ///
    /// Re-assigning a cell with the value it already holds is accepted;
    /// re-assigning it with a different value is a configuration error.
    pub fn assign_advice(&mut self, col: Column, rel: usize, v: Fp) -> (r: Result<
        AssignedCell,
        Error,
    >)
        requires
            old(self).wf(),
            old(self).in_region,
            col.kind == ColumnKind::Advice,
            col.index < old(self).asn.advice.len(),
        ensures
            final(self).wf(),
            final(self).in_region,
            final(self).region_base == old(self).region_base,
            final(self).offset == old(self).offset,
            match r {
                Ok(cell) => {
                    let abs = old(self).region_base + rel;
                    &&& abs < old(self).asn.n
                    &&& cell == (AssignedCell {
                        cell: Cell { column: col, row: abs as usize },
                        value: v,
                    })
                    &&& final(self).region_used == max2(old(self).region_used as int, rel + 1)
                    &&& advice_set(old(self).asn, final(self).asn, col.index as int, abs as int, v)
                    &&& (old(self).asn.assigned(col, abs as int) ==> old(self).asn.val(
                        col,
                        abs as int,
                    ) == v@)
                },
                Err(e) => {
                    let abs = old(self).region_base + rel;
                    &&& *final(self) == *old(self)
                    &&& (e == Error::NotEnoughRows <==> abs >= old(self).asn.n)
                    &&& (e == Error::AlreadyAssigned <==> abs < old(self).asn.n && old(
                        self,
                    ).asn.assigned(col, abs as int) && old(self).asn.advice[col.index as int][abs as int]
                        != Some(v))
                    &&& (abs >= old(self).asn.n || (old(self).asn.assigned(col, abs as int) && old(
                        self,
                    ).asn.advice[col.index as int][abs as int] != Some(v)))
                },
            },
    {
        if rel >= self.asn.n - self.region_base {
            return Err(Error::NotEnoughRows);
        }
        let abs = self.region_base + rel;
        match self.asn.advice[col.index][abs] {
            Some(w) => {
                if !(w == v) {
                    return Err(Error::AlreadyAssigned);
                }
            },
            None => {},
        }
        self.asn.advice[col.index][abs] = Some(v);
        if rel + 1 > self.region_used {
            self.region_used = rel + 1;
        }
        proof {
            assert(final(self).asn.advice[col.index as int]@ =~= old(
                self,
            ).asn.advice[col.index as int]@.update(abs as int, Some(v)));
        }
        Ok(AssignedCell { cell: Cell { column: col, row: abs }, value: v })
    }

    /// Creates one constant cell at the region-relative row `rel` of `col`.
    pub fn assign_fixed(&mut self, col: Column, rel: usize, v: Fp) -> (r: Result<
        AssignedCell,
        Error,
    >)
        requires
            old(self).wf(),
            old(self).in_region,
            col.kind == ColumnKind::Fixed,
            col.index < old(self).asn.fixed.len(),
        ensures
            final(self).wf(),
            final(self).in_region,
            final(self).region_base == old(self).region_base,
            final(self).offset == old(self).offset,
            match r {
                Ok(cell) => {
                    let abs = old(self).region_base + rel;
                    &&& abs < old(self).asn.n
                    &&& cell == (AssignedCell {
                        cell: Cell { column: col, row: abs as usize },
                        value: v,
                    })
                    &&& final(self).region_used == max2(old(self).region_used as int, rel + 1)
                    &&& fixed_set(old(self).asn, final(self).asn, col.index as int, abs as int, v)
                },
                Err(e) => {
                    let abs = old(self).region_base + rel;
                    &&& *final(self) == *old(self)
                    &&& (e == Error::NotEnoughRows <==> abs >= old(self).asn.n)
                    &&& (e == Error::AlreadyAssigned <==> abs < old(self).asn.n && old(
                        self,
                    ).asn.assigned(col, abs as int) && old(self).asn.fixed[col.index as int][abs as int]
                        != Some(v))
                    &&& (abs >= old(self).asn.n || (old(self).asn.assigned(col, abs as int) && old(
                        self,
                    ).asn.fixed[col.index as int][abs as int] != Some(v)))
                },
            },
    {
        if rel >= self.asn.n - self.region_base {
            return Err(Error::NotEnoughRows);
        }
        let abs = self.region_base + rel;
        match self.asn.fixed[col.index][abs] {
            Some(w) => {
                if !(w == v) {
                    return Err(Error::AlreadyAssigned);
                }
            },
            None => {},
        }
        self.asn.fixed[col.index][abs] = Some(v);
        if rel + 1 > self.region_used {
            self.region_used = rel + 1;
        }
        proof {
            assert(final(self).asn.fixed[col.index as int]@ =~= old(
                self,
            ).asn.fixed[col.index as int]@.update(abs as int, Some(v)));
        }
        Ok(AssignedCell { cell: Cell { column: col, row: abs }, value: v })
    }

    /// Copies a public-input value into an advice cell and also registers a
    /// copy constraint between the two cells, so the checker later enforces
    /// the binding rather than just the copied value.
    pub fn assign_advice_from_instance(
        &mut self,
        cs: &ConstraintSystem,
        icol: Column,
        irow: usize,
        acol: Column,
        rel: usize,
    ) -> (r: Result<AssignedCell, Error>)
        requires
            old(self).wf(),
            old(self).in_region,
            old(self).asn.wf(*cs),
            icol.kind == ColumnKind::Instance,
            icol.index < cs.num_instance,
            acol.kind == ColumnKind::Advice,
            acol.index < cs.num_advice,
        ensures
            final(self).wf(),
            final(self).asn.wf(*cs),
            final(self).in_region,
            final(self).region_base == old(self).region_base,
            final(self).offset == old(self).offset,
            match r {
                Ok(cell) => {
                    let abs = old(self).region_base + rel;
                    let v = old(self).asn.instance[icol.index as int][irow as int];
                    &&& cs.eq_enabled(icol) && cs.eq_enabled(acol)
                    &&& irow < old(self).asn.instance[icol.index as int].len()
                    &&& abs < old(self).asn.n
                    &&& cell == (AssignedCell {
                        cell: Cell { column: acol, row: abs as usize },
                        value: v,
                    })
                    &&& final(self).region_used == max2(old(self).region_used as int, rel + 1)
                    &&& advice_set_copied(
                        old(self).asn,
                        final(self).asn,
                        acol.index as int,
                        abs as int,
                        v,
                        (Cell { column: icol, row: irow }, cell.cell),
                    )
                },
                Err(e) => {
                    let abs = old(self).region_base + rel;
                    let c_eq = !(cs.eq_enabled(icol) && cs.eq_enabled(acol));
                    let c_irow = irow >= old(self).asn.instance[icol.index as int].len();
                    let c_rows = abs >= old(self).asn.n;
                    let c_dup = !c_rows && old(self).asn.assigned(acol, abs as int) && old(
                        self,
                    ).asn.advice[acol.index as int][abs as int] != Some(
                        old(self).asn.instance[icol.index as int][irow as int],
                    );
                    &&& *final(self) == *old(self)
                    &&& (e == Error::EqualityNotEnabled <==> c_eq)
                    &&& (e == Error::InstanceOutOfBounds <==> !c_eq && c_irow)
                    &&& (e == Error::NotEnoughRows <==> !c_eq && !c_irow && c_rows)
                    &&& (e == Error::AlreadyAssigned <==> !c_eq && !c_irow && !c_rows && c_dup)
                    &&& (c_eq || c_irow || c_rows || c_dup)
                },
            },
    {
        let eq_i = match icol.kind {
            ColumnKind::Instance => self.instance_eq_enabled(cs, icol),
            _ => false,
        };
        if !(eq_i && self.col_eq_enabled(cs, acol)) {
            return Err(Error::EqualityNotEnabled);
        }
        if irow >= self.asn.instance[icol.index].len() {
            return Err(Error::InstanceOutOfBounds);
        }
        if rel >= self.asn.n - self.region_base {
            return Err(Error::NotEnoughRows);
        }
        let abs = self.region_base + rel;
        let v = self.asn.instance[icol.index][irow];
        match self.asn.advice[acol.index][abs] {
            Some(w) => {
                if !(w == v) {
                    return Err(Error::AlreadyAssigned);
                }
            },
            None => {},
        }
        self.asn.advice[acol.index][abs] = Some(v);
        if rel + 1 > self.region_used {
            self.region_used = rel + 1;
        }
        let cell = AssignedCell { cell: Cell { column: acol, row: abs }, value: v };
        self.asn.copies.push((Cell { column: icol, row: irow }, cell.cell));
        proof {
            assert(final(self).asn.advice[acol.index as int]@ =~= old(
                self,
            ).asn.advice[acol.index as int]@.update(abs as int, Some(v)));
        }
        Ok(cell)
    }

    /// Cross-references an already-assigned cell into a new column and row:
    /// the same value is assigned there, with an implicit copy constraint
    /// back to the source cell.
    pub fn copy_advice(
        &mut self,
        cs: &ConstraintSystem,
        from: &AssignedCell,
        col: Column,
        rel: usize,
    ) -> (r: Result<AssignedCell, Error>)
        requires
            old(self).wf(),
            old(self).in_region,
            old(self).asn.wf(*cs),
            old(self).asn.cell_wf(from.cell),
            col.kind == ColumnKind::Advice,
            col.index < cs.num_advice,
        ensures
            final(self).wf(),
            final(self).asn.wf(*cs),
            final(self).in_region,
            final(self).region_base == old(self).region_base,
            final(self).offset == old(self).offset,
            match r {
                Ok(cell) => {
                    let abs = old(self).region_base + rel;
                    &&& cs.eq_enabled(from.cell.column) && cs.eq_enabled(col)
                    &&& abs < old(self).asn.n
                    &&& cell == (AssignedCell {
                        cell: Cell { column: col, row: abs as usize },
                        value: from.value,
                    })
                    &&& final(self).region_used == max2(old(self).region_used as int, rel + 1)
                    &&& advice_set_copied(
                        old(self).asn,
                        final(self).asn,
                        col.index as int,
                        abs as int,
                        from.value,
                        (from.cell, cell.cell),
                    )
                },
                Err(e) => {
                    let abs = old(self).region_base + rel;
                    let c_eq = !(cs.eq_enabled(from.cell.column) && cs.eq_enabled(col));
                    let c_rows = abs >= old(self).asn.n;
                    let c_dup = !c_rows && old(self).asn.assigned(col, abs as int) && old(
                        self,
                    ).asn.advice[col.index as int][abs as int] != Some(from.value);
                    &&& *final(self) == *old(self)
                    &&& (e == Error::EqualityNotEnabled <==> c_eq)
                    &&& (e == Error::NotEnoughRows <==> !c_eq && c_rows)
                    &&& (e == Error::AlreadyAssigned <==> !c_eq && !c_rows && c_dup)
                    &&& (c_eq || c_rows || c_dup)
                },
            },
    {
        if !(self.col_eq_enabled(cs, from.cell.column) && self.col_eq_enabled(cs, col)) {
            return Err(Error::EqualityNotEnabled);
        }
        if rel >= self.asn.n - self.region_base {
            return Err(Error::NotEnoughRows);
        }
        let abs = self.region_base + rel;
        let v = from.value;
        match self.asn.advice[col.index][abs] {
            Some(w) => {
                if !(w == v) {
                    return Err(Error::AlreadyAssigned);
                }
            },
            None => {},
        }
        self.asn.advice[col.index][abs] = Some(v);
        if rel + 1 > self.region_used {
            self.region_used = rel + 1;
        }
        let cell = AssignedCell { cell: Cell { column: col, row: abs }, value: v };
        self.asn.copies.push((from.cell, cell.cell));
        proof {
            assert(final(self).asn.advice[col.index as int]@ =~= old(
                self,
            ).asn.advice[col.index as int]@.update(abs as int, Some(v)));
        }
        Ok(cell)
    }

    /// Binds an already-assigned cell to a public-input row by registering a
    /// copy constraint between the two.
    pub fn constrain_instance(
        &mut self,
        cs: &ConstraintSystem,
        cell: Cell,
        icol: Column,
        irow: usize,
    ) -> (r: Result<(), Error>)
        requires
            old(self).wf(),
            old(self).asn.wf(*cs),
            old(self).asn.cell_wf(cell),
            icol.kind == ColumnKind::Instance,
            icol.index < cs.num_instance,
        ensures
            final(self).wf(),
            final(self).asn.wf(*cs),
            final(self).in_region == old(self).in_region,
            final(self).region_base == old(self).region_base,
            final(self).region_used == old(self).region_used,
            final(self).offset == old(self).offset,
            match r {
                Ok(()) => {
                    &&& cs.eq_enabled(cell.column) && cs.eq_enabled(icol)
                    &&& irow < old(self).asn.instance[icol.index as int].len()
                    &&& copies_pushed(
                        old(self).asn,
                        final(self).asn,
                        (cell, Cell { column: icol, row: irow }),
                    )
                },
                Err(e) => {
                    let c_eq = !(cs.eq_enabled(cell.column) && cs.eq_enabled(icol));
                    let c_irow = irow >= old(self).asn.instance[icol.index as int].len();
                    &&& *final(self) == *old(self)
                    &&& (e == Error::EqualityNotEnabled <==> c_eq)
                    &&& (e == Error::InstanceOutOfBounds <==> !c_eq && c_irow)
                    &&& (c_eq || c_irow)
                },
            },
    {
        let eq_i = self.instance_eq_enabled(cs, icol);
        if !(self.col_eq_enabled(cs, cell.column) && eq_i) {
            return Err(Error::EqualityNotEnabled);
        }
        if irow >= self.asn.instance[icol.index].len() {
            return Err(Error::InstanceOutOfBounds);
        }
        self.asn.copies.push((cell, Cell { column: icol, row: irow }));
        Ok(())
    }

    /// Populates a lookup-table column with `values` on rows `0 ..
    /// values.len()`, all at once.
    pub fn assign_table(&mut self, tcol: TableColumn, values: &Vec<Fp>) -> (r: Result<(), Error>)
        requires
            old(self).wf(),
            tcol.index < old(self).asn.tables.len(),
        ensures
            final(self).wf(),
            final(self).in_region == old(self).in_region,
            final(self).region_base == old(self).region_base,
            final(self).region_used == old(self).region_used,
            final(self).offset == old(self).offset,
            match r {
                Ok(()) => {
                    let ti = tcol.index as int;
                    &&& values.len() <= old(self).asn.n
                    &&& same_but_tables(old(self).asn, final(self).asn)
                    &&& final(self).asn.copies == old(self).asn.copies
                    &&& final(self).asn.tables.len() == old(self).asn.tables.len()
                    &&& forall|j: int|
                        0 <= j < old(self).asn.tables.len() && j != ti ==> final(self).asn.tables[j]
                            == old(self).asn.tables[j]
                    &&& forall|rr: int|
                        0 <= rr < values.len() ==> final(self).asn.table_val(ti, rr) == Some(
                            values[rr],
                        )
                    &&& forall|rr: int|
                        values.len() <= rr < old(self).asn.n ==> final(self).asn.table_val(ti, rr)
                            == old(self).asn.table_val(ti, rr)
                },
                Err(e) => {
                    let ti = tcol.index as int;
                    let c_rows = values.len() > old(self).asn.n;
                    let c_dup = exists|rr: int|
                        0 <= rr < values.len() && (#[trigger] old(self).asn.table_val(ti, rr))
                            is Some && old(self).asn.table_val(ti, rr) != Some(values[rr]);
                    &&& *final(self) == *old(self)
                    &&& (e == Error::NotEnoughRows <==> c_rows)
                    &&& (e == Error::AlreadyAssigned <==> !c_rows && c_dup)
                    &&& (c_rows || c_dup)
                },
            },
    {
        let ghost pre = *self;
        let ti = tcol.index;
        if values.len() > self.asn.n {
            return Err(Error::NotEnoughRows);
        }
        let mut i: usize = 0;
        while i < values.len()
            invariant
                *self == pre,
                pre == *old(self),
                pre.wf(),
                ti == tcol.index,
                ti < self.asn.tables.len(),
                self.asn.shape_ok(),
                values.len() <= self.asn.n,
                i <= values.len(),
                forall|rr: int|
                    0 <= rr < i ==> !((#[trigger] self.asn.table_val(ti as int, rr)) is Some
                        && self.asn.table_val(ti as int, rr) != Some(values[rr])),
            decreases values.len() - i,
        {
            match self.asn.tables[ti][i] {
                Some(w) => {
                    if !(w == values[i]) {
                        proof {
                            assert((#[trigger] pre.asn.table_val(ti as int, i as int)) is Some
                                && pre.asn.table_val(ti as int, i as int) != Some(
                                values[i as int],
                            ));
                        }
                        return Err(Error::AlreadyAssigned);
                    }
                },
                None => {},
            }
            i = i + 1;
        }
        let mut w: usize = 0;
        while w < values.len()
            invariant
                ti == tcol.index,
                ti < self.asn.tables.len(),
                values.len() <= self.asn.n,
                w <= values.len(),
                self.wf(),
                self.asn.n == pre.asn.n,
                self.asn.advice == pre.asn.advice,
                self.asn.fixed == pre.asn.fixed,
                self.asn.instance == pre.asn.instance,
                self.asn.selectors == pre.asn.selectors,
                self.asn.copies == pre.asn.copies,
                self.offset == pre.offset,
                self.in_region == pre.in_region,
                self.region_base == pre.region_base,
                self.region_used == pre.region_used,
                self.asn.tables.len() == pre.asn.tables.len(),
                forall|j: int|
                    0 <= j < pre.asn.tables.len() && j != ti ==> self.asn.tables[j]
                        == pre.asn.tables[j],
                forall|rr: int|
                    0 <= rr < w ==> (#[trigger] self.asn.tables[ti as int][rr]) == Some(
                        values[rr],
                    ),
                forall|rr: int|
                    w <= rr < pre.asn.n ==> (#[trigger] self.asn.tables[ti as int][rr])
                        == pre.asn.tables[ti as int][rr],
            decreases values.len() - w,
        {
            let ghost col_pre = self.asn.tables[ti as int]@;
            self.asn.tables[ti][w] = Some(values[w]);
            proof {
                assert(self.asn.tables[ti as int]@ =~= col_pre.update(
                    w as int,
                    Some(values[w as int]),
                ));
            }
            w = w + 1;
        }
        Ok(())
    }

    /// Exec read of a column's equality flag.
    fn col_eq_enabled(&self, cs: &ConstraintSystem, c: Column) -> (r: bool)
        ensures
            r == cs.eq_enabled(c),
    {
        match c.kind {
            ColumnKind::Advice => c.index < cs.advice_eq.len() && cs.advice_eq[c.index],
            ColumnKind::Instance => c.index < cs.instance_eq.len() && cs.instance_eq[c.index],
            ColumnKind::Fixed => false,
        }
    }

    /// Exec read of an instance column's equality flag.
    fn instance_eq_enabled(&self, cs: &ConstraintSystem, c: Column) -> (r: bool)
        ensures
            r == (c.kind == ColumnKind::Instance && cs.eq_enabled(c)),
    {
        match c.kind {
            ColumnKind::Instance => c.index < cs.instance_eq.len() && cs.instance_eq[c.index],
            _ => false,
        }
    }
}

/// Fields of the grid other than the lookup tables are the same.
pub open spec fn same_but_tables(pre: Assignment, post: Assignment) -> bool {
    &&& post.n == pre.n
    &&& post.advice == pre.advice
    &&& post.fixed == pre.fixed
    &&& post.instance == pre.instance
    &&& post.selectors == pre.selectors
}

/// The grid `post` is `pre` with one advice cell set and one copy constraint
/// appended.
pub open spec fn advice_set_copied(
    pre: Assignment,
    post: Assignment,
    ci: int,
    r: int,
    v: Fp,
    pair: (Cell, Cell),
) -> bool {
    &&& same_but_advice(pre, post)
    &&& post.copies@ == pre.copies@.push(pair)
    &&& post.advice.len() == pre.advice.len()
    &&& forall|j: int|
        0 <= j < post.advice.len() && j != ci ==> (#[trigger] post.advice[j]) == pre.advice[j]
    &&& post.advice[ci]@ == pre.advice[ci]@.update(r, Some(v))
}

/// The grid `post` is `pre` with one more copy constraint and nothing else
/// changed.
pub open spec fn copies_pushed(pre: Assignment, post: Assignment, pair: (Cell, Cell)) -> bool {
    &&& same_but_advice(pre, post)
    &&& post.advice == pre.advice
    &&& post.copies@ == pre.copies@.push(pair)
}

/// `max` of two integers, used to track how many rows a region occupies.
pub open spec fn max2(a: int, b: int) -> int {
    if a >= b {
        a
    } else {
        b
    }
}

/// Fields of the grid other than the selectors are the same.
pub open spec fn same_but_selectors(pre: Assignment, post: Assignment) -> bool {
    &&& post.n == pre.n
    &&& post.advice == pre.advice
    &&& post.fixed == pre.fixed
    &&& post.instance == pre.instance
    &&& post.tables == pre.tables
}

/// The grid `post` is `pre` with one fixed cell set (copies untouched).
pub open spec fn fixed_set(pre: Assignment, post: Assignment, ci: int, r: int, v: Fp) -> bool {
    &&& post.n == pre.n
    &&& post.advice == pre.advice
    &&& post.instance == pre.instance
    &&& post.tables == pre.tables
    &&& post.selectors == pre.selectors
    &&& post.copies == pre.copies
    &&& post.fixed.len() == pre.fixed.len()
    &&& forall|j: int|
        0 <= j < post.fixed.len() && j != ci ==> (#[trigger] post.fixed[j]) == pre.fixed[j]
    &&& post.fixed[ci]@ == pre.fixed[ci]@.update(r, Some(v))
}

/// A column of `rows` unassigned cells, `count` times.
fn empty_grid(count: usize, rows: usize) -> (g: Vec<Vec<Option<Fp>>>)
    ensures
        g.len() == count,
        forall|i: int| 0 <= i < count ==> (#[trigger] g[i]).len() == rows,
        forall|i: int, rr: int| 0 <= i < count && 0 <= rr < rows ==> (#[trigger] g[i][rr]) is None,
{
    let mut g: Vec<Vec<Option<Fp>>> = Vec::new();
    let mut i: usize = 0;
    while i < count
        invariant
            0 <= i <= count,
            g.len() == i,
            forall|j: int| 0 <= j < i ==> (#[trigger] g[j]).len() == rows,
            forall|j: int, rr: int| 0 <= j < i && 0 <= rr < rows ==> (#[trigger] g[j][rr]) is None,
        decreases count - i,
    {
        let col: Vec<Option<Fp>> = vec![None; rows];
        g.push(col);
        i = i + 1;
    }
    g
}

} // verus!
