//! The column space: typed, indexed columns and the cells they contain.
//!
//! Advice columns hold the witness, fixed columns hold constants, instance
//! columns hold public inputs. Lookup-table columns are a type of their own,
//! since they can appear only on the table side of a lookup argument.

use vstd::prelude::*;
use crate::field::Fp;

verus! {

/// The role of a column in the grid.
#[derive(Clone, Copy, PartialEq, Eq, Structural, Debug)]
pub enum ColumnKind {
    /// Witness values, supplied per circuit instance.
    Advice,
    /// Constant values, identical across all instances of a circuit shape.
    Fixed,
    /// Public-input values.
    Instance,
}

/// A column, identified by its role and its index among columns of that role.
#[derive(Clone, Copy, PartialEq, Eq, Structural, Debug)]
pub struct Column {
    pub kind: ColumnKind,
    pub index: usize,
}

/// A column holding one coordinate of a precomputed lookup table.
#[derive(Clone, Copy, PartialEq, Eq, Structural, Debug)]
pub struct TableColumn {
    pub index: usize,
}

/// A per-row boolean gate-enable flag.
///
/// Only the `complex` variant may guard a lookup argument.
#[derive(Clone, Copy, PartialEq, Eq, Structural, Debug)]
pub struct Selector {
    pub index: usize,
    pub complex: bool,
}

/// One grid position.
#[derive(Clone, Copy, PartialEq, Eq, Structural, Debug)]
pub struct Cell {
    pub column: Column,
    pub row: usize,
}

/// A cell together with the witness value assigned into it.
#[derive(Clone, Copy, PartialEq, Eq, Structural, Debug)]
pub struct AssignedCell {
    pub cell: Cell,
    pub value: Fp,
}

impl AssignedCell {
    /// The grid position this assignment landed on.
    pub fn cell(&self) -> (c: Cell)
        ensures
            c == self.cell,
    {
        self.cell
    }

    /// The value that was assigned.
    pub fn value(&self) -> (v: Fp)
        ensures
            v == self.value,
    {
        self.value
    }
}

} // verus!
