//! The algebraic expression tree a gate or lookup is written in.
//!
//! An expression is built once at configure time over column queries (with a
//! row-relative rotation), constants, and field operations, and is evaluated
//! many times at check time against a concrete row of the grid.

use vstd::prelude::*;
use crate::column::{Column, ColumnKind};
use crate::field::Fp;

verus! {

/// A deferred computation over field elements, parameterized by the row it is
/// evaluated at.
#[derive(Debug)]
pub enum Expr {
    /// A constant field element.
    Constant(Fp),
    /// The value of a column at the evaluation row shifted by a rotation.
    Query(Column, i32),
    /// The sum of two expressions.
    Sum(Box<Expr>, Box<Expr>),
    /// The product of two expressions.
    Product(Box<Expr>, Box<Expr>),
    /// The negation of an expression.
    Negated(Box<Expr>),
    /// An expression multiplied by a constant.
    Scaled(Box<Expr>, Fp),
}

impl Expr {
    /// A constant expression.
    pub fn constant(c: Fp) -> (e: Expr)
        ensures
            e == Expr::Constant(c),
    {
        Expr::Constant(c)
    }

    /// A query of `column` at the evaluation row plus `rotation`.
    pub fn query(column: Column, rotation: i32) -> (e: Expr)
        ensures
            e == Expr::Query(column, rotation),
    {
        Expr::Query(column, rotation)
    }

    pub fn add(self, other: Expr) -> (e: Expr)
        ensures
            e == Expr::Sum(Box::new(self), Box::new(other)),
    {
        Expr::Sum(Box::new(self), Box::new(other))
    }

    pub fn sub(self, other: Expr) -> (e: Expr)
        ensures
            e == Expr::Sum(Box::new(self), Box::new(Expr::Negated(Box::new(other)))),
    {
        Expr::Sum(Box::new(self), Box::new(Expr::Negated(Box::new(other))))
    }

    pub fn mul(self, other: Expr) -> (e: Expr)
        ensures
            e == Expr::Product(Box::new(self), Box::new(other)),
    {
        Expr::Product(Box::new(self), Box::new(other))
    }

    pub fn neg(self) -> (e: Expr)
        ensures
            e == Expr::Negated(Box::new(self)),
    {
        Expr::Negated(Box::new(self))
    }

    pub fn scale(self, factor: Fp) -> (e: Expr)
        ensures
            e == Expr::Scaled(Box::new(self), factor),
    {
        Expr::Scaled(Box::new(self), factor)
    }

    /// A structurally identical copy of the tree.
    pub fn duplicate(&self) -> (e: Expr)
        ensures
            e == *self,
        decreases *self,
    {
        match self {
            Expr::Constant(c) => Expr::Constant(*c),
            Expr::Query(c, rot) => Expr::Query(*c, *rot),
            Expr::Sum(a, b) => Expr::Sum(Box::new(a.duplicate()), Box::new(b.duplicate())),
            Expr::Product(a, b) => Expr::Product(Box::new(a.duplicate()), Box::new(b.duplicate())),
            Expr::Negated(a) => Expr::Negated(Box::new(a.duplicate())),
            Expr::Scaled(a, f) => Expr::Scaled(Box::new(a.duplicate()), *f),
        }
    }

    /// Every query, shifted by its rotation from `row`, lands inside the row
    /// domain `0 .. n`.
    pub open spec fn rows_in_domain(self, n: int, row: int) -> bool
        decreases self,
    {
        match self {
            Expr::Constant(_) => true,
            Expr::Query(_, rot) => 0 <= row + rot && row + rot < n,
            Expr::Sum(a, b) => a.rows_in_domain(n, row) && b.rows_in_domain(n, row),
            Expr::Product(a, b) => a.rows_in_domain(n, row) && b.rows_in_domain(n, row),
            Expr::Negated(a) => a.rows_in_domain(n, row),
            Expr::Scaled(a, _) => a.rows_in_domain(n, row),
        }
    }

    /// Every query names a column that was declared: its index is below the
    /// count of columns of its kind.
    pub open spec fn cols_in_domain(self, num_advice: int, num_fixed: int, num_instance: int) -> bool
        decreases self,
    {
        match self {
            Expr::Constant(_) => true,
            Expr::Query(c, _) => match c.kind {
                ColumnKind::Advice => c.index < num_advice,
                ColumnKind::Fixed => c.index < num_fixed,
                ColumnKind::Instance => c.index < num_instance,
            },
            Expr::Sum(a, b) => a.cols_in_domain(num_advice, num_fixed, num_instance)
                && b.cols_in_domain(num_advice, num_fixed, num_instance),
            Expr::Product(a, b) => a.cols_in_domain(num_advice, num_fixed, num_instance)
                && b.cols_in_domain(num_advice, num_fixed, num_instance),
            Expr::Negated(a) => a.cols_in_domain(num_advice, num_fixed, num_instance),
            Expr::Scaled(a, _) => a.cols_in_domain(num_advice, num_fixed, num_instance),
        }
    }

    /// Whether the cell `(c, r)` is read when the expression is evaluated at
    /// `row`.
    pub open spec fn queries(self, c: Column, r: int, row: int) -> bool
        decreases self,
    {
        match self {
            Expr::Constant(_) => false,
            Expr::Query(qc, rot) => qc == c && row + rot == r,
            Expr::Sum(a, b) => a.queries(c, r, row) || b.queries(c, r, row),
            Expr::Product(a, b) => a.queries(c, r, row) || b.queries(c, r, row),
            Expr::Negated(a) => a.queries(c, r, row),
            Expr::Scaled(a, _) => a.queries(c, r, row),
        }
    }
}

} // verus!
