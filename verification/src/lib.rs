//! A PLONKish arithmetic-circuit engine.
//!
//! The crate lets a caller declare algebraic constraints over a grid of
//! cells (columns by rows), assign a concrete witness into that grid, and
//! replay the assignment against every declared constraint:
//!
//! * [`field`] — the finite field all cell values live in;
//! * [`expression`] — the algebraic expression tree queried against rows;
//! * [`plonk`] — columns, selectors, gates, lookups: the constraint system;
//! * [`circuit`] — region-based sequential witness assignment;
//! * [`dev`] — the satisfiability checker and its laws.
//!
//! The remaining modules are worked circuits built on the engine.

pub mod circuit;
pub mod column;
pub mod dev;
pub mod error;
pub mod expression;
pub mod fibonacci;
pub mod field;
pub mod is_zero;
pub mod plonk;
pub mod range_check;
pub mod zkmips;
