//! Configuration errors: fatal faults detected while building or replaying a
//! circuit. A witness that merely fails its constraints is not an error; the
//! checker reports that as a list of violations instead.

use vstd::prelude::*;

verus! {

/// A fault in the construction or replay of a circuit.
#[derive(Clone, Copy, PartialEq, Eq, Structural, Debug)]
pub enum Error {
    /// A region, table or instance row falls beyond the `2^k` row domain.
    NotEnoughRows,
    /// A cell was assigned twice with two different values.
    AlreadyAssigned,
    /// A copy constraint names a column not marked equality-enabled.
    EqualityNotEnabled,
    /// An expression queries a column that was never declared.
    ColumnOutOfBounds,
    /// A rotation resolves outside the allocated row domain.
    RotationOutOfBounds,
    /// An instance row index lies beyond the supplied public-input vector.
    InstanceOutOfBounds,
    /// A witness value could not be computed during synthesis.
    Synthesis,
}

impl Error {
    /// A short description of the fault.
    pub fn describe(&self) -> (s: &'static str) {
        match self {
            Error::NotEnoughRows => "the circuit needs more rows than 2^k provides",
            Error::AlreadyAssigned => "a cell was re-assigned with a different value",
            Error::EqualityNotEnabled => "a copy constraint uses a column without equality enabled",
            Error::ColumnOutOfBounds => "an expression queries an undeclared column",
            Error::RotationOutOfBounds => "a rotation resolves outside the row domain",
            Error::InstanceOutOfBounds => "an instance row lies beyond the public-input vector",
            Error::Synthesis => "a witness value could not be computed",
        }
    }
}

} // verus!
