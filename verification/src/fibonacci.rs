//! Addition-recurrence circuits: four layouts of the same idea, a witness
//! column (or columns) carrying a Fibonacci-style sequence whose steps are
//! constrained by a selector-gated addition gate and whose seeds and result
//! are bound to public inputs.

use vstd::prelude::*;
use crate::field::fadd;

pub mod example1;
pub mod example2;
pub mod example3;
pub mod example4;

verus! {

/// The addition recurrence seeded with `x` and `y`: element `i` of the
/// sequence `x, y, x + y, ...` over the field.
pub open spec fn fib_spec(x: int, y: int, i: nat) -> int
    decreases i,
{
    if i == 0 {
        x
    } else if i == 1 {
        y
    } else {
        fadd(fib_spec(x, y, (i - 2) as nat), fib_spec(x, y, (i - 1) as nat))
    }
}

} // verus!
