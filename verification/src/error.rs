//! The errors of the library. Every failure is returned as a value.

use vstd::prelude::*;

verus! {

/// Why an operation of the library failed.
#[derive(Debug, PartialEq, Eq)]
pub enum Error {
    /// The caller's input is malformed: lengths that do not match, a value
    /// that is no canonical representative, a zero modulus, a handle that the
    /// circuit does not know, a badly shaped trace or constraint set.
    InvalidInput,
    /// A constraint expression is not zero. `row` is the row at which the
    /// violation shows: the row itself for a boundary constraint, the later
    /// row of the pair for a transition constraint.
    ConstraintViolation { row: usize, constraint_id: usize },
    /// A modulus is the zero element.
    DivisionByZero,
    /// A value that a range constraint bounds lies outside its range.
    RangeViolation { constraint_id: usize },
    /// A target that is already bound was given a different value.
    DuplicateAssignment { target: usize },
    /// Targets of the circuit have no value; they are listed in increasing order.
    IncompleteWitness { unbound: Vec<usize> },
}

} // verus!
