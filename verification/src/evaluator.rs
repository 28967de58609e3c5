//! The constraint evaluator: whether a trace satisfies a constraint set,
//! and where it first fails to.
//!
//! Rows are scanned from the top. On a row the constraints that apply to it
//! are tried in the order of their identifiers: the first-row constraints on
//! row 0, the last-row constraints on the last row, the transition constraints
//! on every row but row 0, each with the row before as its current row.

use crate::air::{all_wf, expr_value, first_nonzero, lemma_wf_allows_two_rows, ConstraintSet};
use crate::error::Error;
use crate::field::check_canonical;
use crate::matrix::{
    is_trace, matrix_entries, matrix_values, matrix_width, matrix_width_of, trace_rows,
};
use p3_matrix::dense::RowMajorMatrix;
use vstd::prelude::*;

verus! {

/// Whether the constraint `id` of `cs` applies to row `row` of a trace of `rows` rows.
pub open spec fn applies_at(cs: ConstraintSet, rows: nat, row: int, id: int) -> bool {
    let nf = cs.first_row@.len() as int;
    let nl = cs.last_row@.len() as int;
    let nt = cs.transition@.len() as int;
    if 0 <= id < nf {
        row == 0
    } else if nf <= id < nf + nl {
        row == rows - 1
    } else if nf + nl <= id < nf + nl + nt {
        1 <= row < rows
    } else {
        false
    }
}

/// The value of the constraint `id` of `cs` at row `row`: a boundary
/// constraint reads that row, a transition constraint reads the row before as
/// its current row and that row as its next.
pub open spec fn value_at(cs: ConstraintSet, cells: Seq<u32>, width: nat, row: int, id: int) -> int {
    let nf = cs.first_row@.len() as int;
    let nl = cs.last_row@.len() as int;
    if id < nf {
        expr_value(cs.first_row@[id], cells, width, row, row)
    } else if id < nf + nl {
        expr_value(cs.last_row@[id - nf], cells, width, row, row)
    } else {
        expr_value(cs.transition@[id - nf - nl], cells, width, row - 1, row)
    }
}

/// Whether the constraint `id` applies to row `row` and is not zero there.
pub open spec fn violated(cs: ConstraintSet, cells: Seq<u32>, width: nat, row: int, id: int) -> bool {
    &&& 0 <= row < trace_rows(cells, width)
    &&& applies_at(cs, trace_rows(cells, width), row, id)
    &&& value_at(cs, cells, width, row, id) != 0
}

/// The scan order: rows from the top, and on a row the constraints by identifier.
pub open spec fn comes_before(row1: int, id1: int, row2: int, id2: int) -> bool {
    row1 < row2 || (row1 == row2 && id1 < id2)
}

/// Whether the trace satisfies every constraint of `cs`.
pub open spec fn satisfies(cs: ConstraintSet, cells: Seq<u32>, width: nat) -> bool {
    forall|row: int, id: int| !violated(cs, cells, width, row, id)
}

/// Whether the constraint `id` at row `row` is the first violation in scan order.
pub open spec fn is_first_violation(
    cs: ConstraintSet,
    cells: Seq<u32>,
    width: nat,
    row: int,
    id: int,
) -> bool {
    &&& violated(cs, cells, width, row, id)
    &&& forall|row2: int, id2: int|
        comes_before(row2, id2, row, id) ==> !violated(cs, cells, width, row2, id2)
}

/// Whether the evaluator can run: the trace is well shaped, the constraint
/// set is well formed, and both have the same width.
pub open spec fn evaluable(cs: ConstraintSet, cells: Seq<u32>, width: nat) -> bool {
    &&& is_trace(cells, width)
    &&& cs.wf()
    &&& cs.width == width
}

/// What the evaluator reports for a trace and a constraint set.
pub open spec fn evaluation_result(
    cs: ConstraintSet,
    cells: Seq<u32>,
    width: nat,
    res: Result<(), Error>,
) -> bool {
    match res {
        Ok(()) => evaluable(cs, cells, width) && satisfies(cs, cells, width),
        Err(Error::InvalidInput) => !evaluable(cs, cells, width),
        Err(Error::ConstraintViolation { row, constraint_id }) => {
            &&& evaluable(cs, cells, width)
            &&& is_first_violation(cs, cells, width, row as int, constraint_id as int)
        },
        Err(_) => false,
    }
}

/// Evaluates the constraints of `cs` on the rows `cells` of `width` entries each.
///
/// Returns `Ok` where every constraint holds, the first violation in scan
/// order where one does not, and `InvalidInput` where the trace is badly
/// shaped, the constraint set is not well formed or the widths differ.
pub fn evaluate_cells(cells: &[u32], width: usize, cs: &ConstraintSet) -> (res: Result<(), Error>)
    ensures
        evaluation_result(*cs, cells@, width as nat, res),
{
    let len = cells.len();
    if width == 0 || len == 0 || len % width != 0 || cs.width != width {
        return Err(Error::InvalidInput);
    }
    if !check_canonical(cells) || !cs.is_well_formed() {
        return Err(Error::InvalidInput);
    }
    let rows = len / width;
    let nf = cs.first_row.len();
    let nl = cs.last_row.len();
    proof {
        assert(rows >= 1 && rows * width == len) by (nonlinear_arith)
            requires
                rows == len / width,
                len % width == 0,
                len > 0,
                width > 0,
        ;
        assert forall|i: int| 0 <= i < cs.first_row@.len() implies crate::air::expr_wf(
            #[trigger] cs.first_row@[i],
            width as nat,
            true,
        ) by {
            lemma_wf_allows_two_rows(cs.first_row@[i], width as nat);
        }
        assert forall|i: int| 0 <= i < cs.last_row@.len() implies crate::air::expr_wf(
            #[trigger] cs.last_row@[i],
            width as nat,
            true,
        ) by {
            lemma_wf_allows_two_rows(cs.last_row@[i], width as nat);
        }
    }
    let mut row: usize = 0;
    while row < rows
        invariant
            row <= rows,
            rows >= 1,
            rows * width == len,
            len == cells@.len(),
            rows == trace_rows(cells@, width as nat),
            nf == cs.first_row@.len(),
            nl == cs.last_row@.len(),
            evaluable(*cs, cells@, width as nat),
            all_wf(cs.first_row@, width as nat, true),
            all_wf(cs.last_row@, width as nat, true),
            forall|row2: int, id2: int|
                row2 < row ==> !violated(*cs, cells@, width as nat, row2, id2),
        decreases rows - row,
    {
        assert((row + 1) * width <= rows * width) by (nonlinear_arith)
            requires
                row < rows,
        ;
        if row == 0 {
            match first_nonzero(&cs.first_row, cells, width, row, row) {
                Some(j) => {
                    return Err(Error::ConstraintViolation { row, constraint_id: j });
                },
                None => {},
            }
        }
        if row == rows - 1 {
            match first_nonzero(&cs.last_row, cells, width, row, row) {
                Some(j) => {
                    return Err(Error::ConstraintViolation { row, constraint_id: nf + j });
                },
                None => {},
            }
        }
        if row >= 1 {
            assert(row * width <= rows * width) by (nonlinear_arith)
                requires
                    row < rows,
            ;
            match first_nonzero(&cs.transition, cells, width, row - 1, row) {
                Some(j) => {
                    return Err(Error::ConstraintViolation { row, constraint_id: nf + nl + j });
                },
                None => {},
            }
        }
        row += 1;
    }
    Ok(())
}

/// Evaluates the constraints of `cs` on a trace matrix.
///
/// Returns `Ok` where every constraint holds, the first violation in scan
/// order where one does not, and `InvalidInput` where the matrix is no trace,
/// the constraint set is not well formed or the widths differ.
pub fn evaluate(trace: &RowMajorMatrix<u32>, cs: &ConstraintSet) -> (res: Result<(), Error>)
    ensures
        evaluation_result(*cs, matrix_values(*trace), matrix_width(*trace), res),
{
    evaluate_cells(matrix_entries(trace), matrix_width_of(trace), cs)
}

/// On a trace that satisfies every constraint the evaluator reports success.
pub proof fn lemma_satisfied_is_accepted(
    cs: ConstraintSet,
    cells: Seq<u32>,
    width: nat,
    res: Result<(), Error>,
)
    requires
        evaluable(cs, cells, width),
        satisfies(cs, cells, width),
        evaluation_result(cs, cells, width, res),
    ensures
        res == Ok::<(), Error>(()),
{
    match res {
        Ok(u) => {
            assert(u == ());
        },
        Err(Error::ConstraintViolation { row, constraint_id }) => {
            assert(violated(cs, cells, width, row as int, constraint_id as int));
        },
        Err(_) => {},
    }
}

/// Where a constraint is violated at some row, the evaluator reports a
/// violation at that row or above it.
pub proof fn lemma_violation_is_reported(
    cs: ConstraintSet,
    cells: Seq<u32>,
    width: nat,
    row: int,
    id: int,
    res: Result<(), Error>,
)
    requires
        evaluable(cs, cells, width),
        violated(cs, cells, width, row, id),
        evaluation_result(cs, cells, width, res),
    ensures
        res matches Err(Error::ConstraintViolation { row: reported, .. }) && reported <= row,
{
    match res {
        Err(Error::ConstraintViolation { row: r, constraint_id: i }) => {
            assert(!comes_before(row, id, r as int, i as int));
        },
        _ => {},
    }
}

/// Two reports of the evaluator on the same trace and constraint set are equal.
pub proof fn lemma_evaluation_is_deterministic(
    cs: ConstraintSet,
    cells: Seq<u32>,
    width: nat,
    res1: Result<(), Error>,
    res2: Result<(), Error>,
)
    requires
        evaluation_result(cs, cells, width, res1),
        evaluation_result(cs, cells, width, res2),
    ensures
        res1 == res2,
{
    match (res1, res2) {
        (
            Err(Error::ConstraintViolation { row: r1, constraint_id: i1 }),
            Err(Error::ConstraintViolation { row: r2, constraint_id: i2 }),
        ) => {
            // Neither violation comes before the other.
            assert(!comes_before(r1 as int, i1 as int, r2 as int, i2 as int));
            assert(!comes_before(r2 as int, i2 as int, r1 as int, i1 as int));
        },
        (Ok(()), Err(Error::ConstraintViolation { row, constraint_id })) => {
            assert(violated(cs, cells, width, row as int, constraint_id as int));
        },
        (Err(Error::ConstraintViolation { row, constraint_id }), Ok(())) => {
            assert(violated(cs, cells, width, row as int, constraint_id as int));
        },
        (Ok(a), Ok(b)) => {
            assert(a == b);
        },
        (Err(Error::InvalidInput), Err(Error::InvalidInput)) => {},
        _ => {
            // The remaining pairs disagree on whether the evaluator can run.
            assert(false);
        },
    }
}

} // verus!
