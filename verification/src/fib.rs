//! The Fibonacci recurrence as a trace of two columns and its constraints.
//!
//! Row `i` holds the `i`-th and the `(i + 1)`-th Fibonacci number, reduced
//! modulo the field's modulus.

use crate::air::{all_wf, expr_value, expr_wf, ConstraintSet, Expr};
use crate::error::Error;
use crate::evaluator::{
    applies_at, value_at, evaluable, evaluation_result, lemma_satisfied_is_accepted,
    lemma_violation_is_reported, satisfies, violated,
};
use crate::field::{
    field_add, field_sub, is_canonical, lemma_difference_is_zero_iff_equal,
    lemma_field_results_are_canonical, m31_add, MODULUS,
};
use crate::matrix::{
    cell, is_power_of_two, is_trace, matrix_new, matrix_values, matrix_width, max_steps, padded_height,
    padded_rows, trace_rows,
};
use p3_matrix::dense::RowMajorMatrix;
use vstd::arithmetic::div_mod::{lemma_add_mod_noop, lemma_mod_bound};
use vstd::prelude::*;

verus! {

/// The `n`-th Fibonacci number.
pub open spec fn fib(n: nat) -> nat
    decreases n,
{
    if n == 0 {
        0
    } else if n == 1 {
        1
    } else {
        fib((n - 1) as nat) + fib((n - 2) as nat)
    }
}

/// The `n`-th Fibonacci number as a field element.
pub open spec fn fib_felt(n: nat) -> u32 {
    (fib(n) % (MODULUS as nat)) as u32
}

/// The entry of the Fibonacci trace at position `k`, counted row after row:
/// row `i` holds the `i`-th and the `(i + 1)`-th number.
pub open spec fn fibonacci_entry(k: int) -> u32 {
    fib_felt((k / 2 + k % 2) as nat)
}

/// The entries of the Fibonacci trace of `rows` rows.
pub open spec fn fibonacci_cells(rows: nat) -> Seq<u32> {
    Seq::new(2 * rows, |k: int| fibonacci_entry(k))
}

/// The first-row constraints: the trace starts with 0 and 1.
pub open spec fn fibonacci_first_row() -> Seq<Expr> {
    seq![Expr::Cur(0).minus(Expr::Const(0)), Expr::Cur(1).minus(Expr::Const(1))]
}

/// The last-row constraint: the second entry of the last row is `final_value`.
pub open spec fn fibonacci_last_row(final_value: u32) -> Seq<Expr> {
    seq![Expr::Cur(1).minus(Expr::Const(final_value))]
}

/// The transition constraints: the next row starts with the second entry of
/// this row and goes on with the sum of both.
pub open spec fn fibonacci_transition() -> Seq<Expr> {
    seq![
        Expr::Next(0).minus(Expr::Cur(1)),
        Expr::Next(1).minus(Expr::Cur(0).plus(Expr::Cur(1))),
    ]
}

/// Whether `cs` is the constraint set of the Fibonacci recurrence that ends in `final_value`.
pub open spec fn is_fibonacci_constraints(cs: ConstraintSet, final_value: u32) -> bool {
    &&& cs.width == 2
    &&& cs.first_row@ == fibonacci_first_row()
    &&& cs.last_row@ == fibonacci_last_row(final_value)
    &&& cs.transition@ == fibonacci_transition()
}

/// The Fibonacci recurrence over a number of steps, with the value that the
/// second column must hold in the last row.
#[derive(Debug, Clone, Copy, PartialEq, Eq)]
pub struct FibonacciAir {
    /// The number of steps of the recurrence.
    pub num_steps: usize,
    /// The second entry of the last row, as a canonical representative.
    pub final_value: u32,
}

impl FibonacciAir {
    /// The recurrence over `num_steps` steps with the final value that its
    /// own trace reaches.
    pub fn new(num_steps: usize) -> (air: FibonacciAir)
        requires
            num_steps <= max_steps(),
        ensures
            air.num_steps == num_steps,
            air.final_value == fib_felt(padded_rows(num_steps as nat)),
    {
        let rows = padded_height(num_steps);
        let mut a: u32 = 0;
        let mut b: u32 = 1;
        let mut i: usize = 1;
        while i < rows
            invariant
                1 <= i <= rows,
                a == fib_felt((i - 1) as nat),
                b == fib_felt(i as nat),
            decreases rows - i,
        {
            let c = m31_add(a, b);
            proof {
                lemma_fib_felt_step((i - 1) as nat);
            }
            a = b;
            b = c;
            i += 1;
        }
        FibonacciAir { num_steps, final_value: b }
    }

    /// The number of columns of the trace.
    pub fn width(&self) -> (w: usize)
        ensures
            w == 2,
    {
        2
    }

    /// The constraints of the recurrence.
    ///
    /// Fails with `InvalidInput` where `final_value` is no canonical representative.
    pub fn constraints(&self) -> (res: Result<ConstraintSet, Error>)
        ensures
            match res {
                Ok(cs) => is_canonical(self.final_value) && is_fibonacci_constraints(
                    cs,
                    self.final_value,
                ) && cs.wf(),
                Err(e) => !is_canonical(self.final_value) && e == Error::InvalidInput,
            },
    {
        if self.final_value >= MODULUS {
            return Err(Error::InvalidInput);
        }
        Ok(fibonacci_constraints(self.final_value))
    }
}

/// The constraint set of the recurrence that ends in `final_value`.
fn fibonacci_constraints(final_value: u32) -> (cs: ConstraintSet)
    requires
        is_canonical(final_value),
    ensures
        is_fibonacci_constraints(cs, final_value),
        cs.wf(),
{
    let mut first_row: Vec<Expr> = Vec::new();
    first_row.push(Expr::Cur(0).minus(Expr::Const(0)));
    first_row.push(Expr::Cur(1).minus(Expr::Const(1)));
    let mut last_row: Vec<Expr> = Vec::new();
    last_row.push(Expr::Cur(1).minus(Expr::Const(final_value)));
    let mut transition: Vec<Expr> = Vec::new();
    transition.push(Expr::Next(0).minus(Expr::Cur(1)));
    transition.push(Expr::Next(1).minus(Expr::Cur(0).plus(Expr::Cur(1))));
    let cs = ConstraintSet { width: 2, first_row, last_row, transition };
    proof {
        assert(cs.first_row@ =~= fibonacci_first_row());
        assert(cs.last_row@ =~= fibonacci_last_row(final_value));
        assert(cs.transition@ =~= fibonacci_transition());
        lemma_fibonacci_constraints_wf(cs, final_value);
    }
    cs
}

/// The constraint set of the recurrence is well formed.
pub proof fn lemma_fibonacci_constraints_wf(cs: ConstraintSet, final_value: u32)
    requires
        is_fibonacci_constraints(cs, final_value),
        is_canonical(final_value),
    ensures
        cs.wf(),
{
    reveal_with_fuel(expr_wf, 4);
    assert(all_wf(cs.first_row@, 2, false));
    assert(all_wf(cs.last_row@, 2, false));
    assert(all_wf(cs.transition@, 2, true));
}

/// The Fibonacci trace of any height is a trace of two columns.
pub proof fn lemma_fibonacci_cells_shape(rows: nat)
    requires
        rows >= 1,
    ensures
        is_trace(fibonacci_cells(rows), 2),
        trace_rows(fibonacci_cells(rows), 2) == rows,
        forall|r: int, c: int|
            0 <= r < rows && 0 <= c < 2 ==> #[trigger] cell(fibonacci_cells(rows), 2, r, c)
                == fib_felt((r + c) as nat),
{
    let cells = fibonacci_cells(rows);
    assert forall|r: int, c: int| 0 <= r < rows && 0 <= c < 2 implies #[trigger] cell(
        cells,
        2,
        r,
        c,
    ) == fib_felt((r + c) as nat) by {
        let k = r * 2 + c;
        assert(k / 2 + k % 2 == r + c);
    }
}

/// The values of the five constraints of the recurrence at a row, in terms
/// of the entries that they read.
pub proof fn lemma_fibonacci_constraint_values(
    cs: ConstraintSet,
    final_value: u32,
    cells: Seq<u32>,
    row: int,
)
    requires
        is_fibonacci_constraints(cs, final_value),
    ensures
        value_at(cs, cells, 2, row, 0) == field_sub(cell(cells, 2, row, 0) as int, 0),
        value_at(cs, cells, 2, row, 1) == field_sub(cell(cells, 2, row, 1) as int, 1),
        value_at(cs, cells, 2, row, 2) == field_sub(
            cell(cells, 2, row, 1) as int,
            final_value as int,
        ),
        value_at(cs, cells, 2, row, 3) == field_sub(
            cell(cells, 2, row, 0) as int,
            cell(cells, 2, row - 1, 1) as int,
        ),
        value_at(cs, cells, 2, row, 4) == field_sub(
            cell(cells, 2, row, 1) as int,
            field_add(cell(cells, 2, row - 1, 0) as int, cell(cells, 2, row - 1, 1) as int),
        ),
{
    reveal_with_fuel(expr_value, 3);
}

/// Each Fibonacci number is the sum of the two before it, in the field too.
pub proof fn lemma_fib_felt_step(n: nat)
    ensures
        field_add(fib_felt(n) as int, fib_felt(n + 1) as int) == fib_felt(n + 2),
        fib_felt(0) == 0,
        fib_felt(1) == 1,
{
    assert(fib(n + 2) == fib(n + 1) + fib(n));
    lemma_add_mod_noop(fib(n) as int, fib(n + 1) as int, MODULUS as int);
    lemma_mod_bound(fib(n) as int, MODULUS as int);
    lemma_mod_bound(fib(n + 1) as int, MODULUS as int);
    lemma_mod_bound(fib(n + 2) as int, MODULUS as int);
    assert(fib(0) == 0 && fib(1) == 1);
}

/// The Fibonacci trace of any height satisfies the constraint set of the
/// recurrence whose final value is the one that the trace reaches.
pub proof fn lemma_fibonacci_trace_satisfies(rows: nat, cs: ConstraintSet)
    requires
        rows >= 1,
        is_fibonacci_constraints(cs, fib_felt(rows)),
    ensures
        evaluable(cs, fibonacci_cells(rows), 2),
        satisfies(cs, fibonacci_cells(rows), 2),
{
    let cells = fibonacci_cells(rows);
    lemma_fibonacci_cells_shape(rows);
    lemma_fibonacci_constraints_wf(cs, fib_felt(rows));
    assert forall|row: int, id: int| !violated(cs, cells, 2, row, id) by {
        if 0 <= row < rows && applies_at(cs, rows, row, id) {
            lemma_fibonacci_constraint_values(cs, fib_felt(rows), cells, row);
            lemma_fib_felt_step(0);
            if id == 0 {
                assert(cell(cells, 2, row, 0) == fib_felt(0));
            } else if id == 1 {
                assert(cell(cells, 2, row, 1) == fib_felt(1));
            } else if id == 2 {
                assert(cell(cells, 2, row, 1) == fib_felt((row + 1) as nat));
            } else if id == 3 {
                assert(cell(cells, 2, row, 0) == fib_felt(row as nat));
                assert(cell(cells, 2, row - 1, 1) == fib_felt(row as nat));
            } else {
                assert(cell(cells, 2, row, 1) == fib_felt((row + 1) as nat));
                assert(cell(cells, 2, row - 1, 0) == fib_felt((row - 1) as nat));
                assert(cell(cells, 2, row - 1, 1) == fib_felt(row as nat));
                lemma_fib_felt_step((row - 1) as nat);
            }
            lemma_difference_is_zero_iff_equal(0, 0);
            lemma_difference_is_zero_iff_equal(1, 1);
            lemma_difference_is_zero_iff_equal(
                fib_felt((row + 1) as nat) as int,
                fib_felt((row + 1) as nat) as int,
            );
            lemma_difference_is_zero_iff_equal(
                fib_felt(row as nat) as int,
                fib_felt(row as nat) as int,
            );
            assert(value_at(cs, cells, 2, row, id) == 0);
        }
    }
}

/// Self-consistency: the evaluator accepts the Fibonacci trace of any
/// height under the constraint set of the recurrence whose final value is the
/// one that the trace reaches.
pub proof fn lemma_fibonacci_trace_is_accepted(rows: nat, cs: ConstraintSet, res: Result<(), Error>)
    requires
        rows >= 1,
        is_fibonacci_constraints(cs, fib_felt(rows)),
        evaluation_result(cs, fibonacci_cells(rows), 2, res),
    ensures
        res == Ok::<(), Error>(()),
{
    lemma_fibonacci_trace_satisfies(rows, cs);
    lemma_satisfied_is_accepted(cs, fibonacci_cells(rows), 2, res);
}

/// Mutation sensitivity: where one entry of the Fibonacci trace is replaced
/// by another field element, the evaluator reports a violation at the row of
/// that entry or above it.
pub proof fn lemma_fibonacci_mutation_is_detected(
    rows: nat,
    cs: ConstraintSet,
    r: int,
    c: int,
    v: u32,
    res: Result<(), Error>,
)
    requires
        rows >= 1,
        is_fibonacci_constraints(cs, fib_felt(rows)),
        0 <= r < rows,
        0 <= c < 2,
        is_canonical(v),
        v != cell(fibonacci_cells(rows), 2, r, c),
        evaluation_result(cs, fibonacci_cells(rows).update(r * 2 + c, v), 2, res),
    ensures
        res matches Err(Error::ConstraintViolation { row, .. }) && row <= r,
{
    let cells = fibonacci_cells(rows);
    let changed = cells.update(r * 2 + c, v);
    lemma_fibonacci_cells_shape(rows);
    lemma_fibonacci_constraints_wf(cs, fib_felt(rows));
    lemma_fibonacci_constraint_values(cs, fib_felt(rows), changed, r);
    lemma_fib_felt_step(0);
    assert(is_trace(changed, 2));
    assert(trace_rows(changed, 2) == rows);
    assert(cell(changed, 2, r, c) == v);
    let id: int = if r == 0 {
        c
    } else {
        3 + c
    };
    let expected = cell(cells, 2, r, c);
    assert(expected == fib_felt((r + c) as nat));
    if r == 0 {
        assert(value_at(cs, changed, 2, r, id) == field_sub(v as int, expected as int));
    } else {
        assert(cell(changed, 2, r - 1, 0) == cell(cells, 2, r - 1, 0));
        assert(cell(changed, 2, r - 1, 1) == cell(cells, 2, r - 1, 1));
        assert(cell(cells, 2, r - 1, 0) == fib_felt((r - 1) as nat));
        assert(cell(cells, 2, r - 1, 1) == fib_felt(r as nat));
        lemma_fib_felt_step((r - 1) as nat);
        assert(value_at(cs, changed, 2, r, id) == field_sub(v as int, expected as int));
    }
    lemma_difference_is_zero_iff_equal(v as int, expected as int);
    assert(violated(cs, changed, 2, r, id));
    lemma_violation_is_reported(cs, changed, 2, r, id, res);
}

/// Generates the Fibonacci trace for `num_steps` steps.
///
/// The trace has two columns and as many rows as the smallest power of two
/// that is at least `num_steps`. The rows beyond `num_steps` continue the
/// recurrence: no other padding satisfies the transition constraints.
pub fn generate_fibonacci_trace(num_steps: usize) -> (trace: RowMajorMatrix<u32>)
    requires
        num_steps <= max_steps(),
    ensures
        matrix_width(trace) == 2,
        matrix_values(trace) == fibonacci_cells(padded_rows(num_steps as nat)),
        is_trace(matrix_values(trace), 2),
        is_power_of_two(trace_rows(matrix_values(trace), 2)),
        trace_rows(matrix_values(trace), 2) * 2 == matrix_values(trace).len(),
        trace_rows(matrix_values(trace), 2) == padded_rows(num_steps as nat),
{
    let rows = padded_height(num_steps);
    let mut values: Vec<u32> = Vec::with_capacity(rows * 2);
    let mut a: u32 = 0;
    let mut b: u32 = 1;
    let mut i: usize = 0;
    while i < rows
        invariant
            i <= rows,
            rows <= 2 * num_steps || rows == 1,
            num_steps <= max_steps(),
            values@.len() == 2 * i,
            a == fib_felt(i as nat),
            b == fib_felt((i + 1) as nat),
            forall|k: int| 0 <= k < 2 * i ==> #[trigger] values@[k] == fibonacci_entry(k),
        decreases rows - i,
    {
        let ghost filled = values@;
        values.push(a);
        values.push(b);
        let c = m31_add(a, b);
        proof {
            lemma_fib_felt_step(i as nat);
            assert forall|k: int| 0 <= k < 2 * (i + 1) implies #[trigger] values@[k]
                == fibonacci_entry(k) by {
                if k < 2 * i {
                    assert(values@[k] == filled[k]);
                } else if k == 2 * i {
                    assert(k / 2 + k % 2 == i);
                } else {
                    assert(k / 2 + k % 2 == i + 1);
                }
            }
        }
        a = b;
        b = c;
        i += 1;
    }
    proof {
        assert(values@ =~= fibonacci_cells(rows as nat));
    }
    matrix_new(values, 2)
}

/// Generates the Fibonacci trace for `num_steps` steps together with the
/// constraint set of the recurrence that ends where the trace ends. The trace
/// satisfies the constraints, so the evaluator accepts the pair.
pub fn fibonacci_instance(num_steps: usize) -> (instance: (RowMajorMatrix<u32>, ConstraintSet))
    requires
        num_steps <= max_steps(),
    ensures
        matrix_width(instance.0) == 2,
        matrix_values(instance.0) == fibonacci_cells(padded_rows(num_steps as nat)),
        is_fibonacci_constraints(instance.1, fib_felt(padded_rows(num_steps as nat))),
        evaluable(instance.1, matrix_values(instance.0), 2),
        satisfies(instance.1, matrix_values(instance.0), 2),
{
    let trace = generate_fibonacci_trace(num_steps);
    let air = FibonacciAir::new(num_steps);
    proof {
        lemma_field_results_are_canonical(0, fib(padded_rows(num_steps as nat)) as int);
    }
    let cs = fibonacci_constraints(air.final_value);
    proof {
        lemma_fibonacci_trace_satisfies(padded_rows(num_steps as nat), cs);
    }
    (trace, cs)
}

} // verus!
