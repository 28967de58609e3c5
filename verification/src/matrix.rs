//! The trace matrix: `p3_matrix`'s dense row-major matrix, holding the
//! canonical representatives of its field elements.

use crate::field::all_canonical;
use p3_matrix::dense::{DenseMatrix, RowMajorMatrix};
use p3_matrix::Matrix;
use vstd::arithmetic::power2::{
    lemma2_to64, lemma_pow2_strictly_increases, lemma_pow2_unfold, pow2,
};
use vstd::prelude::*;

verus! {

/// `p3_matrix`'s dense matrix, as a value that only the functions below look into.
#[verifier::external_type_specification]
#[verifier::external_body]
#[verifier::reject_recursive_types(T)]
#[verifier::reject_recursive_types(V)]
pub struct ExDenseMatrix<T, V>(DenseMatrix<T, V>);

/// The entries of a matrix, row after row.
pub uninterp spec fn matrix_values(m: DenseMatrix<u32, Vec<u32>>) -> Seq<u32>;

/// The number of columns of a matrix.
pub uninterp spec fn matrix_width(m: DenseMatrix<u32, Vec<u32>>) -> nat;

/// Builds a matrix with `RowMajorMatrix::new`.
///
/// Trusted: the matrix keeps `values` as its entries and `width` as its
/// number of columns. The constructor panics in debug builds when the length of
/// `values` is no multiple of `width`, which `requires` leaves out.
#[verifier::external_body]
pub(crate) fn matrix_new(values: Vec<u32>, width: usize) -> (m: RowMajorMatrix<u32>)
    requires
        width > 0,
        values@.len() % (width as nat) == 0,
    ensures
        matrix_values(m) == values@,
        matrix_width(m) == width,
{
    RowMajorMatrix::new(values, width)
}

/// Reads the number of columns with `Matrix::width`.
///
/// Trusted: it returns the matrix's `width`.
#[verifier::external_body]
pub(crate) fn matrix_width_of(m: &RowMajorMatrix<u32>) -> (w: usize)
    ensures
        w == matrix_width(*m),
{
    m.width()
}

/// Borrows the entries of a matrix, its public field `values`.
///
/// Trusted: the slice holds the entries, row after row.
#[verifier::external_body]
pub(crate) fn matrix_entries(m: &RowMajorMatrix<u32>) -> (s: &[u32])
    ensures
        s@ == matrix_values(*m),
{
    m.values.as_slice()
}

/// Whether `cells`, read as rows of `width` entries, is a trace: at least one
/// full row, and canonical representatives throughout.
pub open spec fn is_trace(cells: Seq<u32>, width: nat) -> bool {
    &&& width > 0
    &&& cells.len() > 0
    &&& cells.len() % width == 0
    &&& all_canonical(cells)
}

/// The number of rows of a trace.
pub open spec fn trace_rows(cells: Seq<u32>, width: nat) -> nat
    recommends
        width > 0,
{
    cells.len() / width
}

/// The entry in row `r` and column `c`.
pub open spec fn cell(cells: Seq<u32>, width: nat, r: int, c: int) -> u32
    recommends
        0 <= r,
        0 <= c < width,
        r * width + c < cells.len(),
{
    cells[r * width + c]
}

/// Whether `n` is a power of two.
pub open spec fn is_power_of_two(n: nat) -> bool {
    exists|k: nat| n == pow2(k)
}

/// Whether `rows` is the height of the trace of a computation of `steps`
/// steps: the smallest power of two that is at least `steps`.
pub open spec fn is_padded_height(rows: nat, steps: nat) -> bool {
    &&& is_power_of_two(rows)
    &&& rows >= steps
    &&& forall|p: nat| is_power_of_two(p) && p >= steps ==> rows <= p
}

/// The height of the trace of a computation of `steps` steps.
pub open spec fn padded_rows(steps: nat) -> nat {
    choose|rows: nat| is_padded_height(rows, steps)
}

/// The largest number of steps whose trace of padded height still has a
/// length that fits the machine, whatever its width up to two columns.
pub open spec fn max_steps() -> nat {
    (usize::MAX / 4) as nat
}

/// Computes the smallest power of two that is at least `steps`.
pub fn padded_height(steps: usize) -> (rows: usize)
    requires
        steps <= max_steps(),
    ensures
        is_padded_height(rows as nat, steps as nat),
        rows == padded_rows(steps as nat),
        rows >= 1,
        rows <= 2 * steps || rows == 1,
{
    let mut rows: usize = 1;
    let ghost mut k: nat = 0;
    proof {
        lemma2_to64();
    }
    while rows < steps
        invariant
            steps <= max_steps(),
            rows == pow2(k),
            rows >= 1,
            k == 0 || pow2((k - 1) as nat) < steps,
            rows <= 2 * steps || rows == 1,
        decreases 2 * steps - rows,
    {
        proof {
            lemma_pow2_unfold(k + 1);
        }
        rows = rows * 2;
        proof {
            k = k + 1;
        }
    }
    proof {
        assert forall|p: nat| is_power_of_two(p) && p >= steps implies rows <= p by {
            let j = choose|j: nat| p == pow2(j);
            if j < k {
                if j < k - 1 {
                    lemma_pow2_strictly_increases(j, (k - 1) as nat);
                }
                assert(false);
            } else if j > k {
                lemma_pow2_strictly_increases(k, j);
            }
        }
    }
    assert(is_power_of_two(padded_rows(steps as nat))) by {
        assert(is_padded_height(rows as nat, steps as nat));
    }
    rows
}

} // verus!
