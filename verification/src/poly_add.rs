//! The coefficient-wise sum of two polynomials under a modulus, as a trace of
//! one row and the constraints that pin that row.
//!
//! The row holds the coefficients of the first polynomial, then those of the
//! second, then those of the sum. The whole addition is one step, so the trace
//! has one row and no padding.

use crate::air::{all_wf, expr_value, expr_wf, ConstraintSet, Expr};
use crate::error::Error;
use crate::evaluator::{
    evaluable, evaluation_result, lemma_satisfied_is_accepted, lemma_violation_is_reported,
    satisfies, value_at, violated,
};
use crate::field::{
    all_canonical, check_canonical, field_sub, is_canonical, lemma_difference_is_zero_iff_equal,
    MODULUS,
};
use crate::matrix::{
    cell, is_power_of_two, is_trace, matrix_new, matrix_values, matrix_width, trace_rows,
};
use p3_matrix::dense::RowMajorMatrix;
use vstd::arithmetic::div_mod::lemma_mod_bound;
use vstd::arithmetic::power2::{lemma2_to64, pow2};
use vstd::prelude::*;

verus! {

/// Whether two polynomials can be added under `modulus`: they have the same,
/// nonzero number of coefficients, every coefficient is a canonical
/// representative, the modulus is a nonzero one, and a row of three times
/// that many entries fits the machine.
pub open spec fn valid_polyadd_input(poly1: Seq<u32>, poly2: Seq<u32>, modulus: u32) -> bool {
    &&& poly1.len() == poly2.len()
    &&& poly1.len() > 0
    &&& 3 * poly1.len() <= usize::MAX
    &&& 0 < modulus < MODULUS
    &&& all_canonical(poly1)
    &&& all_canonical(poly2)
}

/// The coefficients of the sum: each is the sum of the two coefficients as
/// integers, reduced modulo `modulus`.
pub open spec fn modular_sum(poly1: Seq<u32>, poly2: Seq<u32>, modulus: u32) -> Seq<u32> {
    Seq::new(poly1.len(), |i: int| ((poly1[i] + poly2[i]) % (modulus as int)) as u32)
}

/// The constraints that pin a row to `expected`: one per column, zero where
/// the entry equals the expected one.
pub open spec fn pinned_row(expected: Seq<u32>) -> Seq<Expr> {
    Seq::new(expected.len(), |c: int| Expr::Cur(c as usize).minus(Expr::Const(expected[c])))
}

/// Whether `cs` is the constraint set that pins the first row to `expected`.
pub open spec fn is_pinning_constraints(cs: ConstraintSet, expected: Seq<u32>) -> bool {
    &&& cs.width == expected.len()
    &&& cs.first_row@ == pinned_row(expected)
    &&& cs.last_row@.len() == 0
    &&& cs.transition@.len() == 0
}

/// Adds two polynomials coefficient by coefficient under `modulus`.
///
/// Fails with `InvalidInput` where the input is not valid.
pub fn add_coefficients(poly1: &Vec<u32>, poly2: &Vec<u32>, modulus: u32) -> (res: Result<
    Vec<u32>,
    Error,
>)
    ensures
        match res {
            Ok(sums) => valid_polyadd_input(poly1@, poly2@, modulus) && sums@ == modular_sum(
                poly1@,
                poly2@,
                modulus,
            ),
            Err(e) => !valid_polyadd_input(poly1@, poly2@, modulus) && e == Error::InvalidInput,
        },
{
    let n = poly1.len();
    if poly2.len() != n || n == 0 || n > usize::MAX / 3 || modulus == 0 || modulus >= MODULUS {
        return Err(Error::InvalidInput);
    }
    if !check_canonical(poly1.as_slice()) || !check_canonical(poly2.as_slice()) {
        return Err(Error::InvalidInput);
    }
    let mut sums: Vec<u32> = Vec::with_capacity(n);
    let mut i: usize = 0;
    while i < n
        invariant
            i <= n,
            n == poly1@.len(),
            n == poly2@.len(),
            0 < modulus,
            all_canonical(poly1@),
            all_canonical(poly2@),
            sums@.len() == i,
            forall|k: int|
                0 <= k < i ==> #[trigger] sums@[k] == (poly1@[k] + poly2@[k]) % (modulus as int),
        decreases n - i,
    {
        sums.push((poly1[i] + poly2[i]) % modulus);
        i += 1;
    }
    proof {
        assert(sums@ =~= modular_sum(poly1@, poly2@, modulus));
    }
    Ok(sums)
}

/// The addition of two polynomials, with the coefficients that the first row
/// of its trace must hold.
#[derive(Debug, PartialEq, Eq)]
pub struct PolyAddAir {
    /// The coefficients of the first polynomial.
    pub poly1: Vec<u32>,
    /// The coefficients of the second polynomial.
    pub poly2: Vec<u32>,
    /// The coefficients of the sum.
    pub added_poly: Vec<u32>,
}

impl PolyAddAir {
    /// The row that the constraints pin: the coefficients of the two
    /// polynomials, then those of the sum.
    pub open spec fn expected_row(&self) -> Seq<u32> {
        self.poly1@ + self.poly2@ + self.added_poly@
    }

    /// Whether the three polynomials can make one row: they have the same,
    /// nonzero number of coefficients, each a canonical representative, and
    /// the row fits the machine.
    pub open spec fn wf(&self) -> bool {
        &&& self.poly1@.len() == self.poly2@.len()
        &&& self.poly1@.len() == self.added_poly@.len()
        &&& self.poly1@.len() > 0
        &&& 3 * self.poly1@.len() <= usize::MAX
        &&& all_canonical(self.poly1@)
        &&& all_canonical(self.poly2@)
        &&& all_canonical(self.added_poly@)
    }

    /// The addition of `poly1` and `poly2` under `modulus`, with the sum computed.
    ///
    /// Fails with `InvalidInput` where the input is not valid.
    pub fn new(poly1: Vec<u32>, poly2: Vec<u32>, modulus: u32) -> (res: Result<PolyAddAir, Error>)
        ensures
            match res {
                Ok(air) => {
                    &&& valid_polyadd_input(poly1@, poly2@, modulus)
                    &&& air.poly1@ == poly1@
                    &&& air.poly2@ == poly2@
                    &&& air.added_poly@ == modular_sum(poly1@, poly2@, modulus)
                    &&& air.wf()
                },
                Err(e) => !valid_polyadd_input(poly1@, poly2@, modulus) && e
                    == Error::InvalidInput,
            },
    {
        match add_coefficients(&poly1, &poly2, modulus) {
            Ok(added_poly) => Ok(PolyAddAir { poly1, poly2, added_poly }),
            Err(_) => Err(Error::InvalidInput),
        }
    }

    /// The number of columns of the trace: three for every coefficient.
    pub fn width(&self) -> (w: usize)
        requires
            3 * self.poly1@.len() <= usize::MAX,
        ensures
            w == 3 * self.poly1@.len(),
    {
        3 * self.poly1.len()
    }

    /// The constraints of the addition: the first row holds the coefficients
    /// of the two polynomials and of the sum.
    ///
    /// Fails with `InvalidInput` where the three polynomials cannot make one row.
    pub fn constraints(&self) -> (res: Result<ConstraintSet, Error>)
        ensures
            match res {
                Ok(cs) => self.wf() && is_pinning_constraints(cs, self.expected_row())
                    && cs.wf(),
                Err(e) => !self.wf() && e == Error::InvalidInput,
            },
    {
        let n = self.poly1.len();
        if self.poly2.len() != n || self.added_poly.len() != n || n == 0 || n > usize::MAX / 3 {
            return Err(Error::InvalidInput);
        }
        if !check_canonical(self.poly1.as_slice()) || !check_canonical(self.poly2.as_slice())
            || !check_canonical(self.added_poly.as_slice()) {
            return Err(Error::InvalidInput);
        }
        Ok(pinning_constraints(&self.poly1, &self.poly2, &self.added_poly))
    }
}

/// The constraint set that pins the first row to the coefficients of
/// `poly1`, then those of `poly2`, then those of `sums`.
fn pinning_constraints(poly1: &Vec<u32>, poly2: &Vec<u32>, sums: &Vec<u32>) -> (cs: ConstraintSet)
    requires
        poly1@.len() + poly2@.len() + sums@.len() <= usize::MAX,
        all_canonical(poly1@),
        all_canonical(poly2@),
        all_canonical(sums@),
    ensures
        is_pinning_constraints(cs, poly1@ + poly2@ + sums@),
        cs.wf(),
{
    let mut first_row: Vec<Expr> = Vec::new();
    pin_columns(&mut first_row, poly1);
    pin_columns(&mut first_row, poly2);
    pin_columns(&mut first_row, sums);
    let cs = ConstraintSet {
        width: poly1.len() + poly2.len() + sums.len(),
        first_row,
        last_row: Vec::new(),
        transition: Vec::new(),
    };
    proof {
        assert(cs.first_row@ =~= pinned_row(poly1@ + poly2@ + sums@));
        lemma_pinning_constraints_wf(cs, poly1@ + poly2@ + sums@);
    }
    cs
}

/// Appends to `row` the constraints that pin the next columns to `expected`.
fn pin_columns(row: &mut Vec<Expr>, expected: &Vec<u32>)
    requires
        old(row)@.len() + expected@.len() <= usize::MAX,
    ensures
        final(row)@.len() == old(row)@.len() + expected@.len(),
        forall|c: int| 0 <= c < old(row)@.len() ==> final(row)@[c] == old(row)@[c],
        forall|c: int|
            old(row)@.len() <= c < final(row)@.len() ==> #[trigger] final(row)@[c] == Expr::Cur(
                c as usize,
            ).minus(Expr::Const(expected@[c - old(row)@.len()])),
{
    let base = row.len();
    let mut k: usize = 0;
    while k < expected.len()
        invariant
            k <= expected@.len(),
            base == old(row)@.len(),
            base + expected@.len() <= usize::MAX,
            row@.len() == base + k,
            forall|c: int| 0 <= c < base ==> row@[c] == old(row)@[c],
            forall|c: int|
                base <= c < base + k ==> #[trigger] row@[c] == Expr::Cur(c as usize).minus(
                    Expr::Const(expected@[c - base]),
                ),
        decreases expected@.len() - k,
    {
        row.push(Expr::Cur(base + k).minus(Expr::Const(expected[k])));
        k += 1;
    }
}

/// A constraint set that pins a row of canonical representatives is well formed.
pub proof fn lemma_pinning_constraints_wf(cs: ConstraintSet, expected: Seq<u32>)
    requires
        is_pinning_constraints(cs, expected),
        all_canonical(expected),
        expected.len() <= usize::MAX,
    ensures
        cs.wf(),
{
    reveal_with_fuel(expr_wf, 2);
    assert(all_wf(cs.first_row@, cs.width as nat, false));
}

/// Generates the trace of the addition of `poly1` and `poly2` under `modulus`.
///
/// The trace has one row: the coefficients of `poly1`, then those of `poly2`,
/// then those of the sum. Fails with `InvalidInput` where the input is not valid.
pub fn generate_polyadd_trace(poly1: Vec<u32>, poly2: Vec<u32>, modulus: u32) -> (res: Result<
    RowMajorMatrix<u32>,
    Error,
>)
    ensures
        match res {
            Ok(trace) => {
                &&& valid_polyadd_input(poly1@, poly2@, modulus)
                &&& matrix_width(trace) == 3 * poly1@.len()
                &&& matrix_values(trace) == poly1@ + poly2@ + modular_sum(poly1@, poly2@, modulus)
                &&& is_trace(matrix_values(trace), matrix_width(trace))
                &&& trace_rows(matrix_values(trace), matrix_width(trace)) == 1
                &&& is_power_of_two(trace_rows(matrix_values(trace), matrix_width(trace)))
                &&& trace_rows(matrix_values(trace), matrix_width(trace)) * matrix_width(trace)
                    == matrix_values(trace).len()
            },
            Err(e) => !valid_polyadd_input(poly1@, poly2@, modulus) && e == Error::InvalidInput,
        },
{
    let sums = match add_coefficients(&poly1, &poly2, modulus) {
        Ok(sums) => sums,
        Err(_) => {
            return Err(Error::InvalidInput);
        },
    };
    let n = poly1.len();
    let values = row_of(&poly1, &poly2, &sums);
    proof {
        lemma2_to64();
        assert((3 * n) % (3 * n) == 0 && (3 * n) / (3 * n) == 1) by (nonlinear_arith)
            requires
                n > 0,
        ;
        assert(is_power_of_two(1)) by {
            assert(1 == pow2(0));
        }
    }
    Ok(matrix_new(values, 3 * n))
}

/// The row of a trace: the coefficients of `poly1`, then those of `poly2`,
/// then those of `sums`.
fn row_of(poly1: &Vec<u32>, poly2: &Vec<u32>, sums: &Vec<u32>) -> (values: Vec<u32>)
    ensures
        values@ == poly1@ + poly2@ + sums@,
{
    let mut values: Vec<u32> = Vec::new();
    append_all(&mut values, poly1);
    append_all(&mut values, poly2);
    append_all(&mut values, sums);
    values
}

/// Appends the entries of `src` to `dst`.
fn append_all(dst: &mut Vec<u32>, src: &Vec<u32>)
    ensures
        final(dst)@ == old(dst)@ + src@,
{
    let mut k: usize = 0;
    while k < src.len()
        invariant
            k <= src@.len(),
            dst@ == old(dst)@ + src@.subrange(0, k as int),
        decreases src@.len() - k,
    {
        dst.push(src[k]);
        proof {
            assert(src@.subrange(0, k + 1) =~= src@.subrange(0, k as int).push(src@[k as int]));
        }
        k += 1;
    }
    proof {
        assert(src@.subrange(0, src@.len() as int) =~= src@);
    }
}

/// A row of canonical representatives satisfies the constraints that pin it.
pub proof fn lemma_pinned_row_satisfies(expected: Seq<u32>, cs: ConstraintSet)
    requires
        0 < expected.len() <= usize::MAX,
        all_canonical(expected),
        is_pinning_constraints(cs, expected),
    ensures
        evaluable(cs, expected, expected.len()),
        satisfies(cs, expected, expected.len()),
{
    let width = expected.len();
    lemma_pinning_constraints_wf(cs, expected);
    lemma_one_row(width);
    reveal_with_fuel(expr_value, 2);
    assert forall|row: int, id: int| !violated(cs, expected, width, row, id) by {
        if row == 0 && 0 <= id < width {
            assert(cs.first_row@[id] == Expr::Cur(id as usize).minus(Expr::Const(expected[id])));
            assert(cell(expected, width, 0, id) == expected[id]);
            assert(value_at(cs, expected, width, row, id) == field_sub(
                expected[id] as int,
                expected[id] as int,
            ));
            lemma_difference_is_zero_iff_equal(expected[id] as int, expected[id] as int);
        }
    }
}

/// Self-consistency: the evaluator accepts a row of canonical
/// representatives under the constraints that pin it.
pub proof fn lemma_pinned_row_is_accepted(
    expected: Seq<u32>,
    cs: ConstraintSet,
    res: Result<(), Error>,
)
    requires
        0 < expected.len() <= usize::MAX,
        all_canonical(expected),
        is_pinning_constraints(cs, expected),
        evaluation_result(cs, expected, expected.len(), res),
    ensures
        res == Ok::<(), Error>(()),
{
    lemma_pinned_row_satisfies(expected, cs);
    lemma_satisfied_is_accepted(cs, expected, expected.len(), res);
}

/// Generates the trace of the addition of `poly1` and `poly2` under
/// `modulus` together with the constraint set that pins its row. The trace
/// satisfies the constraints, so the evaluator accepts the pair.
///
/// Fails with `InvalidInput` where the input is not valid.
pub fn polyadd_instance(poly1: Vec<u32>, poly2: Vec<u32>, modulus: u32) -> (res: Result<
    (RowMajorMatrix<u32>, ConstraintSet),
    Error,
>)
    ensures
        match res {
            Ok((trace, cs)) => {
                &&& valid_polyadd_input(poly1@, poly2@, modulus)
                &&& matrix_width(trace) == 3 * poly1@.len()
                &&& matrix_values(trace) == poly1@ + poly2@ + modular_sum(poly1@, poly2@, modulus)
                &&& is_pinning_constraints(cs, matrix_values(trace))
                &&& evaluable(cs, matrix_values(trace), matrix_width(trace))
                &&& satisfies(cs, matrix_values(trace), matrix_width(trace))
            },
            Err(e) => !valid_polyadd_input(poly1@, poly2@, modulus) && e == Error::InvalidInput,
        },
{
    let sums = match add_coefficients(&poly1, &poly2, modulus) {
        Ok(sums) => sums,
        Err(_) => {
            return Err(Error::InvalidInput);
        },
    };
    let n = poly1.len();
    let values = row_of(&poly1, &poly2, &sums);
    proof {
        assert(all_canonical(sums@)) by {
            assert forall|i: int| 0 <= i < sums@.len() implies is_canonical(
                #[trigger] sums@[i],
            ) by {
                lemma_mod_bound(poly1@[i] + poly2@[i], modulus as int);
            }
        }
        assert((3 * n) % (3 * n) == 0) by (nonlinear_arith)
            requires
                n > 0,
        ;
    }
    let cs = pinning_constraints(&poly1, &poly2, &sums);
    proof {
        lemma_pinned_row_satisfies(values@, cs);
    }
    Ok((matrix_new(values, 3 * n), cs))
}

/// Mutation sensitivity: where one entry of a pinned row is replaced by
/// another field element, the evaluator reports a violation at row 0.
pub proof fn lemma_pinned_row_mutation_is_detected(
    expected: Seq<u32>,
    cs: ConstraintSet,
    c: int,
    v: u32,
    res: Result<(), Error>,
)
    requires
        0 < expected.len() <= usize::MAX,
        all_canonical(expected),
        is_pinning_constraints(cs, expected),
        0 <= c < expected.len(),
        is_canonical(v),
        v != expected[c],
        evaluation_result(cs, expected.update(c, v), expected.len(), res),
    ensures
        res matches Err(Error::ConstraintViolation { row, .. }) && row == 0,
{
    let width = expected.len();
    let changed = expected.update(c, v);
    lemma_pinning_constraints_wf(cs, expected);
    lemma_one_row(width);
    reveal_with_fuel(expr_value, 2);
    assert(is_trace(changed, width));
    assert(cs.first_row@[c] == Expr::Cur(c as usize).minus(Expr::Const(expected[c])));
    assert(cell(changed, width, 0, c) == v);
    assert(value_at(cs, changed, width, 0, c) == field_sub(v as int, expected[c] as int));
    lemma_difference_is_zero_iff_equal(v as int, expected[c] as int);
    assert(violated(cs, changed, width, 0, c));
    lemma_violation_is_reported(cs, changed, width, 0, c, res);
}

/// A sequence as long as its width is one row.
proof fn lemma_one_row(width: nat)
    requires
        width > 0,
    ensures
        width % width == 0,
        width / width == 1,
{
    assert(width % width == 0 && width / width == 1) by (nonlinear_arith)
        requires
            width > 0,
    ;
}

} // verus!
