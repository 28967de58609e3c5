use air_core::air::{ConstraintSet, Expr};
use air_core::error::Error;
use air_core::evaluator::{evaluate, evaluate_cells};
use air_core::fib::{fibonacci_instance, generate_fibonacci_trace, FibonacciAir};
use air_core::matrix::padded_height;
use air_core::poly_add::{
    add_coefficients, generate_polyadd_trace, polyadd_instance, PolyAddAir,
};
use p3_field::{PrimeCharacteristicRing, PrimeField32};
use p3_matrix::dense::RowMajorMatrix;
use p3_matrix::Matrix;
use p3_mersenne_31::Mersenne31;

const P: u32 = 2147483647;

fn fib_mod(n: usize) -> u32 {
    let (mut a, mut b) = (0u64, 1u64);
    for _ in 0..n {
        let c = (a + b) % (P as u64);
        a = b;
        b = c;
    }
    a as u32
}

#[test]
fn padded_height_is_the_smallest_power_of_two() {
    assert_eq!(padded_height(0), 1);
    assert_eq!(padded_height(1), 1);
    assert_eq!(padded_height(2), 2);
    assert_eq!(padded_height(3), 4);
    assert_eq!(padded_height(4), 4);
    assert_eq!(padded_height(5), 8);
    assert_eq!(padded_height(8), 8);
    assert_eq!(padded_height(9), 16);
    assert_eq!(padded_height(1000), 1024);
}

#[test]
fn fibonacci_trace_shape_is_a_power_of_two() {
    for steps in [0usize, 1, 2, 3, 5, 8, 9, 17, 100] {
        let trace = generate_fibonacci_trace(steps);
        let rows = trace.height();
        assert_eq!(trace.width, 2);
        assert!(rows.is_power_of_two());
        assert!(rows >= steps);
        assert!(rows == 1 || rows / 2 < steps);
        assert_eq!(rows * trace.width, trace.values.len());
    }
}

#[test]
fn fibonacci_trace_of_eight_steps_is_accepted() {
    let trace = generate_fibonacci_trace(8);
    assert_eq!(trace.values, vec![0, 1, 1, 1, 1, 2, 2, 3, 3, 5, 5, 8, 8, 13, 13, 21]);
    let air = FibonacciAir { num_steps: 8, final_value: 21 };
    assert_eq!(air.width(), 2);
    let cs = air.constraints().unwrap();
    assert_eq!(evaluate(&trace, &cs), Ok(()));
}

#[test]
fn fibonacci_air_for_steps_has_the_final_value_of_its_trace() {
    assert_eq!(FibonacciAir::new(8), FibonacciAir { num_steps: 8, final_value: 21 });
    assert_eq!(FibonacciAir::new(5), FibonacciAir { num_steps: 5, final_value: 21 });
    assert_eq!(FibonacciAir::new(1), FibonacciAir { num_steps: 1, final_value: 1 });
    assert_eq!(FibonacciAir::new(0), FibonacciAir { num_steps: 0, final_value: 1 });
}

#[test]
fn fibonacci_trace_wraps_around_the_modulus() {
    let trace = generate_fibonacci_trace(64);
    for row in 0..64 {
        assert_eq!(trace.values[2 * row], fib_mod(row));
        assert_eq!(trace.values[2 * row + 1], fib_mod(row + 1));
    }
    // The 47th Fibonacci number is the first above the modulus.
    assert_eq!(trace.values[2 * 47], (2971215073u64 % (P as u64)) as u32);
    assert_eq!(trace.values[2 * 47], 823731426);
    let sum = Mersenne31::new(trace.values[2 * 45]) + Mersenne31::new(trace.values[2 * 46]);
    assert_eq!(trace.values[2 * 47], sum.as_canonical_u32());
}

#[test]
fn generated_fibonacci_traces_satisfy_their_own_constraints() {
    for steps in [0usize, 1, 2, 3, 5, 8, 9, 64, 100] {
        let trace = generate_fibonacci_trace(steps);
        let cs = FibonacciAir::new(steps).constraints().unwrap();
        assert_eq!(evaluate(&trace, &cs), Ok(()));
    }
}

#[test]
fn corrupting_row_three_is_reported_at_row_three() {
    let trace = generate_fibonacci_trace(8);
    let mut values = trace.values.clone();
    values[3 * 2] = 1000;
    let corrupted = RowMajorMatrix::new(values, 2);
    let cs = FibonacciAir::new(8).constraints().unwrap();
    match evaluate(&corrupted, &cs) {
        Err(Error::ConstraintViolation { row, constraint_id }) => {
            assert!(row >= 3);
            assert_eq!(row, 3);
            assert_eq!(constraint_id, 3);
        }
        other => panic!("unexpected result: {:?}", other),
    }
}

#[test]
fn every_single_mutation_of_a_fibonacci_trace_is_reported_at_or_above_its_row() {
    let trace = generate_fibonacci_trace(8);
    let cs = FibonacciAir::new(8).constraints().unwrap();
    for row in 0..8 {
        for col in 0..2 {
            for delta in [1u32, 2, P - 1] {
                let mut values = trace.values.clone();
                values[2 * row + col] = (values[2 * row + col] + delta) % P;
                let mutated = RowMajorMatrix::new(values, 2);
                match evaluate(&mutated, &cs) {
                    Err(Error::ConstraintViolation { row: reported, .. }) => {
                        assert!(reported <= row)
                    }
                    other => panic!("unexpected result: {:?}", other),
                }
            }
        }
    }
}

#[test]
fn evaluation_is_deterministic() {
    let trace = generate_fibonacci_trace(8);
    let cs = FibonacciAir::new(8).constraints().unwrap();
    assert_eq!(evaluate(&trace, &cs), evaluate(&trace, &cs));
    let mut values = trace.values.clone();
    values[5] = 77;
    values[9] = 78;
    let mutated = RowMajorMatrix::new(values, 2);
    let first = evaluate(&mutated, &cs);
    assert_eq!(first, Err(Error::ConstraintViolation { row: 2, constraint_id: 4 }));
    assert_eq!(first, evaluate(&mutated, &cs));
}

#[test]
fn wrong_final_value_is_reported_at_the_last_row() {
    let trace = generate_fibonacci_trace(8);
    let cs = FibonacciAir { num_steps: 8, final_value: 22 }.constraints().unwrap();
    assert_eq!(
        evaluate(&trace, &cs),
        Err(Error::ConstraintViolation { row: 7, constraint_id: 2 })
    );
}

#[test]
fn fibonacci_air_rejects_a_final_value_that_is_not_canonical() {
    let air = FibonacciAir { num_steps: 8, final_value: P };
    assert_eq!(air.constraints(), Err(Error::InvalidInput));
    let air = FibonacciAir { num_steps: 8, final_value: P - 1 };
    assert!(air.constraints().is_ok());
}

fn cur(c: usize) -> Expr {
    Expr::Cur(c)
}

#[test]
fn the_first_violation_in_scan_order_is_reported() {
    // Column 0 is zero on the first row and counts up by one; column 1 is 5 on the last row.
    let cs = ConstraintSet {
        width: 2,
        first_row: vec![cur(0)],
        last_row: vec![cur(1).minus(Expr::Const(5))],
        transition: vec![Expr::Next(0).minus(cur(0).plus(Expr::Const(1)))],
    };
    assert!(cs.is_well_formed());
    let good = RowMajorMatrix::new(vec![0, 9, 1, 9, 2, 9, 3, 5], 2);
    assert_eq!(evaluate(&good, &cs), Ok(()));
    let bad_everywhere = RowMajorMatrix::new(vec![1, 9, 1, 9, 7, 9, 3, 6], 2);
    assert_eq!(
        evaluate(&bad_everywhere, &cs),
        Err(Error::ConstraintViolation { row: 0, constraint_id: 0 })
    );
    let bad_later = RowMajorMatrix::new(vec![0, 9, 1, 9, 7, 9, 3, 6], 2);
    assert_eq!(
        evaluate(&bad_later, &cs),
        Err(Error::ConstraintViolation { row: 2, constraint_id: 2 })
    );
    // On the last row the last-row constraint comes before the transition.
    let bad_last = RowMajorMatrix::new(vec![0, 9, 1, 9, 2, 9, 4, 6], 2);
    assert_eq!(
        evaluate(&bad_last, &cs),
        Err(Error::ConstraintViolation { row: 3, constraint_id: 1 })
    );
    let bad_step = RowMajorMatrix::new(vec![0, 9, 1, 9, 2, 9, 4, 5], 2);
    assert_eq!(
        evaluate(&bad_step, &cs),
        Err(Error::ConstraintViolation { row: 3, constraint_id: 2 })
    );
}

#[test]
fn a_trace_of_one_row_has_first_and_last_row_constraints_and_no_transition() {
    let cs = ConstraintSet {
        width: 1,
        first_row: vec![cur(0).minus(Expr::Const(4))],
        last_row: vec![cur(0).minus(Expr::Const(4))],
        transition: vec![Expr::Next(0).minus(cur(0))],
    };
    assert_eq!(evaluate(&RowMajorMatrix::new(vec![4], 1), &cs), Ok(()));
    assert_eq!(
        evaluate(&RowMajorMatrix::new(vec![3], 1), &cs),
        Err(Error::ConstraintViolation { row: 0, constraint_id: 0 })
    );
}

#[test]
fn expressions_are_evaluated_in_the_field() {
    // Product and difference wrap around the modulus as Mersenne31 does.
    let a = P - 1;
    let b = P - 2;
    let product = (Mersenne31::new(a) * Mersenne31::new(b)).as_canonical_u32();
    assert_eq!(product, 2);
    let difference = (Mersenne31::new(3) - Mersenne31::new(b)).as_canonical_u32();
    assert_eq!(difference, 5);
    let sum = (Mersenne31::new(a) + Mersenne31::new(b)).as_canonical_u32();
    assert_eq!(sum, P - 3);
    let cs = ConstraintSet {
        width: 3,
        first_row: vec![
            cur(0).times(cur(1)).minus(Expr::Const(2)),
            cur(2).minus(cur(1)).minus(Expr::Const(5)),
            cur(0).plus(cur(1)).minus(Expr::Const(P - 3)),
        ],
        last_row: vec![],
        transition: vec![],
    };
    assert_eq!(evaluate_cells(&[a, b, 3], 3, &cs), Ok(()));
    assert_eq!(
        evaluate_cells(&[a, b, 4], 3, &cs),
        Err(Error::ConstraintViolation { row: 0, constraint_id: 1 })
    );
    assert_eq!(
        evaluate_cells(&[a, 1, 6], 3, &cs),
        Err(Error::ConstraintViolation { row: 0, constraint_id: 0 })
    );
    let one = Mersenne31::ONE.as_canonical_u32();
    assert_eq!(one, 1);
}

#[test]
fn the_evaluator_rejects_malformed_input() {
    let cs = FibonacciAir::new(4).constraints().unwrap();
    // Another width.
    assert_eq!(evaluate(&RowMajorMatrix::new(vec![0, 1, 1], 3), &cs), Err(Error::InvalidInput));
    // No rows.
    assert_eq!(evaluate(&RowMajorMatrix::new(vec![], 2), &cs), Err(Error::InvalidInput));
    // An entry that is no canonical representative.
    assert_eq!(evaluate(&RowMajorMatrix::new(vec![0, P], 2), &cs), Err(Error::InvalidInput));
    // Half a row.
    assert_eq!(evaluate_cells(&[0, 1, 1], 2, &cs), Err(Error::InvalidInput));
    assert_eq!(evaluate_cells(&[0, 1], 0, &cs), Err(Error::InvalidInput));
    // A column beyond the width, a next row in a boundary constraint, a constant out of range.
    for bad in [cur(2), Expr::Next(0), Expr::Const(P)] {
        let cs = ConstraintSet { width: 2, first_row: vec![bad], last_row: vec![], transition: vec![] };
        assert!(!cs.is_well_formed());
        assert_eq!(evaluate(&RowMajorMatrix::new(vec![0, 1], 2), &cs), Err(Error::InvalidInput));
    }
    let cs = ConstraintSet {
        width: 2,
        first_row: vec![],
        last_row: vec![],
        transition: vec![Expr::Next(1).minus(cur(0))],
    };
    assert!(cs.is_well_formed());
}

#[test]
fn polynomials_are_added_under_the_modulus() {
    let m = 536870939;
    let poly1 = vec![1, 536870938, 5, 0];
    let poly2 = vec![2, 536870938, 536870934, 0];
    assert_eq!(add_coefficients(&poly1, &poly2, m), Ok(vec![3, 536870937, 0, 0]));
    let trace = generate_polyadd_trace(poly1.clone(), poly2.clone(), m).unwrap();
    assert_eq!(trace.width, 12);
    assert_eq!(trace.height(), 1);
    assert!(trace.height().is_power_of_two());
    assert_eq!(trace.height() * trace.width, trace.values.len());
    assert_eq!(
        trace.values,
        vec![1, 536870938, 5, 0, 2, 536870938, 536870934, 0, 3, 536870937, 0, 0]
    );
    let air = PolyAddAir::new(poly1, poly2, m).unwrap();
    assert_eq!(air.added_poly, vec![3, 536870937, 0, 0]);
    assert_eq!(air.width(), 12);
    let cs = air.constraints().unwrap();
    assert_eq!(evaluate(&trace, &cs), Ok(()));
}

#[test]
fn sums_of_large_coefficients_are_sums_of_integers() {
    // 2147483646 + 2147483646 = 4294967292 = 8 * 536870939 - 220
    assert_eq!(add_coefficients(&vec![P - 1], &vec![P - 1], 536870939), Ok(vec![536870719]));
    assert_eq!(add_coefficients(&vec![P - 1], &vec![P - 1], P - 1), Ok(vec![0]));
    assert_eq!(add_coefficients(&vec![7], &vec![8], 1), Ok(vec![0]));
}

#[test]
fn polynomial_addition_rejects_invalid_input() {
    let m = 536870939;
    assert_eq!(generate_polyadd_trace(vec![1, 2], vec![1], m), Err(Error::InvalidInput));
    assert_eq!(generate_polyadd_trace(vec![1, 2], vec![1, 2], 0), Err(Error::InvalidInput));
    assert_eq!(generate_polyadd_trace(vec![1, 2], vec![1, 2], P), Err(Error::InvalidInput));
    assert_eq!(generate_polyadd_trace(vec![], vec![], m), Err(Error::InvalidInput));
    assert_eq!(generate_polyadd_trace(vec![P], vec![1], m), Err(Error::InvalidInput));
    assert_eq!(generate_polyadd_trace(vec![1], vec![P], m), Err(Error::InvalidInput));
    assert_eq!(PolyAddAir::new(vec![1, 2], vec![1], m), Err(Error::InvalidInput));
    assert_eq!(PolyAddAir::new(vec![1], vec![1], 0), Err(Error::InvalidInput));
    assert_eq!(add_coefficients(&vec![1], &vec![1, 2], m), Err(Error::InvalidInput));
    let air = PolyAddAir { poly1: vec![1], poly2: vec![2], added_poly: vec![3, 4] };
    assert_eq!(air.constraints(), Err(Error::InvalidInput));
    let air = PolyAddAir { poly1: vec![1], poly2: vec![2], added_poly: vec![P] };
    assert_eq!(air.constraints(), Err(Error::InvalidInput));
    let air = PolyAddAir { poly1: vec![], poly2: vec![], added_poly: vec![] };
    assert_eq!(air.constraints(), Err(Error::InvalidInput));
}

#[test]
fn every_single_mutation_of_a_polyadd_trace_is_reported_at_row_zero() {
    let m = 97;
    let poly1 = vec![10, 96, 50];
    let poly2 = vec![20, 96, 47];
    let trace = generate_polyadd_trace(poly1.clone(), poly2.clone(), m).unwrap();
    let cs = PolyAddAir::new(poly1, poly2, m).unwrap().constraints().unwrap();
    assert_eq!(evaluate(&trace, &cs), Ok(()));
    for col in 0..9 {
        let mut values = trace.values.clone();
        values[col] = (values[col] + 1) % P;
        let mutated = RowMajorMatrix::new(values, 9);
        assert_eq!(
            evaluate(&mutated, &cs),
            Err(Error::ConstraintViolation { row: 0, constraint_id: col })
        );
    }
}

#[test]
fn instances_are_accepted_by_the_evaluator() {
    for steps in [0usize, 1, 6, 8, 33] {
        let (trace, cs) = fibonacci_instance(steps);
        assert_eq!(trace.values, generate_fibonacci_trace(steps).values);
        assert_eq!(cs, FibonacciAir::new(steps).constraints().unwrap());
        assert_eq!(evaluate(&trace, &cs), Ok(()));
    }
    let (trace, cs) = polyadd_instance(vec![5, 6, 7], vec![1, 2, 3], 8).unwrap();
    assert_eq!(trace.values, vec![5, 6, 7, 1, 2, 3, 6, 0, 2]);
    assert_eq!(trace.width, 9);
    assert_eq!(evaluate(&trace, &cs), Ok(()));
    assert_eq!(polyadd_instance(vec![5, 6], vec![1], 8).err(), Some(Error::InvalidInput));
    assert_eq!(polyadd_instance(vec![5], vec![1], 0).err(), Some(Error::InvalidInput));
}
