use air_core::circuit::{Constraint, Target};
use air_core::circuits::{
    fibonacci_circuit, fibonacci_circuit_instance, fibonacci_witness, polyadd_circuit,
    polyadd_circuit_instance, polyadd_witness, sum_circuit, sum_circuit_instance, sum_witness,
};
use air_core::error::Error;
use air_core::witness::Witness;

const P: u32 = 2147483647;

#[test]
fn circuit_instances_hold_finalized_witnesses() {
    let (fc, values) = fibonacci_circuit_instance(32, 0, 1).unwrap();
    assert_eq!(values.len(), 33);
    assert_eq!(values[fc.result.index], 2178309);
    assert_eq!(fc.circuit.public_values(&values), Ok(vec![0, 1, 2178309]));
    assert_eq!(fibonacci_circuit_instance(32, P, 1).err(), Some(Error::InvalidInput));

    let (sc, values) = sum_circuit_instance(&vec![7, P - 1], &vec![8, 3]).unwrap();
    assert_eq!(values, vec![7, P - 1, 8, 3, 15, 2]);
    assert_eq!(sc.circuit.public_values(&values), Ok(vec![7, P - 1, 8, 3, 15, 2]));
    assert_eq!(sum_circuit_instance(&vec![7], &vec![]).err(), Some(Error::InvalidInput));

    let (pc, values) = polyadd_circuit_instance(&vec![10, 96], &vec![20, 96], 97).unwrap();
    assert_eq!(values, vec![10, 96, 20, 96, 97, 30, 192, 0, 30, 1, 95]);
    assert_eq!(values[pc.added_poly[0].index], 30);
    assert_eq!(values[pc.added_poly[1].index], 95);
    assert_eq!(pc.circuit.public_values(&values), Ok(vec![10, 96, 20, 96, 97, 30, 95]));
    assert_eq!(polyadd_circuit_instance(&vec![10], &vec![20], 0).err(), Some(Error::InvalidInput));
}

#[test]
fn the_fibonacci_circuit_chains_additions() {
    let fc = fibonacci_circuit(32);
    assert_eq!(fc.initial_a, Target { index: 0 });
    assert_eq!(fc.initial_b, Target { index: 1 });
    assert_eq!(fc.result, Target { index: 32 });
    assert_eq!(fc.circuit.num_targets(), 33);
    assert_eq!(fc.circuit.num_constraints(), 31);
    assert_eq!(fc.circuit.public_inputs(), &vec![fc.initial_a, fc.initial_b, fc.result]);
    let values = fibonacci_witness(32, 0, 1).unwrap().finalize(&fc.circuit).unwrap();
    assert_eq!(values[32], 2178309);
    assert_eq!(values[10], 55);
    assert_eq!(fc.circuit.public_values(&values), Ok(vec![0, 1, 2178309]));
    assert_eq!(fc.circuit.public_values(&vec![0, 1]), Err(Error::InvalidInput));
}

#[test]
fn the_smallest_fibonacci_circuit_has_no_addition() {
    let fc = fibonacci_circuit(1);
    assert_eq!(fc.circuit.num_targets(), 2);
    assert_eq!(fc.circuit.num_constraints(), 0);
    assert_eq!(fc.result, fc.initial_b);
    let values = fibonacci_witness(1, 5, 7).unwrap().finalize(&fc.circuit).unwrap();
    assert_eq!(values, vec![5, 7]);
}

#[test]
fn the_fibonacci_witness_wraps_around_the_modulus() {
    let fc = fibonacci_circuit(3);
    let values = fibonacci_witness(3, P - 1, P - 1).unwrap().finalize(&fc.circuit).unwrap();
    assert_eq!(values, vec![P - 1, P - 1, P - 2, P - 3]);
    assert_eq!(fibonacci_witness(3, P, 0).err(), Some(Error::InvalidInput));
    assert_eq!(fibonacci_witness(3, 0, P).err(), Some(Error::InvalidInput));
}

#[test]
fn a_wrong_fibonacci_value_is_a_constraint_violation() {
    let fc = fibonacci_circuit(4);
    let mut w = Witness::new();
    for (index, value) in [0u32, 1, 1, 2, 4].iter().enumerate() {
        w.set(Target { index }, *value).unwrap();
    }
    assert_eq!(w.finalize(&fc.circuit), Err(Error::ConstraintViolation { row: 0, constraint_id: 2 }));
}

#[test]
fn the_polyadd_circuit_divides_every_sum_by_the_modulus() {
    let pc = polyadd_circuit(3);
    let t = |index| Target { index };
    assert_eq!(pc.poly1, vec![t(0), t(1), t(2)]);
    assert_eq!(pc.poly2, vec![t(3), t(4), t(5)]);
    assert_eq!(pc.modulus, t(6));
    assert_eq!(pc.added_poly, vec![t(11), t(13), t(15)]);
    assert_eq!(pc.circuit.num_targets(), 16);
    assert_eq!(pc.circuit.num_constraints(), 13);
    let constraints = pc.circuit.constraints();
    assert_eq!(constraints[3], Constraint::NonZero(t(6)));
    assert_eq!(constraints[5], Constraint::Less { value: t(11), bound: t(6) });
    assert_eq!(constraints[6], Constraint::NoWrap { quotient: t(10), divisor: t(6), remainder: t(11) });
    assert_eq!(constraints[12], Constraint::NoWrap { quotient: t(14), divisor: t(6), remainder: t(15) });
    assert_eq!(
        pc.circuit.public_inputs(),
        &vec![t(0), t(1), t(2), t(3), t(4), t(5), t(6), t(11), t(13), t(15)]
    );
    let empty = polyadd_circuit(0);
    assert_eq!(empty.circuit.num_targets(), 1);
    assert_eq!(empty.circuit.num_constraints(), 0);
    assert_eq!(empty.circuit.public_inputs(), &vec![t(0)]);
}

#[test]
fn the_polyadd_witness_satisfies_its_circuit() {
    let m = 536870939u32;
    let poly1 = vec![1u32, 536870938, 5, 0, 400000000];
    let poly2 = vec![2u32, 536870938, 536870934, 0, 300000000];
    let pc = polyadd_circuit(5);
    let values = polyadd_witness(&poly1, &poly2, m).unwrap().finalize(&pc.circuit).unwrap();
    for i in 0..5 {
        assert_eq!(values[pc.poly1[i].index], poly1[i]);
        assert_eq!(values[pc.poly2[i].index], poly2[i]);
        assert_eq!(values[pc.added_poly[i].index], (poly1[i] + poly2[i]) % m);
    }
    assert_eq!(values[pc.modulus.index], m);
    let public = pc.circuit.public_values(&values).unwrap();
    assert_eq!(public.len(), 16);
    assert_eq!(&public[11..], &[3, 536870937, 0, 0, 163129061]);
}

#[test]
fn a_sum_that_reaches_the_field_modulus_is_reduced_in_the_field_first() {
    // (p - 1) + 5 is 4 in the field, so the remainder modulo 3 is 1.
    let pc = polyadd_circuit(1);
    let values = polyadd_witness(&vec![P - 1], &vec![5], 3).unwrap().finalize(&pc.circuit).unwrap();
    assert_eq!(values, vec![P - 1, 5, 3, 4, 1, 1]);
}

#[test]
fn the_polyadd_witness_rejects_invalid_input() {
    assert_eq!(polyadd_witness(&vec![1, 2], &vec![1], 7).err(), Some(Error::InvalidInput));
    assert_eq!(polyadd_witness(&vec![1], &vec![1], 0).err(), Some(Error::InvalidInput));
    assert_eq!(polyadd_witness(&vec![1], &vec![1], P).err(), Some(Error::InvalidInput));
    assert_eq!(polyadd_witness(&vec![P], &vec![1], 7).err(), Some(Error::InvalidInput));
    assert_eq!(polyadd_witness(&vec![], &vec![], 7).err(), Some(Error::InvalidInput));
}

#[test]
fn a_wrong_remainder_in_the_polyadd_witness_is_rejected() {
    let pc = polyadd_circuit(1);
    let bind = |q: u32, r: u32| {
        let mut w = Witness::new();
        for (index, value) in [10u32, 20, 7, 30, q, r].iter().enumerate() {
            w.set(Target { index }, *value).unwrap();
        }
        w.finalize(&pc.circuit)
    };
    assert_eq!(bind(4, 2), Ok(vec![10, 20, 7, 30, 4, 2]));
    assert_eq!(bind(3, 9), Err(Error::RangeViolation { constraint_id: 3 }));
    assert_eq!(bind(4, 3), Err(Error::ConstraintViolation { row: 0, constraint_id: 2 }));
}

#[test]
fn the_sum_circuit_adds_in_the_field() {
    let sc = sum_circuit(2);
    let t = |index| Target { index };
    assert_eq!(sc.poly1, vec![t(0), t(1)]);
    assert_eq!(sc.poly2, vec![t(2), t(3)]);
    assert_eq!(sc.added_poly, vec![t(4), t(5)]);
    assert_eq!(sc.circuit.num_constraints(), 2);
    assert_eq!(sc.circuit.public_inputs(), &vec![t(0), t(1), t(2), t(3), t(4), t(5)]);
    let values = sum_witness(&vec![7, P - 1], &vec![8, 3]).unwrap().finalize(&sc.circuit).unwrap();
    assert_eq!(values, vec![7, P - 1, 8, 3, 15, 2]);
    assert_eq!(sum_witness(&vec![7], &vec![8, 3]).err(), Some(Error::InvalidInput));
    assert_eq!(sum_witness(&vec![P], &vec![8]).err(), Some(Error::InvalidInput));
    let empty = sum_circuit(0);
    assert_eq!(empty.circuit.num_targets(), 0);
    assert_eq!(sum_witness(&vec![], &vec![]).unwrap().finalize(&empty.circuit), Ok(vec![]));
}
