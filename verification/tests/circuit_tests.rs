use air_core::air::Expr;
use air_core::circuit::{check_holds, Circuit, Constraint, Target};
use air_core::error::Error;
use air_core::gadgets::modular::{has_nonzero, CircuitBuilderModular};
use air_core::witness::Witness;

const P: u32 = 2147483647;

/// A circuit with a dividend, a modulus, and their quotient and remainder.
fn division_circuit() -> (Circuit, Target, Target, Target, Target) {
    let mut circuit = Circuit::new();
    let a = circuit.add_virtual_target();
    let b = circuit.add_virtual_target();
    let (q, r) = circuit.div_rem(a, b).unwrap();
    (circuit, a, b, q, r)
}

fn finalize_division(a: u32, b: u32, q: u32, r: u32) -> Result<Vec<u32>, Error> {
    let (circuit, ta, tb, tq, tr) = division_circuit();
    let mut w = Witness::new();
    w.set(ta, a).unwrap();
    w.set(tb, b).unwrap();
    w.set(tq, q).unwrap();
    w.set(tr, r).unwrap();
    w.finalize(&circuit)
}

#[test]
fn div_rem_adds_two_targets_and_four_constraints() {
    let (circuit, a, b, q, r) = division_circuit();
    assert_eq!((a.index, b.index, q.index, r.index), (0, 1, 2, 3));
    assert_eq!(circuit.num_targets(), 4);
    assert_eq!(circuit.num_constraints(), 4);
    let identity = Expr::Cur(0).minus(Expr::Cur(2).times(Expr::Cur(1)).plus(Expr::Cur(3)));
    assert_eq!(
        circuit.constraints(),
        &vec![
            Constraint::NonZero(b),
            Constraint::Zero(identity),
            Constraint::Less { value: r, bound: b },
            Constraint::NoWrap { quotient: q, divisor: b, remainder: r },
        ]
    );
}

#[test]
fn the_modulus_is_asserted_nonzero_once() {
    let mut circuit = Circuit::new();
    let a = circuit.add_virtual_target();
    let c = circuit.add_virtual_target();
    let b = circuit.add_virtual_target();
    assert!(!has_nonzero(&circuit, b));
    circuit.div_rem(a, b).unwrap();
    assert!(has_nonzero(&circuit, b));
    assert_eq!(circuit.num_constraints(), 4);
    let r = circuit.rem(c, b).unwrap();
    assert_eq!(r.index, 6);
    assert_eq!(circuit.num_constraints(), 7);
    let nonzero = circuit.constraints().iter().filter(|c| matches!(c, Constraint::NonZero(_))).count();
    assert_eq!(nonzero, 1);
    // A modulus that is a nonzero constant needs no such constraint.
    let five = circuit.constant(5).unwrap();
    circuit.div_rem(a, five).unwrap();
    assert!(!has_nonzero(&circuit, five));
    assert_eq!(circuit.num_constraints(), 10);
}

#[test]
fn a_zero_constant_as_modulus_fails_before_any_witness() {
    let mut circuit = Circuit::new();
    let a = circuit.add_virtual_target();
    let zero = circuit.constant(0).unwrap();
    assert_eq!(circuit.div_rem(a, zero), Err(Error::DivisionByZero));
    assert_eq!(circuit.rem(a, zero), Err(Error::DivisionByZero));
    assert_eq!(circuit.num_targets(), 2);
    assert_eq!(circuit.num_constraints(), 0);
}

#[test]
fn div_rem_rejects_targets_of_another_circuit() {
    let mut circuit = Circuit::new();
    let a = circuit.add_virtual_target();
    let stranger = Target { index: 5 };
    assert_eq!(circuit.div_rem(a, stranger), Err(Error::InvalidInput));
    assert_eq!(circuit.div_rem(stranger, a), Err(Error::InvalidInput));
    assert_eq!(circuit.rem(stranger, a), Err(Error::InvalidInput));
    assert_eq!(circuit.num_targets(), 1);
}

#[test]
fn the_gadget_accepts_the_quotient_and_remainder_of_the_integers() {
    for (a, b) in [(7u32, 3u32), (0, 1), (0, 5), (5, 5), (4, 5), (P - 1, 1), (P - 1, P - 1), (P - 1, 2), (123456789, 1000)] {
        let values = finalize_division(a, b, a / b, a % b).unwrap();
        assert_eq!(values, vec![a, b, a / b, a % b]);
    }
}

#[test]
fn the_gadget_rejects_a_remainder_out_of_range_though_the_identity_holds() {
    // 7 = 1 * 3 + 4 in the field, and 4 is no remainder modulo 3.
    assert_eq!(finalize_division(7, 3, 1, 4), Err(Error::RangeViolation { constraint_id: 2 }));
    // 7 = 3 * 3 + (p - 2): the remainder is "negative".
    assert_eq!(finalize_division(7, 3, 3, P - 2), Err(Error::RangeViolation { constraint_id: 2 }));
    assert_eq!(finalize_division(7, 3, 0, 7), Err(Error::RangeViolation { constraint_id: 2 }));
    assert_eq!(finalize_division(7, 3, 2, 3), Err(Error::ConstraintViolation { row: 0, constraint_id: 1 }));
}

#[test]
fn the_gadget_rejects_a_quotient_that_wraps_around_the_modulus() {
    // 1431655767 * 3 = 2 * p + 7, so 7 = q * 3 + 0 in the field with a remainder in range.
    assert_eq!(
        finalize_division(7, 3, 1431655767, 0),
        Err(Error::RangeViolation { constraint_id: 3 })
    );
}

#[test]
fn the_gadget_rejects_a_wrong_quotient() {
    assert_eq!(
        finalize_division(7, 3, 1, 1),
        Err(Error::ConstraintViolation { row: 0, constraint_id: 1 })
    );
}

#[test]
fn a_zero_modulus_in_the_witness_is_a_division_by_zero() {
    assert_eq!(finalize_division(7, 0, 0, 7), Err(Error::DivisionByZero));
}

#[test]
fn binding_is_idempotent_and_refuses_another_value() {
    let mut w = Witness::new();
    let t = Target { index: 3 };
    assert_eq!(w.get(t), None);
    assert_eq!(w.set(t, 5), Ok(()));
    assert_eq!(w.set(t, 5), Ok(()));
    assert_eq!(w.get(t), Some(5));
    assert_eq!(w.set(t, 6), Err(Error::DuplicateAssignment { target: 3 }));
    assert_eq!(w.get(t), Some(5));
    assert_eq!(w.set(Target { index: 4 }, P), Err(Error::InvalidInput));
    assert_eq!(w.get(Target { index: 4 }), None);
    assert_eq!(w.set(Target { index: 4 }, P - 1), Ok(()));
}

#[test]
fn finalize_lists_the_targets_without_a_value() {
    let (circuit, a, _b, _q, r) = division_circuit();
    let mut w = Witness::new();
    assert_eq!(
        Witness::new().finalize(&circuit),
        Err(Error::IncompleteWitness { unbound: vec![0, 1, 2, 3] })
    );
    w.set(r, 1).unwrap();
    w.set(a, 7).unwrap();
    assert_eq!(w.finalize(&circuit), Err(Error::IncompleteWitness { unbound: vec![1, 2] }));
}

#[test]
fn constants_need_no_binding_and_refuse_another_value() {
    let mut circuit = Circuit::new();
    let a = circuit.add_virtual_target();
    let three = circuit.constant(3).unwrap();
    assert_eq!(circuit.constant_of(three), Some(3));
    assert_eq!(circuit.constant_of(a), None);
    assert_eq!(circuit.constant_of(Target { index: 9 }), None);
    assert_eq!(circuit.constant(P), Err(Error::InvalidInput));
    let (q, r) = circuit.div_rem(a, three).unwrap();
    let mut w = Witness::new();
    w.set(a, 7).unwrap();
    w.set(q, 2).unwrap();
    w.set(r, 1).unwrap();
    assert_eq!(w.finalize(&circuit), Ok(vec![7, 3, 2, 1]));
    let mut w = Witness::new();
    w.set(a, 7).unwrap();
    w.set(three, 3).unwrap();
    w.set(q, 2).unwrap();
    w.set(r, 1).unwrap();
    assert_eq!(w.finalize(&circuit), Ok(vec![7, 3, 2, 1]));
    let mut w = Witness::new();
    w.set(a, 7).unwrap();
    w.set(three, 4).unwrap();
    w.set(q, 2).unwrap();
    w.set(r, 1).unwrap();
    assert_eq!(w.finalize(&circuit), Err(Error::DuplicateAssignment { target: 1 }));
}

#[test]
fn gates_constrain_their_output() {
    let mut circuit = Circuit::new();
    let targets = circuit.add_virtual_targets(2);
    let (a, b) = (targets[0], targets[1]);
    let sum = circuit.add(a, b).unwrap();
    let difference = circuit.sub(a, b).unwrap();
    let product = circuit.mul(a, b).unwrap();
    circuit.connect(sum, sum).unwrap();
    assert_eq!((sum.index, difference.index, product.index), (2, 3, 4));
    assert_eq!(circuit.num_constraints(), 4);
    assert_eq!(circuit.add(a, Target { index: 7 }), Err(Error::InvalidInput));
    assert_eq!(circuit.sub(Target { index: 7 }, a), Err(Error::InvalidInput));
    assert_eq!(circuit.mul(a, Target { index: 7 }), Err(Error::InvalidInput));
    assert_eq!(circuit.connect(a, Target { index: 7 }), Err(Error::InvalidInput));
    assert_eq!(circuit.register(Constraint::NonZero(Target { index: 7 })), Err(Error::InvalidInput));
    assert_eq!(circuit.register(Constraint::Zero(Expr::Next(0))), Err(Error::InvalidInput));
    assert_eq!(circuit.num_constraints(), 4);
    let assign = |values: [u32; 5]| {
        let mut w = Witness::new();
        for (i, v) in values.iter().enumerate() {
            w.set(Target { index: i }, *v).unwrap();
        }
        w.finalize(&circuit)
    };
    // (p - 1) + 3 = 2, (p - 1) - 3 = p - 4, (p - 1) * 3 = p - 3
    assert_eq!(assign([P - 1, 3, 2, P - 4, P - 3]), Ok(vec![P - 1, 3, 2, P - 4, P - 3]));
    assert_eq!(
        assign([P - 1, 3, 3, P - 4, P - 3]),
        Err(Error::ConstraintViolation { row: 0, constraint_id: 0 })
    );
    assert_eq!(
        assign([P - 1, 3, 2, 4, P - 3]),
        Err(Error::ConstraintViolation { row: 0, constraint_id: 1 })
    );
    assert_eq!(
        assign([P - 1, 3, 2, P - 4, 3]),
        Err(Error::ConstraintViolation { row: 0, constraint_id: 2 })
    );
}

#[test]
fn public_inputs_keep_the_order_of_their_declaration() {
    let mut circuit = Circuit::new();
    let a = circuit.add_virtual_target();
    let b = circuit.add_virtual_target();
    circuit.register_public_input(b).unwrap();
    circuit.register_public_input(a).unwrap();
    assert_eq!(circuit.register_public_input(Target { index: 2 }), Err(Error::InvalidInput));
    assert_eq!(circuit.public_inputs(), &vec![b, a]);
}

#[test]
fn constraints_are_checked_against_values() {
    let values = vec![6, 4, 1, 2];
    let t = |index| Target { index };
    assert!(check_holds(&Constraint::Less { value: t(1), bound: t(0) }, &values));
    assert!(!check_holds(&Constraint::Less { value: t(0), bound: t(0) }, &values));
    assert!(check_holds(&Constraint::NonZero(t(2)), &values));
    assert!(check_holds(
        &Constraint::NoWrap { quotient: t(0), divisor: t(1), remainder: t(3) },
        &values
    ));
    let large = vec![P - 1, P - 1, P - 1];
    assert!(!check_holds(
        &Constraint::NoWrap { quotient: t(0), divisor: t(1), remainder: t(2) },
        &large
    ));
    let edge = vec![2, 1073741823, 0, 1];
    assert!(check_holds(&Constraint::NoWrap { quotient: t(0), divisor: t(1), remainder: t(2) }, &edge));
    assert!(!check_holds(&Constraint::NoWrap { quotient: t(0), divisor: t(1), remainder: t(3) }, &edge));
}

#[test]
fn modular_addition_is_checked_by_the_gadget() {
    // added[i] = (poly1[i] + poly2[i]) mod m, with the gadget's constraints on every coefficient.
    let m = 536870939u32;
    let poly1 = [1u32, 536870938, 5, 0, 400000000];
    let poly2 = [2u32, 536870938, 536870934, 0, 300000000];
    let n = poly1.len();
    let mut circuit = Circuit::new();
    let t1 = circuit.add_virtual_targets(n);
    let t2 = circuit.add_virtual_targets(n);
    let modulus = circuit.add_virtual_target();
    let mut sums = Vec::new();
    for i in 0..n {
        sums.push(circuit.add(t1[i], t2[i]).unwrap());
    }
    let mut quotients = Vec::new();
    let mut added = Vec::new();
    for i in 0..n {
        let (q, r) = circuit.div_rem(sums[i], modulus).unwrap();
        quotients.push(q);
        added.push(r);
    }
    let assign = |claimed: &dyn Fn(usize) -> (u32, u32)| {
        let mut w = Witness::new();
        w.set(modulus, m).unwrap();
        for i in 0..n {
            w.set(t1[i], poly1[i]).unwrap();
            w.set(t2[i], poly2[i]).unwrap();
            w.set(sums[i], poly1[i] + poly2[i]).unwrap();
            let (q, r) = claimed(i);
            w.set(quotients[i], q).unwrap();
            w.set(added[i], r).unwrap();
        }
        w.finalize(&circuit)
    };
    let values = assign(&|i| ((poly1[i] + poly2[i]) / m, (poly1[i] + poly2[i]) % m)).unwrap();
    for i in 0..n {
        assert_eq!(values[added[i].index], (poly1[i] + poly2[i]) % m);
    }
    assert_eq!(values[added[1].index], 536870937);
    assert_eq!(values[added[4].index], 163129061);
    // The plain field subtraction of the modulus is no remainder: 3 - m is out of range.
    let wrong = assign(&|i| {
        if i == 0 {
            (1, P - (m - 3))
        } else {
            ((poly1[i] + poly2[i]) / m, (poly1[i] + poly2[i]) % m)
        }
    });
    assert!(matches!(wrong, Err(Error::RangeViolation { .. })));
    // The sum itself where it should have been reduced.
    let unreduced = assign(&|i| (0, poly1[i] + poly2[i]));
    assert!(matches!(unreduced, Err(Error::RangeViolation { .. })));
}
