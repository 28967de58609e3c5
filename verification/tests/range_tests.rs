use air_core::circuit::{Circuit, Constraint, Target};
use air_core::error::Error;
use air_core::gadgets::modular::CircuitBuilderModular;
use air_core::gadgets::range::{bound_by_bits, decompose, RangeTargets, MAX_BITS};
use air_core::witness::Witness;

const P: u32 = 2147483647;

fn bind_bits(w: &mut Witness, bits: &[Target], value: u32) {
    for (i, t) in bits.iter().enumerate() {
        w.set(*t, (value >> i) & 1).unwrap();
    }
}

#[test]
fn a_decomposition_adds_its_bits_and_their_constraints() {
    let mut circuit = Circuit::new();
    let value = circuit.add_virtual_target();
    let bits = decompose(&mut circuit, value, 4).unwrap();
    let t = |index| Target { index };
    assert_eq!(bits, vec![t(1), t(2), t(3), t(4)]);
    assert_eq!(circuit.num_targets(), 5);
    assert_eq!(circuit.num_constraints(), 5);
    assert_eq!(decompose(&mut circuit, t(9), 4), Err(Error::InvalidInput));
    assert_eq!(decompose(&mut circuit, value, MAX_BITS + 1), Err(Error::InvalidInput));
    assert_eq!(circuit.num_targets(), 5);
    assert_eq!(circuit.num_constraints(), 5);
}

#[test]
fn a_value_with_its_bits_satisfies_the_decomposition() {
    let mut circuit = Circuit::new();
    let value = circuit.add_virtual_target();
    let bits = decompose(&mut circuit, value, 4).unwrap();
    for v in 0..16u32 {
        let mut w = Witness::new();
        w.set(value, v).unwrap();
        bind_bits(&mut w, &bits, v);
        let values = w.finalize(&circuit).unwrap();
        assert_eq!(values[0], v);
        assert_eq!(values[1] + 2 * values[2] + 4 * values[3] + 8 * values[4], v);
    }
}

#[test]
fn a_value_of_more_bits_has_no_decomposition() {
    let mut circuit = Circuit::new();
    let value = circuit.add_virtual_target();
    let bits = decompose(&mut circuit, value, 4).unwrap();
    // The lowest four bits of 16 and of p - 1 do not make the value.
    for v in [16u32, 17, P - 1] {
        let mut w = Witness::new();
        w.set(value, v).unwrap();
        bind_bits(&mut w, &bits, v);
        assert_eq!(w.finalize(&circuit), Err(Error::ConstraintViolation { row: 0, constraint_id: 4 }));
    }
    // A "bit" that is two makes the sum right and is no bit.
    let mut w = Witness::new();
    w.set(value, 16).unwrap();
    for (t, b) in bits.iter().zip([0u32, 0, 0, 2]) {
        w.set(*t, b).unwrap();
    }
    assert_eq!(w.finalize(&circuit), Err(Error::ConstraintViolation { row: 0, constraint_id: 3 }));
    let mut w = Witness::new();
    w.set(value, 16).unwrap();
    for (t, b) in bits.iter().zip([P - 1, 1, 0, 2]) {
        w.set(*t, b).unwrap();
    }
    assert_eq!(w.finalize(&circuit), Err(Error::ConstraintViolation { row: 0, constraint_id: 0 }));
}

fn bounded_circuit(count: usize) -> (Circuit, Target, Target, RangeTargets) {
    let mut circuit = Circuit::new();
    let value = circuit.add_virtual_target();
    let bound = circuit.add_virtual_target();
    let added = bound_by_bits(&mut circuit, value, bound, count).unwrap();
    (circuit, value, bound, added)
}

fn finalize_bounded(count: usize, v: u32, b: u32, slack: u32) -> Result<Vec<u32>, Error> {
    let (circuit, value, bound, added) = bounded_circuit(count);
    let mut w = Witness::new();
    w.set(value, v).unwrap();
    w.set(bound, b).unwrap();
    w.set(added.slack, slack).unwrap();
    bind_bits(&mut w, &added.value_bits, v);
    bind_bits(&mut w, &added.slack_bits, slack);
    w.finalize(&circuit)
}

#[test]
fn bounding_adds_two_decompositions_and_a_slack() {
    let (circuit, _value, _bound, added) = bounded_circuit(3);
    let t = |index| Target { index };
    assert_eq!(added.value_bits, vec![t(2), t(3), t(4)]);
    assert_eq!(added.slack, t(5));
    assert_eq!(added.slack_bits, vec![t(6), t(7), t(8)]);
    assert_eq!(circuit.num_targets(), 9);
    assert_eq!(circuit.num_constraints(), 9);
    let mut circuit = Circuit::new();
    let value = circuit.add_virtual_target();
    assert_eq!(bound_by_bits(&mut circuit, value, t(3), 3).err(), Some(Error::InvalidInput));
    assert_eq!(bound_by_bits(&mut circuit, t(3), value, 3).err(), Some(Error::InvalidInput));
    assert_eq!(bound_by_bits(&mut circuit, value, value, 31).err(), Some(Error::InvalidInput));
    assert_eq!(circuit.num_targets(), 1);
}

#[test]
fn a_value_below_its_bound_satisfies_the_bits() {
    for (v, b) in [(0u32, 1u32), (5, 7), (6, 7), (0, 8), (7, 8)] {
        assert!(finalize_bounded(3, v, b, b - 1 - v).is_ok());
    }
    let top = 1u32 << 30;
    assert!(finalize_bounded(30, top - 1, top, 0).is_ok());
    assert!(finalize_bounded(30, 0, top, top - 1).is_ok());
    assert!(finalize_bounded(30, 536870938, 536870939, 0).is_ok());
}

#[test]
fn a_value_at_or_above_its_bound_has_no_bits() {
    // The slack of 7 below 7 is "-1", and no three bits make it.
    assert!(finalize_bounded(3, 7, 7, P - 1).is_err());
    assert!(finalize_bounded(3, 7, 5, P - 3).is_err());
    // Any other slack breaks the sum.
    for slack in 0..8u32 {
        assert!(finalize_bounded(3, 7, 7, slack).is_err());
        assert!(finalize_bounded(3, 6, 5, slack).is_err());
    }
}

#[test]
fn the_bits_alone_admit_a_zero_bound() {
    // (2^30 - 1) + (2^30 - 1) + 1 is the modulus, which is zero in the field.
    let top = (1u32 << 30) - 1;
    let (mut circuit, value, bound, added) = bounded_circuit(30);
    let assign = |circuit: &Circuit| {
        let mut w = Witness::new();
        w.set(value, top).unwrap();
        w.set(bound, 0).unwrap();
        w.set(added.slack, top).unwrap();
        bind_bits(&mut w, &added.value_bits, top);
        bind_bits(&mut w, &added.slack_bits, top);
        w.finalize(circuit)
    };
    assert!(assign(&circuit).is_ok());
    // With the bound asserted nonzero the assignment is rejected.
    circuit.register(Constraint::NonZero(bound)).unwrap();
    assert_eq!(assign(&circuit), Err(Error::DivisionByZero));
}

#[test]
fn the_remainder_of_a_division_can_be_bounded_by_bits() {
    let mut circuit = Circuit::new();
    let a = circuit.add_virtual_target();
    let b = circuit.add_virtual_target();
    let (q, r) = circuit.div_rem(a, b).unwrap();
    let added = bound_by_bits(&mut circuit, r, b, 30).unwrap();
    let assign = |va: u32, vb: u32, vq: u32, vr: u32| {
        let mut w = Witness::new();
        w.set(a, va).unwrap();
        w.set(b, vb).unwrap();
        w.set(q, vq).unwrap();
        w.set(r, vr).unwrap();
        let slack = vb.wrapping_sub(1).wrapping_sub(vr) % P;
        w.set(added.slack, slack).unwrap();
        bind_bits(&mut w, &added.value_bits, vr);
        bind_bits(&mut w, &added.slack_bits, slack);
        w.finalize(&circuit)
    };
    assert!(assign(1000000007, 536870939, 1, 463129068).is_ok());
    assert_eq!(assign(7, 3, 1, 4), Err(Error::RangeViolation { constraint_id: 2 }));
}
