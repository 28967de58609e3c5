//! The two computations as circuits: the Fibonacci recurrence by additions,
//! and the sum of two polynomials under a modulus by the division gadget.

use crate::air::expr_value;
use crate::circuit::{
    constraint_holds, sum_constraint, target, Circuit, CircuitView, Constraint, Target,
};
use crate::error::Error;
use crate::field::{
    all_canonical, check_canonical, field_add, is_canonical, lemma_difference_is_zero_iff_equal,
    lemma_field_results_are_canonical, m31_add, MODULUS,
};
use crate::gadgets::modular::{
    division_identity, lemma_division_constraints_are_exact, needs_nonzero, with_division,
    CircuitBuilderModular,
};
use crate::matrix::cell;
use crate::poly_add::valid_polyadd_input;
use crate::witness::{assignment, is_complete, lemma_satisfying_witness_is_accepted, Witness};
use vstd::arithmetic::div_mod::lemma_small_mod;
use vstd::prelude::*;

verus! {

/// The circuit of the Fibonacci recurrence over `iterations` values after
/// the first: target `k + 2` is the sum of the targets `k` and `k + 1`. The two
/// initial values and the last value are public.
pub open spec fn fibonacci_circuit_view(iterations: nat) -> CircuitView {
    CircuitView {
        constants: Seq::new(iterations + 1, |i: int| None::<u32>),
        constraints: Seq::new(
            (iterations - 1) as nat,
            |k: int| sum_constraint(target(k), target(k + 1), target(k + 2)),
        ),
        public_inputs: seq![target(0), target(1), target(iterations as int)],
    }
}

/// The circuit of the Fibonacci recurrence, with its named targets.
pub struct FibonacciCircuit {
    /// The circuit.
    pub circuit: Circuit,
    /// The first initial value.
    pub initial_a: Target,
    /// The second initial value.
    pub initial_b: Target,
    /// The last value of the recurrence.
    pub result: Target,
}

/// Builds the circuit of the Fibonacci recurrence that reaches the value
/// number `iterations`, counted from the first initial value as number zero.
pub fn fibonacci_circuit(iterations: usize) -> (fc: FibonacciCircuit)
    requires
        1 <= iterations < usize::MAX,
    ensures
        fc.circuit.wf(),
        fc.circuit@ == fibonacci_circuit_view(iterations as nat),
        fc.initial_a == target(0),
        fc.initial_b == target(1),
        fc.result == target(iterations as int),
{
    let mut circuit = Circuit::new();
    let initial_a = circuit.add_virtual_target();
    let initial_b = circuit.add_virtual_target();
    let mut prev = initial_a;
    let mut cur = initial_b;
    let mut k: usize = 1;
    while k < iterations
        invariant
            1 <= k <= iterations < usize::MAX,
            circuit.wf(),
            circuit@.constants =~= Seq::new((k + 1) as nat, |i: int| None::<u32>),
            circuit@.constraints =~= Seq::new(
                (k - 1) as nat,
                |j: int| sum_constraint(target(j), target(j + 1), target(j + 2)),
            ),
            circuit@.public_inputs.len() == 0,
            prev == target(k - 1),
            cur == target(k as int),
        decreases iterations - k,
    {
        match circuit.add(prev, cur) {
            Ok(temp) => {
                prev = cur;
                cur = temp;
            },
            Err(_) => {
                assert(false);
            },
        }
        k += 1;
    }
    let declared = circuit.register_public_input(initial_a);
    assert(declared is Ok);
    let declared = circuit.register_public_input(initial_b);
    assert(declared is Ok);
    let declared = circuit.register_public_input(cur);
    assert(declared is Ok);
    proof {
        let expected = fibonacci_circuit_view(iterations as nat);
        assert(circuit@.constants =~= expected.constants);
        assert(circuit@.constraints =~= expected.constraints);
        assert(circuit@.public_inputs =~= expected.public_inputs);
    }
    FibonacciCircuit { circuit, initial_a, initial_b, result: cur }
}

/// The value number `k` of the recurrence that starts with `a` and `b`.
pub open spec fn fibonacci_value(a: u32, b: u32, k: nat) -> u32
    decreases k,
{
    if k == 0 {
        a
    } else if k == 1 {
        b
    } else {
        field_add(
            fibonacci_value(a, b, (k - 2) as nat) as int,
            fibonacci_value(a, b, (k - 1) as nat) as int,
        ) as u32
    }
}

/// The witness of the recurrence: target `k` has the value number `k`.
pub open spec fn fibonacci_witness_map(iterations: nat, a: u32, b: u32) -> Map<usize, u32> {
    Map::new(|k: usize| k <= iterations, |k: usize| fibonacci_value(a, b, k as nat))
}

/// Computes the witness of the Fibonacci circuit that starts with `a` and `b`.
///
/// Fails with `InvalidInput` where `a` or `b` is no canonical representative.
pub fn fibonacci_witness(iterations: usize, a: u32, b: u32) -> (res: Result<Witness, Error>)
    requires
        1 <= iterations < usize::MAX,
    ensures
        match res {
            Ok(w) => {
                &&& is_canonical(a) && is_canonical(b)
                &&& w.wf()
                &&& w@ == fibonacci_witness_map(iterations as nat, a, b)
            },
            Err(e) => !(is_canonical(a) && is_canonical(b)) && e == Error::InvalidInput,
        },
{
    if a >= MODULUS || b >= MODULUS {
        return Err(Error::InvalidInput);
    }
    let mut w = Witness::new();
    let bound = w.set(Target { index: 0 }, a);
    assert(bound is Ok);
    let bound = w.set(Target { index: 1 }, b);
    assert(bound is Ok);
    let mut prev = a;
    let mut cur = b;
    let mut k: usize = 1;
    assert(w@ =~= fibonacci_witness_map(1, a, b));
    while k < iterations
        invariant
            1 <= k <= iterations < usize::MAX,
            is_canonical(a),
            is_canonical(b),
            w.wf(),
            w@ == fibonacci_witness_map(k as nat, a, b),
            prev == fibonacci_value(a, b, (k - 1) as nat),
            cur == fibonacci_value(a, b, k as nat),
            is_canonical(prev),
            is_canonical(cur),
        decreases iterations - k,
    {
        let next = m31_add(prev, cur);
        let bound = w.set(Target { index: k + 1 }, next);
        assert(bound is Ok);
        assert(w@ =~= fibonacci_witness_map((k + 1) as nat, a, b));
        prev = cur;
        cur = next;
        k += 1;
    }
    Ok(w)
}

/// The values of the recurrence are canonical representatives.
pub proof fn lemma_fibonacci_value_is_canonical(a: u32, b: u32, k: nat)
    requires
        is_canonical(a),
        is_canonical(b),
    ensures
        is_canonical(fibonacci_value(a, b, k)),
    decreases k,
{
    if k >= 2 {
        lemma_fibonacci_value_is_canonical(a, b, (k - 1) as nat);
        lemma_fibonacci_value_is_canonical(a, b, (k - 2) as nat);
        lemma_field_results_are_canonical(
            fibonacci_value(a, b, (k - 2) as nat) as int,
            fibonacci_value(a, b, (k - 1) as nat) as int,
        );
    }
}

/// The witness of the recurrence is complete for the Fibonacci circuit and
/// satisfies it: the last target holds the value number `iterations`.
pub proof fn lemma_fibonacci_witness_satisfies(iterations: nat, a: u32, b: u32)
    requires
        1 <= iterations < usize::MAX,
        is_canonical(a),
        is_canonical(b),
    ensures
        is_complete(
            fibonacci_circuit_view(iterations),
            fibonacci_witness_map(iterations, a, b),
        ),
        fibonacci_circuit_view(iterations).satisfied_by(
            assignment(
                fibonacci_circuit_view(iterations),
                fibonacci_witness_map(iterations, a, b),
            ),
        ),
        assignment(
            fibonacci_circuit_view(iterations),
            fibonacci_witness_map(iterations, a, b),
        )[iterations as int] == fibonacci_value(a, b, iterations),
{
    let view = fibonacci_circuit_view(iterations);
    let w = fibonacci_witness_map(iterations, a, b);
    let values = assignment(view, w);
    assert forall|i: int| 0 <= i <= iterations implies #[trigger] values[i] == fibonacci_value(
        a,
        b,
        i as nat,
    ) && is_canonical(values[i]) by {
        lemma_fibonacci_value_is_canonical(a, b, i as nat);
        assert(w.contains_key(i as usize));
    }
    assert forall|k: int| 0 <= k < view.constraints.len() implies constraint_holds(
        #[trigger] view.constraints[k],
        values,
    ) by {
        lemma_sum_constraint_holds(values, target(k), target(k + 1), target(k + 2));
        assert(values[k + 2] == fibonacci_value(a, b, (k + 2) as nat));
        assert(values[k + 1] == fibonacci_value(a, b, (k + 1) as nat));
        assert(values[k] == fibonacci_value(a, b, k as nat));
    }
}

/// The constraint of a sum holds exactly where the output is the sum in the field.
pub proof fn lemma_sum_constraint_holds(values: Seq<u32>, a: Target, b: Target, out: Target)
    requires
        a.index < values.len(),
        b.index < values.len(),
        out.index < values.len(),
        all_canonical(values),
    ensures
        constraint_holds(sum_constraint(a, b, out), values) <==> values[out.index as int]
            == field_add(values[a.index as int] as int, values[b.index as int] as int),
{
    reveal_with_fuel(expr_value, 3);
    assert(cell(values, values.len(), 0, a.index as int) == values[a.index as int]);
    assert(cell(values, values.len(), 0, b.index as int) == values[b.index as int]);
    assert(cell(values, values.len(), 0, out.index as int) == values[out.index as int]);
    let sum = field_add(values[a.index as int] as int, values[b.index as int] as int);
    lemma_field_results_are_canonical(values[a.index as int] as int, values[b.index as int] as int);
    lemma_difference_is_zero_iff_equal(values[out.index as int] as int, sum);
}

/// The circuit that adds two polynomials of `terms` coefficients in the
/// field: target `2 * terms + k` is the sum of the targets `k` and `terms + k`.
/// Every target is public.
pub open spec fn sum_circuit_view(terms: nat) -> CircuitView {
    let n = terms as int;
    CircuitView {
        constants: Seq::new(3 * terms, |i: int| None::<u32>),
        constraints: Seq::new(
            terms,
            |k: int| sum_constraint(target(k), target(n + k), target(2 * n + k)),
        ),
        public_inputs: Seq::new(3 * terms, |i: int| target(i)),
    }
}

/// The circuit of the addition of two polynomials in the field, with its named targets.
pub struct SumCircuit {
    /// The circuit.
    pub circuit: Circuit,
    /// The coefficients of the first polynomial.
    pub poly1: Vec<Target>,
    /// The coefficients of the second polynomial.
    pub poly2: Vec<Target>,
    /// The coefficients of the sum.
    pub added_poly: Vec<Target>,
}

/// Builds the circuit that adds two polynomials of `terms` coefficients in the field.
pub fn sum_circuit(terms: usize) -> (sc: SumCircuit)
    requires
        3 * terms <= usize::MAX,
    ensures
        sc.circuit.wf(),
        sc.circuit@ == sum_circuit_view(terms as nat),
        sc.poly1@ == Seq::new(terms as nat, |i: int| target(i)),
        sc.poly2@ == Seq::new(terms as nat, |i: int| target(terms + i)),
        sc.added_poly@ == Seq::new(terms as nat, |i: int| target(2 * terms + i)),
{
    let mut circuit = Circuit::new();
    let poly1 = circuit.add_virtual_targets(terms);
    let poly2 = circuit.add_virtual_targets(terms);
    assert(circuit@.constants =~= Seq::new((2 * terms) as nat, |i: int| None::<u32>));
    let mut added_poly: Vec<Target> = Vec::with_capacity(terms);
    let mut i: usize = 0;
    while i < terms
        invariant
            i <= terms,
            3 * terms <= usize::MAX,
            circuit.wf(),
            circuit@.constants =~= Seq::new((2 * terms + i) as nat, |j: int| None::<u32>),
            circuit@.constraints =~= Seq::new(
                i as nat,
                |k: int| sum_constraint(target(k), target(terms + k), target(2 * terms + k)),
            ),
            circuit@.public_inputs.len() == 0,
            poly1@.len() == terms,
            poly2@.len() == terms,
            forall|j: int| 0 <= j < terms ==> #[trigger] poly1@[j] == target(j),
            forall|j: int| 0 <= j < terms ==> #[trigger] poly2@[j] == target(terms + j),
            added_poly@.len() == i,
            forall|j: int| 0 <= j < i ==> #[trigger] added_poly@[j] == target(2 * terms + j),
        decreases terms - i,
    {
        match circuit.add(poly1[i], poly2[i]) {
            Ok(sum) => {
                added_poly.push(sum);
            },
            Err(_) => {
                assert(false);
            },
        }
        i += 1;
    }
    let mut i: usize = 0;
    while i < 3 * terms
        invariant
            i <= 3 * terms <= usize::MAX,
            circuit.wf(),
            circuit@.constants =~= Seq::new((3 * terms) as nat, |j: int| None::<u32>),
            circuit@.constraints =~= Seq::new(
                terms as nat,
                |k: int| sum_constraint(target(k), target(terms + k), target(2 * terms + k)),
            ),
            circuit@.public_inputs =~= Seq::new(i as nat, |j: int| target(j)),
        decreases 3 * terms - i,
    {
        let declared = circuit.register_public_input(Target { index: i });
        assert(declared is Ok);
        i += 1;
    }
    proof {
        let expected = sum_circuit_view(terms as nat);
        assert(circuit@.constants =~= expected.constants);
        assert(circuit@.constraints =~= expected.constraints);
        assert(circuit@.public_inputs =~= expected.public_inputs);
        assert(poly1@ =~= Seq::new(terms as nat, |i: int| target(i)));
        assert(poly2@ =~= Seq::new(terms as nat, |i: int| target(terms + i)));
        assert(added_poly@ =~= Seq::new(terms as nat, |i: int| target(2 * terms + i)));
    }
    SumCircuit { circuit, poly1, poly2, added_poly }
}

/// Whether two polynomials can be added in the field: they have the same
/// number of coefficients, every coefficient is a canonical representative,
/// and a circuit can number three times that many targets.
pub open spec fn valid_sum_input(poly1: Seq<u32>, poly2: Seq<u32>) -> bool {
    &&& poly1.len() == poly2.len()
    &&& 3 * poly1.len() <= usize::MAX
    &&& all_canonical(poly1)
    &&& all_canonical(poly2)
}

/// The value of the target `k` of the circuit that adds `poly1` and
/// `poly2` in the field: a coefficient, or the sum of two coefficients.
pub open spec fn sum_value(poly1: Seq<u32>, poly2: Seq<u32>, k: int) -> u32 {
    let n = poly1.len() as int;
    if k < n {
        poly1[k]
    } else if k < 2 * n {
        poly2[k - n]
    } else {
        field_add(poly1[k - 2 * n] as int, poly2[k - 2 * n] as int) as u32
    }
}

/// Whether the target `k` has its value once the first `done` coefficients are handled.
pub open spec fn sum_bound(terms: int, done: int, k: int) -> bool {
    ||| 0 <= k < done
    ||| terms <= k < terms + done
    ||| 2 * terms <= k < 2 * terms + done
}

/// The witness of the addition in the field: every target has its value.
pub open spec fn sum_witness_map(poly1: Seq<u32>, poly2: Seq<u32>) -> Map<usize, u32> {
    Map::new(|k: usize| k < 3 * poly1.len(), |k: usize| sum_value(poly1, poly2, k as int))
}

/// Computes the witness of the circuit that adds `poly1` and `poly2` in the field.
///
/// Fails with `InvalidInput` where the input is not valid.
pub fn sum_witness(poly1: &Vec<u32>, poly2: &Vec<u32>) -> (res: Result<Witness, Error>)
    ensures
        match res {
            Ok(w) => {
                &&& valid_sum_input(poly1@, poly2@)
                &&& w.wf()
                &&& w@ == sum_witness_map(poly1@, poly2@)
            },
            Err(e) => !valid_sum_input(poly1@, poly2@) && e == Error::InvalidInput,
        },
{
    let n = poly1.len();
    if poly2.len() != n || n > usize::MAX / 3 {
        return Err(Error::InvalidInput);
    }
    if !check_canonical(poly1.as_slice()) || !check_canonical(poly2.as_slice()) {
        return Err(Error::InvalidInput);
    }
    let mut w = Witness::new();
    let ghost p1 = poly1@;
    let ghost p2 = poly2@;
    assert(w@ =~= Map::new(
        |k: usize| sum_bound(n as int, 0, k as int),
        |k: usize| sum_value(p1, p2, k as int),
    ));
    let mut i: usize = 0;
    while i < n
        invariant
            i <= n,
            n == p1.len(),
            p1 == poly1@,
            p2 == poly2@,
            valid_sum_input(p1, p2),
            w.wf(),
            w@ == Map::new(
                |k: usize| sum_bound(n as int, i as int, k as int),
                |k: usize| sum_value(p1, p2, k as int),
            ),
        decreases n - i,
    {
        let sum = m31_add(poly1[i], poly2[i]);
        let bound = w.set(Target { index: i }, poly1[i]);
        assert(bound is Ok);
        let bound = w.set(Target { index: n + i }, poly2[i]);
        assert(bound is Ok);
        let bound = w.set(Target { index: 2 * n + i }, sum);
        assert(bound is Ok);
        assert(w@ =~= Map::new(
            |k: usize| sum_bound(n as int, i + 1, k as int),
            |k: usize| sum_value(p1, p2, k as int),
        ));
        i += 1;
    }
    assert(w@ =~= sum_witness_map(p1, p2));
    Ok(w)
}

/// The witness of the addition in the field is complete for the circuit
/// and satisfies it.
pub proof fn lemma_sum_witness_satisfies(poly1: Seq<u32>, poly2: Seq<u32>)
    requires
        valid_sum_input(poly1, poly2),
    ensures
        is_complete(sum_circuit_view(poly1.len()), sum_witness_map(poly1, poly2)),
        sum_circuit_view(poly1.len()).satisfied_by(
            assignment(sum_circuit_view(poly1.len()), sum_witness_map(poly1, poly2)),
        ),
        forall|i: int|
            0 <= i < poly1.len() ==> #[trigger] assignment(
                sum_circuit_view(poly1.len()),
                sum_witness_map(poly1, poly2),
            )[2 * poly1.len() + i] == field_add(poly1[i] as int, poly2[i] as int),
{
    let n = poly1.len() as int;
    let view = sum_circuit_view(poly1.len());
    let w = sum_witness_map(poly1, poly2);
    let values = assignment(view, w);
    assert forall|k: int| 0 <= k < 3 * n implies #[trigger] values[k] == sum_value(
        poly1,
        poly2,
        k,
    ) && is_canonical(values[k]) by {
        assert(w.contains_key(k as usize));
    }
    assert forall|k: int| 0 <= k < view.constraints.len() implies constraint_holds(
        #[trigger] view.constraints[k],
        values,
    ) by {
        lemma_sum_constraint_holds(values, target(k), target(n + k), target(2 * n + k));
        assert(values[k] == sum_value(poly1, poly2, k));
        assert(values[n + k] == sum_value(poly1, poly2, n + k));
        assert(values[2 * n + k] == sum_value(poly1, poly2, 2 * n + k));
    }
    assert forall|i: int| 0 <= i < n implies #[trigger] values[2 * n + i] == field_add(
        poly1[i] as int,
        poly2[i] as int,
    ) by {
        assert(values[2 * n + i] == sum_value(poly1, poly2, 2 * n + i));
    }
}

/// The constraint number `k` of the circuit that adds two polynomials of
/// `terms` coefficients: first the sums, then once that the modulus is not
/// zero, then for each coefficient the division identity, the range of the
/// remainder and the bound on the quotient.
pub open spec fn polyadd_constraint(terms: nat, k: int) -> Constraint {
    let n = terms as int;
    let modulus = target(2 * n);
    if k < n {
        sum_constraint(target(k), target(n + k), target(2 * n + 1 + k))
    } else if k == n {
        Constraint::NonZero(modulus)
    } else {
        let i = (k - n - 1) / 3;
        let sum = target(2 * n + 1 + i);
        let q = target(3 * n + 1 + 2 * i);
        let r = target(3 * n + 2 + 2 * i);
        if (k - n - 1) % 3 == 0 {
            division_identity(sum, modulus, q, r)
        } else if (k - n - 1) % 3 == 1 {
            Constraint::Less { value: r, bound: modulus }
        } else {
            Constraint::NoWrap { quotient: q, divisor: modulus, remainder: r }
        }
    }
}

/// The number of constraints of that circuit.
pub open spec fn polyadd_constraint_count(terms: nat) -> nat {
    if terms == 0 {
        0
    } else {
        4 * terms + 1
    }
}

/// The public input number `i` of that circuit: the coefficients of the
/// two polynomials, the modulus, and the coefficients of the sum.
pub open spec fn polyadd_public_input(terms: nat, i: int) -> Target {
    let n = terms as int;
    if i <= 2 * n {
        target(i)
    } else {
        target(3 * n + 2 + 2 * (i - 2 * n - 1))
    }
}

/// The circuit that adds two polynomials of `terms` coefficients under a
/// modulus. Its targets are the coefficients of the first polynomial, those of
/// the second, the modulus, the sums, and for each coefficient the quotient and
/// the remainder of its sum by the modulus.
pub open spec fn polyadd_circuit_view(terms: nat) -> CircuitView {
    CircuitView {
        constants: Seq::new(5 * terms + 1, |i: int| None::<u32>),
        constraints: Seq::new(
            polyadd_constraint_count(terms),
            |k: int| polyadd_constraint(terms, k),
        ),
        public_inputs: Seq::new(3 * terms + 1, |i: int| polyadd_public_input(terms, i)),
    }
}

/// The division of the sum number `done` by the modulus extends the
/// circuit that holds the sums and the first `done` divisions to the one that
/// holds one division more. The modulus is asserted nonzero by the first
/// division only.
proof fn lemma_division_extends_polyadd(before: CircuitView, terms: int, done: int)
    requires
        0 <= done < terms,
        before.constants =~= Seq::new((3 * terms + 1 + 2 * done) as nat, |j: int| None::<u32>),
        before.constraints =~= Seq::new(
            (if done == 0 {
                terms
            } else {
                terms + 1 + 3 * done
            }) as nat,
            |k: int| polyadd_constraint(terms as nat, k),
        ),
    ensures
        before.knows(target(2 * terms + 1 + done)),
        before.knows(target(2 * terms)),
        with_division(before, target(2 * terms + 1 + done), target(2 * terms)).constants
            =~= Seq::new((3 * terms + 1 + 2 * (done + 1)) as nat, |j: int| None::<u32>),
        with_division(before, target(2 * terms + 1 + done), target(2 * terms)).constraints
            =~= Seq::new(
            (terms + 1 + 3 * (done + 1)) as nat,
            |k: int| polyadd_constraint(terms as nat, k),
        ),
        with_division(before, target(2 * terms + 1 + done), target(2 * terms)).public_inputs
            == before.public_inputs,
{
    let modulus = target(2 * terms);
    let after = with_division(before, target(2 * terms + 1 + done), modulus);
    if done == 0 {
        assert forall|k: int| 0 <= k < before.constraints.len() implies before.constraints[k]
            != Constraint::NonZero(modulus) by {
            assert(before.constraints[k] == polyadd_constraint(terms as nat, k));
        }
        assert(needs_nonzero(before, modulus));
    } else {
        assert(before.constraints[terms] == Constraint::NonZero(modulus));
        assert(!needs_nonzero(before, modulus));
    }
    let base: int = if done == 0 {
        terms
    } else {
        terms + 1 + 3 * done
    };
    assert(after.constraints.len() == terms + 1 + 3 * (done + 1));
    assert forall|k: int| 0 <= k < after.constraints.len() implies after.constraints[k]
        == polyadd_constraint(terms as nat, k) by {
        if k < base {
            assert(after.constraints[k] == before.constraints[k]);
        } else {
            let j = k - terms - 1;
            if j >= 0 {
                assert(j / 3 == done && j % 3 == j - 3 * done);
            }
        }
    }
}

/// The circuit of the addition of two polynomials, with its named targets.
pub struct PolyAddCircuit {
    /// The circuit.
    pub circuit: Circuit,
    /// The coefficients of the first polynomial.
    pub poly1: Vec<Target>,
    /// The coefficients of the second polynomial.
    pub poly2: Vec<Target>,
    /// The modulus.
    pub modulus: Target,
    /// The coefficients of the sum: the remainders of the divisions.
    pub added_poly: Vec<Target>,
}

/// The largest number of coefficients whose circuit the machine can number.
pub open spec fn max_terms() -> nat {
    ((usize::MAX - 1) / 5) as nat
}

/// Builds the circuit that adds two polynomials of `terms` coefficients
/// under a modulus that the witness gives.
pub fn polyadd_circuit(terms: usize) -> (pc: PolyAddCircuit)
    requires
        terms <= max_terms(),
    ensures
        pc.circuit.wf(),
        pc.circuit@ == polyadd_circuit_view(terms as nat),
        pc.poly1@ == Seq::new(terms as nat, |i: int| target(i)),
        pc.poly2@ == Seq::new(terms as nat, |i: int| target(terms + i)),
        pc.modulus == target(2 * terms),
        pc.added_poly@ == Seq::new(terms as nat, |i: int| target(3 * terms + 2 + 2 * i)),
{
    let mut circuit = Circuit::new();
    let poly1 = circuit.add_virtual_targets(terms);
    let poly2 = circuit.add_virtual_targets(terms);
    let modulus = circuit.add_virtual_target();
    assert(circuit@.constants =~= Seq::new((2 * terms + 1) as nat, |i: int| None::<u32>));
    let mut sums: Vec<Target> = Vec::with_capacity(terms);
    let mut i: usize = 0;
    while i < terms
        invariant
            i <= terms <= max_terms(),
            circuit.wf(),
            circuit@.constants =~= Seq::new((2 * terms + 1 + i) as nat, |j: int| None::<u32>),
            circuit@.constraints =~= Seq::new(i as nat, |k: int| polyadd_constraint(terms as nat, k)),
            circuit@.public_inputs.len() == 0,
            poly1@.len() == terms,
            poly2@.len() == terms,
            forall|j: int| 0 <= j < terms ==> #[trigger] poly1@[j] == target(j),
            forall|j: int| 0 <= j < terms ==> #[trigger] poly2@[j] == target(terms + j),
            sums@.len() == i,
            forall|j: int| 0 <= j < i ==> #[trigger] sums@[j] == target(2 * terms + 1 + j),
        decreases terms - i,
    {
        match circuit.add(poly1[i], poly2[i]) {
            Ok(sum) => {
                sums.push(sum);
            },
            Err(_) => {
                assert(false);
            },
        }
        i += 1;
    }
    let mut added_poly: Vec<Target> = Vec::with_capacity(terms);
    let mut i: usize = 0;
    while i < terms
        invariant
            i <= terms <= max_terms(),
            circuit.wf(),
            modulus == target(2 * terms),
            circuit@.constants =~= Seq::new((3 * terms + 1 + 2 * i) as nat, |j: int| None::<u32>),
            circuit@.constraints =~= Seq::new(
                if i == 0 {
                    terms as nat
                } else {
                    (terms + 1 + 3 * i) as nat
                },
                |k: int| polyadd_constraint(terms as nat, k),
            ),
            circuit@.public_inputs.len() == 0,
            sums@.len() == terms,
            forall|j: int| 0 <= j < terms ==> #[trigger] sums@[j] == target(2 * terms + 1 + j),
            added_poly@.len() == i,
            forall|j: int|
                0 <= j < i ==> #[trigger] added_poly@[j] == target(3 * terms + 2 + 2 * j),
        decreases terms - i,
    {
        let ghost before = circuit@;
        proof {
            lemma_division_extends_polyadd(before, terms as int, i as int);
        }
        match circuit.rem(sums[i], modulus) {
            Ok(r) => {
                added_poly.push(r);
            },
            Err(_) => {
                assert(false);
            },
        }
        i += 1;
    }
    let mut i: usize = 0;
    while i < terms
        invariant
            i <= terms <= max_terms(),
            circuit.wf(),
            circuit@.constants =~= Seq::new((5 * terms + 1) as nat, |j: int| None::<u32>),
            circuit@.constraints =~= Seq::new(
                polyadd_constraint_count(terms as nat),
                |k: int| polyadd_constraint(terms as nat, k),
            ),
            circuit@.public_inputs =~= Seq::new(
                i as nat,
                |j: int| polyadd_public_input(terms as nat, j),
            ),
            poly1@.len() == terms,
            forall|j: int| 0 <= j < terms ==> #[trigger] poly1@[j] == target(j),
        decreases terms - i,
    {
        let declared = circuit.register_public_input(poly1[i]);
        assert(declared is Ok);
        i += 1;
    }
    let mut i: usize = 0;
    while i < terms
        invariant
            i <= terms <= max_terms(),
            circuit.wf(),
            circuit@.constants =~= Seq::new((5 * terms + 1) as nat, |j: int| None::<u32>),
            circuit@.constraints =~= Seq::new(
                polyadd_constraint_count(terms as nat),
                |k: int| polyadd_constraint(terms as nat, k),
            ),
            circuit@.public_inputs =~= Seq::new(
                (terms + i) as nat,
                |j: int| polyadd_public_input(terms as nat, j),
            ),
            poly2@.len() == terms,
            forall|j: int| 0 <= j < terms ==> #[trigger] poly2@[j] == target(terms + j),
        decreases terms - i,
    {
        let declared = circuit.register_public_input(poly2[i]);
        assert(declared is Ok);
        i += 1;
    }
    let declared = circuit.register_public_input(modulus);
    assert(declared is Ok);
    let mut i: usize = 0;
    while i < terms
        invariant
            i <= terms <= max_terms(),
            circuit.wf(),
            circuit@.constants =~= Seq::new((5 * terms + 1) as nat, |j: int| None::<u32>),
            circuit@.constraints =~= Seq::new(
                polyadd_constraint_count(terms as nat),
                |k: int| polyadd_constraint(terms as nat, k),
            ),
            circuit@.public_inputs =~= Seq::new(
                (2 * terms + 1 + i) as nat,
                |j: int| polyadd_public_input(terms as nat, j),
            ),
            added_poly@.len() == terms,
            forall|j: int|
                0 <= j < terms ==> #[trigger] added_poly@[j] == target(3 * terms + 2 + 2 * j),
        decreases terms - i,
    {
        let declared = circuit.register_public_input(added_poly[i]);
        assert(declared is Ok);
        i += 1;
    }
    proof {
        let expected = polyadd_circuit_view(terms as nat);
        assert(circuit@.constants =~= expected.constants);
        assert(circuit@.constraints =~= expected.constraints);
        assert(circuit@.public_inputs =~= expected.public_inputs);
        assert(poly1@ =~= Seq::new(terms as nat, |i: int| target(i)));
        assert(poly2@ =~= Seq::new(terms as nat, |i: int| target(terms + i)));
        assert(added_poly@ =~= Seq::new(terms as nat, |i: int| target(3 * terms + 2 + 2 * i)));
    }
    PolyAddCircuit { circuit, poly1, poly2, modulus, added_poly }
}


/// The value of the target `k` of the circuit that adds `poly1` and `poly2`
/// under `modulus`: a coefficient, the modulus, the sum of two coefficients in
/// the field, or the quotient or the remainder of such a sum by the modulus.
pub open spec fn polyadd_value(poly1: Seq<u32>, poly2: Seq<u32>, modulus: u32, k: int) -> u32 {
    let n = poly1.len() as int;
    if k < n {
        poly1[k]
    } else if k < 2 * n {
        poly2[k - n]
    } else if k == 2 * n {
        modulus
    } else if k <= 3 * n {
        field_add(poly1[k - 2 * n - 1] as int, poly2[k - 2 * n - 1] as int) as u32
    } else {
        let i = (k - 3 * n - 1) / 2;
        let sum = field_add(poly1[i] as int, poly2[i] as int);
        if (k - 3 * n - 1) % 2 == 0 {
            (sum / (modulus as int)) as u32
        } else {
            (sum % (modulus as int)) as u32
        }
    }
}

/// Whether the target `k` has its value once the first `done` coefficients are handled.
pub open spec fn polyadd_bound(terms: int, done: int, k: int) -> bool {
    ||| 0 <= k < done
    ||| terms <= k < terms + done
    ||| k == 2 * terms
    ||| 2 * terms + 1 <= k < 2 * terms + 1 + done
    ||| 3 * terms + 1 <= k < 3 * terms + 1 + 2 * done
}

/// The witness of the addition: every target has its value.
pub open spec fn polyadd_witness_map(poly1: Seq<u32>, poly2: Seq<u32>, modulus: u32) -> Map<
    usize,
    u32,
> {
    Map::new(
        |k: usize| k <= 5 * poly1.len(),
        |k: usize| polyadd_value(poly1, poly2, modulus, k as int),
    )
}

/// The values of the addition are canonical representatives.
pub proof fn lemma_polyadd_value_is_canonical(
    poly1: Seq<u32>,
    poly2: Seq<u32>,
    modulus: u32,
    k: int,
)
    requires
        valid_polyadd_input(poly1, poly2, modulus),
        0 <= k <= 5 * poly1.len(),
    ensures
        is_canonical(polyadd_value(poly1, poly2, modulus, k)),
{
    let n = poly1.len() as int;
    if k > 3 * n {
        let i = (k - 3 * n - 1) / 2;
        let sum = field_add(poly1[i] as int, poly2[i] as int);
        lemma_quotient_and_remainder_are_small(sum, modulus as int);
    }
}

/// The quotient and the remainder of a number by a positive one are not
/// negative and not above the number and the divisor.
pub proof fn lemma_quotient_and_remainder_are_small(x: int, d: int)
    requires
        0 <= x,
        0 < d,
    ensures
        0 <= x / d <= x,
        0 <= x % d < d,
        x == (x / d) * d + x % d,
{
    vstd::arithmetic::div_mod::lemma_fundamental_div_mod(x, d);
    vstd::arithmetic::div_mod::lemma_mod_pos_bound(x, d);
    vstd::arithmetic::div_mod::lemma_div_pos_is_pos(x, d);
    assert(x / d <= x && x == (x / d) * d + x % d) by (nonlinear_arith)
        requires
            x == d * (x / d) + x % d,
            0 <= x % d,
            0 < d,
            0 <= x / d,
    ;
}

/// Computes the witness of the circuit that adds `poly1` and `poly2` under `modulus`.
///
/// Fails with `InvalidInput` where the input is not valid or has more
/// coefficients than a circuit can have.
pub fn polyadd_witness(poly1: &Vec<u32>, poly2: &Vec<u32>, modulus: u32) -> (res: Result<
    Witness,
    Error,
>)
    ensures
        match res {
            Ok(w) => {
                &&& valid_polyadd_input(poly1@, poly2@, modulus)
                &&& poly1@.len() <= max_terms()
                &&& w.wf()
                &&& w@ == polyadd_witness_map(poly1@, poly2@, modulus)
            },
            Err(e) => {
                &&& !(valid_polyadd_input(poly1@, poly2@, modulus) && poly1@.len() <= max_terms())
                &&& e == Error::InvalidInput
            },
        },
{
    let n = poly1.len();
    if poly2.len() != n || n == 0 || n > (usize::MAX - 1) / 5 || modulus == 0 || modulus
        >= MODULUS {
        return Err(Error::InvalidInput);
    }
    if !check_canonical(poly1.as_slice()) || !check_canonical(poly2.as_slice()) {
        return Err(Error::InvalidInput);
    }
    let mut w = Witness::new();
    let bound = w.set(Target { index: 2 * n }, modulus);
    assert(bound is Ok);
    let ghost p1 = poly1@;
    let ghost p2 = poly2@;
    assert(w@ =~= Map::new(
        |k: usize| polyadd_bound(n as int, 0, k as int),
        |k: usize| polyadd_value(p1, p2, modulus, k as int),
    ));
    let mut i: usize = 0;
    while i < n
        invariant
            i <= n,
            n == p1.len(),
            p1 == poly1@,
            p2 == poly2@,
            n <= max_terms(),
            valid_polyadd_input(p1, p2, modulus),
            w.wf(),
            w@ == Map::new(
                |k: usize| polyadd_bound(n as int, i as int, k as int),
                |k: usize| polyadd_value(p1, p2, modulus, k as int),
            ),
        decreases n - i,
    {
        let sum = m31_add(poly1[i], poly2[i]);
        let q = sum / modulus;
        let r = sum % modulus;
        proof {
            lemma_quotient_and_remainder_are_small(sum as int, modulus as int);
            assert((3 * n + 1 + 2 * i - 3 * n - 1) / 2 == i);
            assert((3 * n + 2 + 2 * i - 3 * n - 1) / 2 == i);
        }
        let bound = w.set(Target { index: i }, poly1[i]);
        assert(bound is Ok);
        let bound = w.set(Target { index: n + i }, poly2[i]);
        assert(bound is Ok);
        let bound = w.set(Target { index: 2 * n + 1 + i }, sum);
        assert(bound is Ok);
        let bound = w.set(Target { index: 3 * n + 1 + 2 * i }, q);
        assert(bound is Ok);
        let bound = w.set(Target { index: 3 * n + 2 + 2 * i }, r);
        assert(bound is Ok);
        assert(w@ =~= Map::new(
            |k: usize| polyadd_bound(n as int, i + 1, k as int),
            |k: usize| polyadd_value(p1, p2, modulus, k as int),
        ));
        i += 1;
    }
    assert(w@ =~= polyadd_witness_map(p1, p2, modulus));
    Ok(w)
}

/// The assignment that the witness of the addition makes: every target has
/// its value, a canonical representative.
pub proof fn lemma_polyadd_assignment(poly1: Seq<u32>, poly2: Seq<u32>, modulus: u32)
    requires
        valid_polyadd_input(poly1, poly2, modulus),
        poly1.len() <= max_terms(),
    ensures
        assignment(
            polyadd_circuit_view(poly1.len()),
            polyadd_witness_map(poly1, poly2, modulus),
        ).len() == 5 * poly1.len() + 1,
        forall|k: int|
            0 <= k <= 5 * poly1.len() ==> #[trigger] assignment(
                polyadd_circuit_view(poly1.len()),
                polyadd_witness_map(poly1, poly2, modulus),
            )[k] == polyadd_value(poly1, poly2, modulus, k),
        all_canonical(
            assignment(
                polyadd_circuit_view(poly1.len()),
                polyadd_witness_map(poly1, poly2, modulus),
            ),
        ),
        is_complete(
            polyadd_circuit_view(poly1.len()),
            polyadd_witness_map(poly1, poly2, modulus),
        ),
{
    let view = polyadd_circuit_view(poly1.len());
    let w = polyadd_witness_map(poly1, poly2, modulus);
    let values = assignment(view, w);
    assert forall|k: int| 0 <= k <= 5 * poly1.len() implies #[trigger] values[k] == polyadd_value(
        poly1,
        poly2,
        modulus,
        k,
    ) && is_canonical(values[k]) by {
        lemma_polyadd_value_is_canonical(poly1, poly2, modulus, k);
        assert(w.contains_key(k as usize));
    }
}

/// Every constraint of the circuit holds of the assignment that the
/// witness of the addition makes.
proof fn lemma_polyadd_constraint_holds(poly1: Seq<u32>, poly2: Seq<u32>, modulus: u32, k: int)
    requires
        valid_polyadd_input(poly1, poly2, modulus),
        poly1.len() <= max_terms(),
        0 <= k < polyadd_constraint_count(poly1.len()),
    ensures
        constraint_holds(
            polyadd_constraint(poly1.len(), k),
            assignment(
                polyadd_circuit_view(poly1.len()),
                polyadd_witness_map(poly1, poly2, modulus),
            ),
        ),
{
    let n = poly1.len() as int;
    let values = assignment(
        polyadd_circuit_view(poly1.len()),
        polyadd_witness_map(poly1, poly2, modulus),
    );
    lemma_polyadd_assignment(poly1, poly2, modulus);
    assert(values[2 * n] == polyadd_value(poly1, poly2, modulus, 2 * n));
    if k < n {
        lemma_sum_constraint_holds(values, target(k), target(n + k), target(2 * n + 1 + k));
        assert(values[k] == polyadd_value(poly1, poly2, modulus, k));
        assert(values[n + k] == polyadd_value(poly1, poly2, modulus, n + k));
        assert(values[2 * n + 1 + k] == polyadd_value(poly1, poly2, modulus, 2 * n + 1 + k));
    } else if k > n {
        let i = (k - n - 1) / 3;
        let sum = 2 * n + 1 + i;
        let q = 3 * n + 1 + 2 * i;
        let r = 3 * n + 2 + 2 * i;
        lemma_division_constraints_are_exact(
            values,
            target(sum),
            target(2 * n),
            target(q),
            target(r),
        );
        assert(values[sum] == polyadd_value(poly1, poly2, modulus, sum));
        assert(values[q] == polyadd_value(poly1, poly2, modulus, q));
        assert(values[r] == polyadd_value(poly1, poly2, modulus, r));
        assert((q - 3 * n - 1) / 2 == i && (q - 3 * n - 1) % 2 == 0);
        assert((r - 3 * n - 1) / 2 == i && (r - 3 * n - 1) % 2 == 1);
        lemma_quotient_and_remainder_are_small(
            field_add(poly1[i] as int, poly2[i] as int),
            modulus as int,
        );
    }
}

/// The witness of the addition is complete for the circuit and satisfies
/// it, and each remainder target holds the sum of its two coefficients in the
/// field, reduced modulo the modulus: where the two coefficients together stay
/// below the field's modulus, the sum of the integers reduced modulo the modulus.
pub proof fn lemma_polyadd_witness_satisfies(poly1: Seq<u32>, poly2: Seq<u32>, modulus: u32)
    requires
        valid_polyadd_input(poly1, poly2, modulus),
        poly1.len() <= max_terms(),
    ensures
        is_complete(
            polyadd_circuit_view(poly1.len()),
            polyadd_witness_map(poly1, poly2, modulus),
        ),
        polyadd_circuit_view(poly1.len()).satisfied_by(
            assignment(
                polyadd_circuit_view(poly1.len()),
                polyadd_witness_map(poly1, poly2, modulus),
            ),
        ),
        forall|i: int|
            0 <= i < poly1.len() ==> #[trigger] assignment(
                polyadd_circuit_view(poly1.len()),
                polyadd_witness_map(poly1, poly2, modulus),
            )[3 * poly1.len() + 2 + 2 * i] == field_add(poly1[i] as int, poly2[i] as int) % (
            modulus as int),
        forall|i: int|
            0 <= i < poly1.len() && poly1[i] + poly2[i] < MODULUS ==> #[trigger] assignment(
                polyadd_circuit_view(poly1.len()),
                polyadd_witness_map(poly1, poly2, modulus),
            )[3 * poly1.len() + 2 + 2 * i] == (poly1[i] + poly2[i]) % (modulus as int),
{
    let n = poly1.len() as int;
    let view = polyadd_circuit_view(poly1.len());
    let values = assignment(view, polyadd_witness_map(poly1, poly2, modulus));
    lemma_polyadd_assignment(poly1, poly2, modulus);
    assert forall|i: int| 0 <= i < n implies #[trigger] values[3 * n + 2 + 2 * i] == field_add(
        poly1[i] as int,
        poly2[i] as int,
    ) % (modulus as int) by {
        let k = 3 * n + 2 + 2 * i;
        assert((k - 3 * n - 1) / 2 == i && (k - 3 * n - 1) % 2 == 1);
        assert(values[k] == polyadd_value(poly1, poly2, modulus, k));
        lemma_quotient_and_remainder_are_small(
            field_add(poly1[i] as int, poly2[i] as int),
            modulus as int,
        );
    }
    assert forall|i: int| 0 <= i < n && poly1[i] + poly2[i] < MODULUS implies field_add(
        poly1[i] as int,
        poly2[i] as int,
    ) == poly1[i] + poly2[i] by {
        lemma_small_mod((poly1[i] + poly2[i]) as nat, MODULUS as nat);
    }
    assert forall|k: int| 0 <= k < view.constraints.len() implies constraint_holds(
        #[trigger] view.constraints[k],
        values,
    ) by {
        lemma_polyadd_constraint_holds(poly1, poly2, modulus, k);
    }
}

/// Builds the Fibonacci circuit that reaches the value number `iterations`
/// and finalizes its witness for the initial values `a` and `b`. The witness
/// satisfies the circuit: the assignment holds the values of the recurrence.
///
/// Fails with `InvalidInput` where `a` or `b` is no canonical representative.
pub fn fibonacci_circuit_instance(iterations: usize, a: u32, b: u32) -> (res: Result<
    (FibonacciCircuit, Vec<u32>),
    Error,
>)
    requires
        1 <= iterations < usize::MAX,
    ensures
        match res {
            Ok((fc, values)) => {
                &&& is_canonical(a) && is_canonical(b)
                &&& fc.circuit.wf()
                &&& fc.circuit@ == fibonacci_circuit_view(iterations as nat)
                &&& fc.result == target(iterations as int)
                &&& fc.circuit@.satisfied_by(values@)
                &&& values@ == assignment(
                    fc.circuit@,
                    fibonacci_witness_map(iterations as nat, a, b),
                )
                &&& values@[iterations as int] == fibonacci_value(a, b, iterations as nat)
            },
            Err(e) => !(is_canonical(a) && is_canonical(b)) && e == Error::InvalidInput,
        },
{
    let witness = match fibonacci_witness(iterations, a, b) {
        Ok(witness) => witness,
        Err(_) => {
            return Err(Error::InvalidInput);
        },
    };
    let fc = fibonacci_circuit(iterations);
    let ghost bound = witness@;
    let finalized = witness.finalize(&fc.circuit);
    proof {
        lemma_fibonacci_witness_satisfies(iterations as nat, a, b);
        lemma_satisfying_witness_is_accepted(fc.circuit@, bound, finalized);
    }
    match finalized {
        Ok(values) => Ok((fc, values)),
        Err(e) => Err(e),
    }
}

/// Builds the circuit that adds `poly1` and `poly2` in the field and
/// finalizes its witness. The witness satisfies the circuit: the assignment
/// holds the sum of every two coefficients in the field.
///
/// Fails with `InvalidInput` where the input is not valid.
pub fn sum_circuit_instance(poly1: &Vec<u32>, poly2: &Vec<u32>) -> (res: Result<
    (SumCircuit, Vec<u32>),
    Error,
>)
    ensures
        match res {
            Ok((sc, values)) => {
                &&& valid_sum_input(poly1@, poly2@)
                &&& sc.circuit.wf()
                &&& sc.circuit@ == sum_circuit_view(poly1@.len())
                &&& sc.circuit@.satisfied_by(values@)
                &&& values@ == assignment(sc.circuit@, sum_witness_map(poly1@, poly2@))
                &&& forall|i: int|
                    0 <= i < poly1@.len() ==> #[trigger] values@[2 * poly1@.len() + i]
                        == field_add(poly1@[i] as int, poly2@[i] as int)
            },
            Err(e) => !valid_sum_input(poly1@, poly2@) && e == Error::InvalidInput,
        },
{
    let witness = match sum_witness(poly1, poly2) {
        Ok(witness) => witness,
        Err(_) => {
            return Err(Error::InvalidInput);
        },
    };
    let sc = sum_circuit(poly1.len());
    let ghost bound = witness@;
    let finalized = witness.finalize(&sc.circuit);
    proof {
        lemma_sum_witness_satisfies(poly1@, poly2@);
        lemma_satisfying_witness_is_accepted(sc.circuit@, bound, finalized);
    }
    match finalized {
        Ok(values) => Ok((sc, values)),
        Err(e) => Err(e),
    }
}

/// Builds the circuit that adds `poly1` and `poly2` under `modulus` and
/// finalizes its witness. The witness satisfies the circuit: every remainder
/// target holds the sum of its two coefficients in the field, reduced modulo
/// the modulus.
///
/// Fails with `InvalidInput` where the input is not valid or has more
/// coefficients than a circuit can have.
pub fn polyadd_circuit_instance(poly1: &Vec<u32>, poly2: &Vec<u32>, modulus: u32) -> (res: Result<
    (PolyAddCircuit, Vec<u32>),
    Error,
>)
    ensures
        match res {
            Ok((pc, values)) => {
                &&& valid_polyadd_input(poly1@, poly2@, modulus)
                &&& poly1@.len() <= max_terms()
                &&& pc.circuit.wf()
                &&& pc.circuit@ == polyadd_circuit_view(poly1@.len())
                &&& pc.circuit@.satisfied_by(values@)
                &&& values@ == assignment(
                    pc.circuit@,
                    polyadd_witness_map(poly1@, poly2@, modulus),
                )
                &&& forall|i: int|
                    0 <= i < poly1@.len() ==> #[trigger] values@[3 * poly1@.len() + 2 + 2 * i]
                        == field_add(poly1@[i] as int, poly2@[i] as int) % (modulus as int)
            },
            Err(e) => {
                &&& !(valid_polyadd_input(poly1@, poly2@, modulus) && poly1@.len() <= max_terms())
                &&& e == Error::InvalidInput
            },
        },
{
    let witness = match polyadd_witness(poly1, poly2, modulus) {
        Ok(witness) => witness,
        Err(_) => {
            return Err(Error::InvalidInput);
        },
    };
    let pc = polyadd_circuit(poly1.len());
    let ghost bound = witness@;
    let finalized = witness.finalize(&pc.circuit);
    proof {
        lemma_polyadd_witness_satisfies(poly1@, poly2@, modulus);
        lemma_satisfying_witness_is_accepted(pc.circuit@, bound, finalized);
    }
    match finalized {
        Ok(values) => Ok((pc, values)),
        Err(e) => Err(e),
    }
}

} // verus!
